//! Unwanted processes: which are ended, and how.

use vstd::prelude::*;
use crate::command::{command, CommandLine};
use crate::config::{Config, ProcessKiller, Whitelist};
use crate::plan::{Action, ActionView};
use crate::agents::{Binary, BinaryView};
use crate::sentinel::locks::Finding;
use crate::sentinel::locks;
use crate::{agents, guard, paths, plan, text};

verus! {

broadcast use crate::text::group_views;

// ── the whitelist ────────────────────────────────────────────────────────────

/// A text in lower case, as `str::to_lowercase` writes it.
pub uninterp spec fn lowercase(s: Seq<char>) -> Seq<char>;

/// `str::to_lowercase`. The result is a function of the text alone.
#[verifier::external_body]
fn lower(s: &str) -> (r: String)
    ensures
        r@ == lowercase(s@),
{
    s.to_lowercase()
}

/// The name is listed, in this case or another.
pub open spec fn listed_in_any_case(name: Seq<char>, apps: Seq<Seq<char>>) -> bool {
    apps.contains(name) || exists|i: int|
        0 <= i < apps.len() && lowercase(#[trigger] apps[i]) == lowercase(name)
}

/// Whether a name is listed, given it and the listed names in lower case too.
pub fn is_listed(
    name: &str,
    lower_name: &str,
    apps: &Vec<String>,
    lower_apps: &Vec<String>,
) -> (r: bool)
    ensures
        r == (text::views(apps@).contains(name@) || text::views(lower_apps@).contains(
            lower_name@,
        )),
{
    text::is_any(name, apps) || text::is_any(lower_name, lower_apps)
}

/// Whether a process is whitelisted by its name, in whatever case.
pub fn is_whitelisted(name: &str, whitelist: &Whitelist) -> (r: bool)
    ensures
        r == listed_in_any_case(name@, text::views(whitelist.apps@)),
{
    let apps = &whitelist.apps;
    let ghost all = text::views(apps@);
    let lower_name = lower(name);
    let mut lowered: Vec<String> = Vec::new();
    let mut i: usize = 0;
    while i < apps.len()
        invariant
            i <= apps@.len(),
            all == text::views(apps@),
            lowered@.len() == i,
            forall|j: int| 0 <= j < i ==> (#[trigger] lowered@[j])@ == lowercase(all[j]),
        decreases apps.len() - i,
    {
        assert(all[i as int] == apps@[i as int]@);
        lowered.push(lower(apps[i].as_str()));
        i = i + 1;
    }
    let r = is_listed(name, lower_name.as_str(), apps, &lowered);
    proof {
        let low = text::views(lowered@);
        assert forall|j: int| 0 <= j < all.len() implies #[trigger] low[j] == lowercase(all[j]) by {
            assert(low[j] == lowered@[j]@);
        }
        if low.contains(lowercase(name@)) {
            let j = choose|j: int| 0 <= j < low.len() && low[j] == lowercase(name@);
            assert(lowercase(all[j]) == lowercase(name@));
        }
        if exists|j: int| 0 <= j < all.len() && lowercase(#[trigger] all[j]) == lowercase(name@) {
            let j = choose|j: int|
                0 <= j < all.len() && lowercase(#[trigger] all[j]) == lowercase(name@);
            assert(low[j] == lowercase(name@));
        }
    }
    r
}

// ── targets ──────────────────────────────────────────────────────────────────

/// A process may be ended: it is neither whitelisted nor the system's own.
pub open spec fn may_be_ended(name: Seq<char>, w: Whitelist) -> bool {
    !listed_in_any_case(name, text::views(w.apps@)) && !"com.apple."@.is_prefix_of(name)
}

/// The names that may be ended, in order.
pub open spec fn endable(names: Seq<Seq<char>>, w: Whitelist) -> Seq<Seq<char>>
    decreases names.len(),
{
    if names.len() == 0 {
        Seq::empty()
    } else if may_be_ended(names.last(), w) {
        endable(names.drop_last(), w).push(names.last())
    } else {
        endable(names.drop_last(), w)
    }
}

/// The processes to be ended: the one that was asked for, else the unwanted ones; of
/// these, those that may be. None where the process killer is switched off.
pub open spec fn targets_of(cfg: Config, name: Option<Seq<char>>) -> Seq<Seq<char>> {
    if !cfg.process_killer.enabled {
        Seq::empty()
    } else {
        match name {
            Some(n) => endable(seq![n], cfg.whitelist),
            None => endable(text::views(cfg.rogue_list.process_names@), cfg.whitelist),
        }
    }
}

fn endable_of(names: &Vec<String>, w: &Whitelist) -> (r: Vec<String>)
    ensures
        text::views(r@) == endable(text::views(names@), *w),
{
    let ghost all = text::views(names@);
    let mut r: Vec<String> = Vec::new();
    let mut i: usize = 0;
    assert(all.take(0) =~= Seq::<Seq<char>>::empty());
    while i < names.len()
        invariant
            i <= names@.len(),
            all == text::views(names@),
            text::views(r@) == endable(all.take(i as int), *w),
        decreases names.len() - i,
    {
        let name: &str = names[i].as_str();
        assert(all.take(i + 1).drop_last() =~= all.take(i as int));
        assert(all.take(i + 1).last() == name@);
        if !is_whitelisted(name, w) && !text::starts_with(name, "com.apple.") {
            r.push(text::owned(name));
        }
        i = i + 1;
    }
    assert(all.take(i as int) =~= all);
    r
}

/// The processes to be ended, each by [`crush`]; then broken agents follow, where
/// [`broken_agents_follow`].
pub fn crush_rogue(cfg: &Config, name: &Option<String>) -> (r: Vec<String>)
    ensures
        text::views(r@) == targets_of(*cfg, text::opt_view(*name)),
{
    if !cfg.process_killer.enabled {
        return Vec::new();
    }
    match name {
        Some(n) => {
            let mut one: Vec<String> = Vec::new();
            one.push(text::owned(n.as_str()));
            assert(text::views(one@) =~= seq![n@]);
            endable_of(&one, &cfg.whitelist)
        },
        None => endable_of(&cfg.rogue_list.process_names, &cfg.whitelist),
    }
}

/// Whether broken agents are dealt with after the processes.
pub fn broken_agents_follow(cfg: &Config) -> (r: bool)
    ensures
        r == (cfg.process_killer.enabled && cfg.optimizer.broken_launch_agents),
{
    cfg.process_killer.enabled && cfg.optimizer.broken_launch_agents
}

/// The line for a process that was dealt with.
pub open spec fn crush_line(name: Seq<char>, killed: bool) -> Seq<char> {
    if killed {
        "  ✓  crushed: "@ + name
    } else {
        "  ✗  could not kill: "@ + name + " — try: sudo kill -9 $(pgrep -x \""@ + name + "\")"@
    }
}

/// The line for a process that was dealt with.
pub fn show_crushed(name: &str, killed: bool) -> (r: String)
    ensures
        r@ == crush_line(name@, killed),
{
    if killed {
        text::join2("  ✓  crushed: ", name)
    } else {
        let mut r = text::join3(
            "  ✗  could not kill: ",
            name,
            " — try: sudo kill -9 $(pgrep -x \"",
        );
        r.append(name);
        r.append("\")");
        r
    }
}

/// The question whether a process with this name runs, and for its number.
pub fn pgrep_exact(name: &str) -> (r: CommandLine)
    ensures
        r@ == ("pgrep"@, seq!["-x"@, name@]),
{
    let r = command("pgrep", &["-x", name]);
    assert(r@.1 =~= seq!["-x"@, name@]);
    r
}

/// The number of a process in the reply to [`pgrep_exact`]: that of its first line.
pub open spec fn pid_in(reply: Seq<char>) -> Option<nat> {
    let ls = text::lines(reply);
    if ls.len() == 0 {
        None
    } else {
        text::number_of(text::trim(ls[0]), u32::MAX as nat)
    }
}

/// The number of a process in the reply to [`pgrep_exact`].
pub fn get_pid(reply: &str) -> (r: Option<u32>)
    ensures
        match r {
            Some(pid) => pid_in(reply@) == Some(pid as nat),
            None => pid_in(reply@) is None,
        },
{
    let ls = text::lines_of(reply);
    assert(text::views(ls@).len() == ls@.len());
    if ls.len() == 0 {
        return None;
    }
    assert(text::lines(reply@)[0] == ls@[0]@);
    match text::parse_number(text::trimmed(ls[0].as_str()).as_str(), u32::MAX as u64) {
        Some(v) => Some(v as u32),
        None => None,
    }
}

// ── ending a process ─────────────────────────────────────────────────────────

/// What ending a process goes by.
pub struct KillView {
    pub name: Seq<char>,
    pub graceful: int,
    pub force: int,
    pub bootout: bool,
    pub uid: u32,
    pub is_root: bool,
}

struct Job {
    name: String,
    graceful: u64,
    force: u64,
    bootout: bool,
    uid: u32,
    is_root: bool,
}

impl View for Job {
    type V = KillView;

    closed spec fn view(&self) -> KillView {
        KillView {
            name: self.name@,
            graceful: self.graceful as int,
            force: self.force as int,
            bootout: self.bootout,
            uid: self.uid,
            is_root: self.is_root,
        }
    }
}

/// It is looked whether ending the process would risk data of the user.
pub struct Guarding {
    job: Job,
}

/// The process is asked to end.
pub struct Asking {
    job: Job,
}

/// The process is ended by force.
pub struct Forcing {
    job: Job,
}

/// The process is evicted from the service manager, so that it does not come back.
pub struct Evicting {
    job: Job,
}

/// It is looked whether the process still runs.
pub struct Checking {
    job: Job,
}

/// The process is ended by force once more, by the superuser.
pub struct Insisting {
    job: Job,
}

/// It is looked for the last time whether the process runs.
pub struct Confirming {
    job: Job,
}

/// What ending a process takes next.
pub enum Kill {
    Guard(Guarding),
    Ask(Asking),
    Force(Forcing),
    Evict(Evicting),
    Check(Checking),
    Insist(Insisting),
    Confirm(Confirming),
    /// Nothing more: whether the process is gone.
    Over(bool),
}

/// The view of a [`Kill`].
pub enum KillStage {
    Guard(KillView),
    Ask(KillView),
    Force(KillView),
    Evict(KillView),
    Check(KillView),
    Insist(KillView),
    Confirm(KillView),
    Over(bool),
}

impl View for Guarding {
    type V = KillView;

    closed spec fn view(&self) -> KillView {
        self.job@
    }
}

impl View for Asking {
    type V = KillView;

    closed spec fn view(&self) -> KillView {
        self.job@
    }
}

impl View for Forcing {
    type V = KillView;

    closed spec fn view(&self) -> KillView {
        self.job@
    }
}

impl View for Evicting {
    type V = KillView;

    closed spec fn view(&self) -> KillView {
        self.job@
    }
}

impl View for Checking {
    type V = KillView;

    closed spec fn view(&self) -> KillView {
        self.job@
    }
}

impl View for Insisting {
    type V = KillView;

    closed spec fn view(&self) -> KillView {
        self.job@
    }
}

impl View for Confirming {
    type V = KillView;

    closed spec fn view(&self) -> KillView {
        self.job@
    }
}

impl View for Kill {
    type V = KillStage;

    open spec fn view(&self) -> KillStage {
        match self {
            Kill::Guard(s) => KillStage::Guard(s@),
            Kill::Ask(s) => KillStage::Ask(s@),
            Kill::Force(s) => KillStage::Force(s@),
            Kill::Evict(s) => KillStage::Evict(s@),
            Kill::Check(s) => KillStage::Check(s@),
            Kill::Insist(s) => KillStage::Insist(s@),
            Kill::Confirm(s) => KillStage::Confirm(s@),
            Kill::Over(gone) => KillStage::Over(*gone),
        }
    }
}

/// What is done to ask a process to end, and how long it is given.
pub open spec fn ask_plan(k: KillView) -> Seq<ActionView> {
    seq![ActionView::Run("pkill"@, seq!["-x"@, k.name]), ActionView::Wait(k.graceful)]
}

/// What is done to end a process by force, and how long it is given.
pub open spec fn force_plan(k: KillView) -> Seq<ActionView> {
    seq![ActionView::Run("pkill"@, seq!["-9"@, "-x"@, k.name]), ActionView::Wait(k.force)]
}

/// What is done to end a process by force once more.
pub open spec fn insist_plan(k: KillView) -> Seq<ActionView> {
    seq![ActionView::Run("pkill"@, seq!["-9"@, "-x"@, k.name]), ActionView::Wait(1)]
}

/// The eviction of a process whose number is known.
pub open spec fn evict_plan(k: KillView, reply: Option<Seq<char>>) -> Seq<ActionView> {
    match reply {
        Some(s) => match pid_in(s) {
            Some(pid) => seq![
                ActionView::Run(
                    "launchctl"@,
                    seq![
                        "bootout"@,
                        "gui/"@ + text::decimal(k.uid as nat) + "/"@ + text::decimal(pid),
                    ],
                ),
            ],
            None => Seq::empty(),
        },
        None => Seq::empty(),
    }
}

/// What follows once it is known what the processes with this name hold open. Where one
/// of them belongs to an intact bundle and has files of the user open, none is ended.
pub open spec fn guarded(k: KillView, found: Seq<Finding>) -> KillStage {
    if locks::any_risks_data(found) {
        KillStage::Over(false)
    } else {
        KillStage::Ask(k)
    }
}

/// What follows once it is known whether the process still runs after it was asked.
pub open spec fn asked(k: KillView, running: bool) -> KillStage {
    if running {
        KillStage::Force(k)
    } else {
        KillStage::Over(true)
    }
}

/// What follows once the process was ended by force.
pub open spec fn forced(k: KillView) -> KillStage {
    if k.bootout {
        KillStage::Evict(k)
    } else {
        KillStage::Check(k)
    }
}

/// What follows once it is known whether the process runs after all that.
pub open spec fn checked(k: KillView, running: bool) -> KillStage {
    if running && k.is_root {
        KillStage::Insist(k)
    } else {
        KillStage::Confirm(k)
    }
}

/// Begins to end a process. First it is looked whether that would risk data of the user;
/// then the process is asked, then forced, then evicted.
pub fn kill_process(name: &str, cfg: &ProcessKiller, uid: u32, is_root: bool) -> (r: Kill)
    ensures
        r@ == KillStage::Guard(
            KillView {
                name: name@,
                graceful: cfg.graceful_timeout_secs as int,
                force: cfg.force_timeout_secs as int,
                bootout: cfg.use_launchctl_bootout,
                uid,
                is_root,
            },
        ),
{
    Kill::Guard(
        Guarding {
            job: Job {
                name: text::owned(name),
                graceful: cfg.graceful_timeout_secs,
                force: cfg.force_timeout_secs,
                bootout: cfg.use_launchctl_bootout,
                uid,
                is_root,
            },
        },
    )
}

/// Begins to end a process that is to be ended, given whether it runs. One that does not
/// is passed over.
pub fn crush(name: &str, running: bool, cfg: &ProcessKiller, uid: u32, is_root: bool) -> (r: Option<
    Kill,
>)
    ensures
        match r {
            Some(kill) => running && kill@ == KillStage::Guard(
                KillView {
                    name: name@,
                    graceful: cfg.graceful_timeout_secs as int,
                    force: cfg.force_timeout_secs as int,
                    bootout: cfg.use_launchctl_bootout,
                    uid,
                    is_root,
                },
            ),
            None => !running,
        },
{
    if running {
        Some(kill_process(name, cfg, uid, is_root))
    } else {
        None
    }
}

impl Guarding {
    /// Goes on with what was found out about each process with this name.
    pub fn resume(self, found: &Vec<Finding>) -> (r: Kill)
        ensures
            r@ == guarded(self@, found@),
    {
        if locks::some_risk_data(found) {
            Kill::Over(false)
        } else {
            Kill::Ask(Asking { job: self.job })
        }
    }
}

impl Asking {
    /// What is to be done. Then it is looked whether the process runs.
    pub fn plan(&self) -> (r: Vec<Action>)
        ensures
            text::views(r@) == ask_plan(self@),
    {
        let mut r: Vec<Action> = Vec::new();
        r.push(plan::run2("pkill", "-x", self.job.name.as_str()));
        r.push(Action::Wait(self.job.graceful));
        assert(text::views(r@) =~= ask_plan(self@));
        r
    }

    /// Goes on with the answer whether the process runs.
    pub fn resume(self, running: bool) -> (r: Kill)
        ensures
            r@ == asked(self@, running),
    {
        if running {
            Kill::Force(Forcing { job: self.job })
        } else {
            Kill::Over(true)
        }
    }
}

impl Forcing {
    /// What is to be done.
    pub fn plan(&self) -> (r: Vec<Action>)
        ensures
            text::views(r@) == force_plan(self@),
    {
        let mut r: Vec<Action> = Vec::new();
        r.push(plan::run3("pkill", "-9", "-x", self.job.name.as_str()));
        r.push(Action::Wait(self.job.force));
        assert(text::views(r@) =~= force_plan(self@));
        r
    }

    /// Goes on once that is done.
    pub fn resume(self) -> (r: Kill)
        ensures
            r@ == forced(self@),
    {
        if self.job.bootout {
            Kill::Evict(Evicting { job: self.job })
        } else {
            Kill::Check(Checking { job: self.job })
        }
    }
}

impl Evicting {
    /// What is to be done, given the reply to the question for the number of the process.
    pub fn plan(&self, reply: &Option<String>) -> (r: Vec<Action>)
        ensures
            text::views(r@) == evict_plan(self@, text::opt_view(*reply)),
    {
        let mut r: Vec<Action> = Vec::new();
        match reply {
            Some(s) => match get_pid(s.as_str()) {
                Some(pid) => {
                    let mut domain = text::join3(
                        "gui/",
                        text::decimal_of(self.job.uid as u64).as_str(),
                        "/",
                    );
                    domain.append(text::decimal_of(pid as u64).as_str());
                    r.push(plan::run2("launchctl", "bootout", domain.as_str()));
                },
                None => {},
            },
            None => {},
        }
        assert(text::views(r@) =~= evict_plan(self@, text::opt_view(*reply)));
        r
    }

    /// Goes on once that is done.
    pub fn resume(self) -> (r: Kill)
        ensures
            r@ == KillStage::Check(self@),
    {
        Kill::Check(Checking { job: self.job })
    }
}

impl Checking {
    /// Goes on with the answer whether the process runs.
    pub fn resume(self, running: bool) -> (r: Kill)
        ensures
            r@ == checked(self@, running),
    {
        if running && self.job.is_root {
            Kill::Insist(Insisting { job: self.job })
        } else {
            Kill::Confirm(Confirming { job: self.job })
        }
    }
}

impl Insisting {
    /// What is to be done.
    pub fn plan(&self) -> (r: Vec<Action>)
        ensures
            text::views(r@) == insist_plan(self@),
    {
        let mut r: Vec<Action> = Vec::new();
        r.push(plan::run3("pkill", "-9", "-x", self.job.name.as_str()));
        r.push(Action::Wait(1));
        assert(text::views(r@) =~= insist_plan(self@));
        r
    }

    /// Goes on once that is done.
    pub fn resume(self) -> (r: Kill)
        ensures
            r@ == KillStage::Confirm(self@),
    {
        Kill::Confirm(Confirming { job: self.job })
    }
}

impl Confirming {
    /// Ends with the answer whether the process runs: it is gone where it does not.
    pub fn resume(self, running: bool) -> (r: Kill)
        ensures
            r@ == KillStage::Over(!running),
    {
        Kill::Over(!running)
    }
}

// ── broken agents ────────────────────────────────────────────────────────────

/// An agent whose program is gone. Its file is not protected.
pub struct BrokenAgent {
    plist: String,
    name: String,
}

/// The view of a [`BrokenAgent`].
pub struct BrokenView {
    pub plist: Seq<char>,
    pub name: Seq<char>,
}

impl View for BrokenAgent {
    type V = BrokenView;

    closed spec fn view(&self) -> BrokenView {
        BrokenView { plist: self.plist@, name: self.name@ }
    }
}

/// The label of an agent that is looked at: not the system's own, and not whitelisted.
pub open spec fn looked_at(plist: Seq<char>, w: Whitelist) -> Option<Seq<char>> {
    match agents::label_at(plist) {
        Some(label) => if may_be_ended(label, w) {
            Some(label)
        } else {
            None
        },
        None => None,
    }
}

/// The label of the agent that a file defines, where it is looked at.
pub fn agent_to_look_at(plist: &str, whitelist: &Whitelist) -> (r: Option<String>)
    ensures
        text::opt_view(r) == looked_at(plist@, *whitelist),
{
    match agents::agent_label(plist) {
        Some(label) => {
            if text::starts_with(label.as_str(), "com.apple.") || is_whitelisted(
                label.as_str(),
                whitelist,
            ) {
                None
            } else {
                Some(label)
            }
        },
        None => None,
    }
}

/// The broken agent that a file defines.
pub open spec fn broken_at(plist: Seq<char>, w: Whitelist, binary: BinaryView, present: bool) -> Option<
    BrokenView,
> {
    match looked_at(plist, w) {
        Some(name) => if binary is Known && !present && !guard::protected(plist) {
            Some(BrokenView { plist, name })
        } else {
            None
        },
        None => None,
    }
}

/// The broken agent that a file defines: one that is looked at, whose program is known
/// and gone, and whose file is not protected. It is unloaded, its process ended where it
/// runs, and its file deleted.
pub fn kill_broken_agents(plist: &str, whitelist: &Whitelist, binary: &Binary, present: bool) -> (r:
    Option<BrokenAgent>)
    ensures
        text::opt_view(r) == broken_at(plist@, *whitelist, binary@, present),
{
    match agent_to_look_at(plist, whitelist) {
        Some(name) => {
            let known: bool = match binary {
                Binary::Known(_) => true,
                _ => false,
            };
            if known && !present && !guard::is_protected(plist) {
                Some(BrokenAgent { plist: text::owned(plist), name })
            } else {
                None
            }
        },
        None => None,
    }
}

/// A broken agent that was unloaded and whose process still runs.
pub struct RunningAgent {
    plist: String,
    name: String,
}

/// A broken agent that was dealt with but for its file, and whether its process was ended.
pub struct EndedAgent {
    plist: String,
    killed: bool,
}

/// What a broken agent takes next.
pub enum AgentEnd {
    /// End its process by force.
    Kill(RunningAgent),
    /// Delete its file.
    Delete(EndedAgent),
}

/// The view of an [`AgentEnd`].
pub enum AgentEndView {
    Kill(BrokenView),
    Delete(Seq<char>, bool),
}

impl View for RunningAgent {
    type V = BrokenView;

    closed spec fn view(&self) -> BrokenView {
        BrokenView { plist: self.plist@, name: self.name@ }
    }
}

impl View for EndedAgent {
    type V = (Seq<char>, bool);

    closed spec fn view(&self) -> (Seq<char>, bool) {
        (self.plist@, self.killed)
    }
}

impl View for AgentEnd {
    type V = AgentEndView;

    open spec fn view(&self) -> AgentEndView {
        match self {
            AgentEnd::Kill(s) => AgentEndView::Kill(s@),
            AgentEnd::Delete(s) => AgentEndView::Delete(s@.0, s@.1),
        }
    }
}

/// What follows once an agent was unloaded and it is known whether its process runs and
/// what the processes with its name hold open. One that holds data of the user is not
/// ended.
pub open spec fn unloaded(a: BrokenView, running: bool, found: Seq<Finding>) -> AgentEndView {
    if running && !locks::any_risks_data(found) {
        AgentEndView::Kill(a)
    } else {
        AgentEndView::Delete(a.plist, false)
    }
}

impl BrokenAgent {
    #[verifier::type_invariant]
    spec fn inv(&self) -> bool {
        !guard::protected(self.plist@)
    }

    /// The name of its process.
    pub fn name(&self) -> (r: &str)
        ensures
            r@ == self@.name,
    {
        self.name.as_str()
    }

    /// Unloads the agent. Then it is looked whether its process runs.
    pub fn unload(&self) -> (r: CommandLine)
        ensures
            r@ == ("launchctl"@, seq!["unload"@, self@.plist]),
    {
        let r = command("launchctl", &["unload", self.plist.as_str()]);
        assert(r@.1 =~= seq!["unload"@, self@.plist]);
        r
    }

    /// Goes on with the answer whether its process runs, and what was found out about each
    /// process with its name.
    pub fn resume(self, running: bool, found: &Vec<Finding>) -> (r: AgentEnd)
        ensures
            r@ == unloaded(self@, running, found@),
    {
        proof {
            use_type_invariant(&self);
        }
        if running && !locks::some_risk_data(found) {
            AgentEnd::Kill(RunningAgent { plist: self.plist, name: self.name })
        } else {
            AgentEnd::Delete(EndedAgent { plist: self.plist, killed: false })
        }
    }
}

impl RunningAgent {
    #[verifier::type_invariant]
    spec fn inv(&self) -> bool {
        !guard::protected(self.plist@)
    }

    /// The name of its process.
    pub fn name(&self) -> (r: &str)
        ensures
            r@ == self@.name,
    {
        self.name.as_str()
    }

    /// Ends its process by force. Then it is looked again.
    pub fn kill(&self) -> (r: CommandLine)
        ensures
            r@ == ("pkill"@, seq!["-9"@, "-x"@, self@.name]),
    {
        let r = command("pkill", &["-9", "-x", self.name.as_str()]);
        assert(r@.1 =~= seq!["-9"@, "-x"@, self@.name]);
        r
    }

    /// Goes on with the answer whether its process runs.
    pub fn resume(self, running: bool) -> (r: EndedAgent)
        ensures
            r@ == (self@.plist, !running),
    {
        proof {
            use_type_invariant(&self);
        }
        EndedAgent { plist: self.plist, killed: !running }
    }
}

impl EndedAgent {
    #[verifier::type_invariant]
    spec fn inv(&self) -> bool {
        !guard::protected(self.plist@)
    }

    /// Its file, which is deleted. It is not protected.
    pub fn file(&self) -> (r: &str)
        ensures
            r@ == self@.0,
            !guard::protected(r@),
    {
        proof {
            use_type_invariant(self);
        }
        self.plist.as_str()
    }

    /// Whether its process was ended: it ran, and it no longer does.
    pub fn killed(&self) -> (r: bool)
        ensures
            r == self@.1,
    {
        self.killed
    }
}

// ── how many were ended ──────────────────────────────────────────────────────

/// How many are true.
pub open spec fn count_true(list: Seq<bool>) -> nat
    decreases list.len(),
{
    if list.len() == 0 {
        0
    } else {
        count_true(list.drop_last()) + if list.last() {
            1nat
        } else {
            0
        }
    }
}

fn count(list: &Vec<bool>) -> (r: usize)
    ensures
        r == count_true(list@),
        r <= list@.len(),
{
    let mut n: usize = 0;
    let mut i: usize = 0;
    while i < list.len()
        invariant
            i <= list@.len(),
            n == count_true(list@.take(i as int)),
            n <= i,
        decreases list.len() - i,
    {
        assert(list@.take(i + 1).drop_last() =~= list@.take(i as int));
        if list[i] {
            n = n + 1;
        }
        i = i + 1;
    }
    assert(list@.take(i as int) =~= list@);
    n
}

/// How many processes were ended, given for each unwanted process that ran whether it is
/// gone, and for each broken agent whether its process was ended.
pub fn count_ended(processes: &Vec<bool>, agents: &Vec<bool>) -> (r: u32)
    requires
        processes@.len() + agents@.len() <= u32::MAX,
    ensures
        r == count_true(processes@) + count_true(agents@),
{
    let a: usize = count(processes);
    let b: usize = count(agents);
    a as u32 + b as u32
}

// ── what ending guarantees ───────────────────────────────────────────────────

/// A whitelisted process is never a target, nor one of the system's own, not even
/// where it is asked for by its name.
pub proof fn whitelisted_processes_live(cfg: Config, name: Option<Seq<char>>, k: int)
    requires
        0 <= k < targets_of(cfg, name).len(),
    ensures
        may_be_ended(targets_of(cfg, name)[k], cfg.whitelist),
{
    match name {
        Some(n) => {
            lemma_endable(seq![n], cfg.whitelist, k);
        },
        None => {
            lemma_endable(text::views(cfg.rogue_list.process_names@), cfg.whitelist, k);
        },
    }
}

proof fn lemma_endable(names: Seq<Seq<char>>, w: Whitelist, k: int)
    requires
        0 <= k < endable(names, w).len(),
    ensures
        may_be_ended(endable(names, w)[k], w),
    decreases names.len(),
{
    if names.len() > 0 {
        let before = endable(names.drop_last(), w);
        if k < before.len() {
            lemma_endable(names.drop_last(), w, k);
        }
    }
}

/// The file of a broken agent is deleted whatever becomes of its process, which counts
/// as ended exactly where it ran, nothing was in the way of ending it, and it was then
/// found not to run.
pub proof fn broken_agents_lose_their_files(
    a: BrokenView,
    ran: bool,
    found: Seq<Finding>,
    runs: bool,
)
    ensures
        ({
            let left = match unloaded(a, ran, found) {
                AgentEndView::Kill(k) => (k.plist, !runs),
                AgentEndView::Delete(plist, killed) => (plist, killed),
            };
            left == (a.plist, ran && !locks::any_risks_data(found) && !runs)
        }),
{
}

/// Where ending a process stands after all its steps, given what was found out about the
/// processes with its name, and each time it was looked whether the process runs.
pub open spec fn ended(
    k: KillView,
    found: Seq<Finding>,
    after_ask: bool,
    after_force: bool,
    at_last: bool,
) -> KillStage {
    let first = match guarded(k, found) {
        KillStage::Ask(k0) => asked(k0, after_ask),
        other => other,
    };
    match first {
        KillStage::Force(k1) => {
            let check = match forced(k1) {
                KillStage::Evict(k2) => KillStage::Check(k2),
                other => other,
            };
            let confirm = match check {
                KillStage::Check(k3) => match checked(k3, after_force) {
                    KillStage::Insist(k4) => KillStage::Confirm(k4),
                    other => other,
                },
                other => other,
            };
            match confirm {
                KillStage::Confirm(_) => KillStage::Over(!at_last),
                other => other,
            }
        },
        other => other,
    }
}

/// A process counts as ended exactly where nothing is in the way of ending it and it was
/// last found not to run: after it was asked, or else at the very end.
pub proof fn killed_means_gone(
    k: KillView,
    found: Seq<Finding>,
    after_ask: bool,
    after_force: bool,
    at_last: bool,
)
    ensures
        ended(k, found, after_ask, after_force, at_last) == KillStage::Over(
            !locks::any_risks_data(found) && (!after_ask || !at_last),
        ),
{
}

/// A process that belongs to an intact bundle and has files of the user open is not ended:
/// the matter is over before anything is done, and the process of a broken agent is not
/// ended either.
pub proof fn locked_processes_live(
    k: KillView,
    a: BrokenView,
    running: bool,
    found: Seq<Finding>,
    i: int,
)
    requires
        0 <= i < found.len(),
        found[i].signed,
        found[i].user_files,
    ensures
        guarded(k, found) == KillStage::Over(false),
        unloaded(a, running, found) == AgentEndView::Delete(a.plist, false),
{
    assert(locks::risks_data(found[i]));
}

/// A name may be ended, told by the lists alone: it is not on the whitelist as it is, no
/// entry of the whitelist equals it in lower case, and it does not begin with `com.apple.`.
pub proof fn what_may_be_ended(name: Seq<char>, w: Whitelist)
    ensures
        may_be_ended(name, w) <==> {
            &&& !(exists|i: int| 0 <= i < w.apps@.len() && (#[trigger] w.apps@[i])@ == name)
            &&& !(exists|i: int|
                0 <= i < w.apps@.len() && lowercase((#[trigger] w.apps@[i])@) == lowercase(name))
            &&& !(name.len() >= 10 && name.take(10) == "com.apple."@)
        },
{
    let all = text::views(w.apps@);
    reveal_strlit("com.apple.");
    assert("com.apple."@.len() == 10);
    if name.len() >= 10 {
        assert(name.subrange(0, 10) =~= name.take(10));
    }
    if all.contains(name) {
        let i = choose|i: int| 0 <= i < all.len() && all[i] == name;
        assert(w.apps@[i]@ == name);
    }
    if exists|i: int| 0 <= i < w.apps@.len() && (#[trigger] w.apps@[i])@ == name {
        let i = choose|i: int| 0 <= i < w.apps@.len() && (#[trigger] w.apps@[i])@ == name;
        assert(all[i] == name);
    }
    if exists|i: int| 0 <= i < all.len() && lowercase(#[trigger] all[i]) == lowercase(name) {
        let i = choose|i: int| 0 <= i < all.len() && lowercase(#[trigger] all[i]) == lowercase(name);
        assert(lowercase(w.apps@[i]@) == lowercase(name));
    }
    if exists|i: int|
        0 <= i < w.apps@.len() && lowercase((#[trigger] w.apps@[i])@) == lowercase(name) {
        let i = choose|i: int|
            0 <= i < w.apps@.len() && lowercase((#[trigger] w.apps@[i])@) == lowercase(name);
        assert(lowercase(all[i]) == lowercase(name));
    }
}

/// Every name that may be ended is a target: with the process killer switched on, the
/// targets are those names that were asked for, or else are unwanted, and that are neither
/// whitelisted in any case nor begin with `com.apple.`. Nothing else is, and with the
/// process killer switched off nothing at all.
pub proof fn every_rogue_is_a_target(cfg: Config, asked_for: Option<Seq<char>>, name: Seq<char>)
    ensures
        ({
            let apps = text::views(cfg.whitelist.apps@);
            let listed = apps.contains(name) || exists|i: int|
                0 <= i < apps.len() && lowercase(#[trigger] apps[i]) == lowercase(name);
            let wanted = match asked_for {
                Some(n) => name == n,
                None => text::views(cfg.rogue_list.process_names@).contains(name),
            };
            targets_of(cfg, asked_for).contains(name) <==> cfg.process_killer.enabled && wanted
                && !listed && !"com.apple."@.is_prefix_of(name)
        }),
{
    match asked_for {
        Some(n) => {
            lemma_endable_holds(seq![n], cfg.whitelist, name);
            assert(seq![n].contains(name) <==> name == n) by {
                assert(seq![n][0] == n);
            }
        },
        None => {
            lemma_endable_holds(
                text::views(cfg.rogue_list.process_names@),
                cfg.whitelist,
                name,
            );
        },
    }
}

proof fn lemma_endable_holds(names: Seq<Seq<char>>, w: Whitelist, name: Seq<char>)
    ensures
        endable(names, w).contains(name) <==> names.contains(name) && may_be_ended(name, w),
    decreases names.len(),
{
    if names.len() > 0 {
        let rest = names.drop_last();
        let before = endable(rest, w);
        let all = endable(names, w);
        lemma_endable_holds(rest, w, name);
        assert(names[names.len() - 1] == names.last());
        if all.contains(name) {
            let k = choose|k: int| 0 <= k < all.len() && all[k] == name;
            if k < before.len() {
                assert(before[k] == name);
                let i = choose|i: int| 0 <= i < rest.len() && rest[i] == name;
                assert(names[i] == name);
            }
        }
        if names.contains(name) && may_be_ended(name, w) {
            let i = choose|i: int| 0 <= i < names.len() && names[i] == name;
            if i < rest.len() {
                assert(rest[i] == name);
                let k = choose|k: int| 0 <= k < before.len() && before[k] == name;
                assert(all[k] == name);
            } else {
                assert(all[all.len() - 1] == name);
            }
        }
    }
}

/// Where no unwanted process is spared, the targets are the unwanted processes as they are
/// listed, in that order; and the targets of a longer list begin with those of a shorter
/// one.
pub proof fn targets_keep_their_order(names: Seq<Seq<char>>, more: Seq<Seq<char>>, w: Whitelist)
    ensures
        (forall|i: int| 0 <= i < names.len() ==> may_be_ended(#[trigger] names[i], w)) ==> endable(
            names,
            w,
        ) == names,
        endable(names + more, w) == endable(names, w) + endable(more, w),
    decreases more.len(),
{
    lemma_all_endable(names, w);
    if more.len() == 0 {
        assert(names + more =~= names);
        assert(endable(names, w) + endable(more, w) =~= endable(names, w));
    } else {
        let rest = more.drop_last();
        targets_keep_their_order(names, rest, w);
        assert((names + more).drop_last() =~= names + rest);
        assert(endable(names + more, w) =~= endable(names, w) + endable(more, w));
    }
}

proof fn lemma_all_endable(names: Seq<Seq<char>>, w: Whitelist)
    ensures
        (forall|i: int| 0 <= i < names.len() ==> may_be_ended(#[trigger] names[i], w)) ==> endable(
            names,
            w,
        ) == names,
    decreases names.len(),
{
    if names.len() > 0 {
        let rest = names.drop_last();
        lemma_all_endable(rest, w);
        if forall|i: int| 0 <= i < names.len() ==> may_be_ended(#[trigger] names[i], w) {
            assert forall|i: int| 0 <= i < rest.len() implies may_be_ended(
                #[trigger] rest[i],
                w,
            ) by {
                assert(may_be_ended(names[i], w));
            }
            assert(may_be_ended(names[names.len() - 1], w));
            assert(endable(names, w) =~= names);
        }
    } else {
        assert(endable(names, w) =~= names);
    }
}

/// A process with no finding against it is asked to end, and the steps that follow are
/// the known ones: a polite signal by its exact name, then one by force, then the eviction
/// of the process whose number the tool names in its first line.
pub proof fn ending_goes_step_by_step(k: KillView, found: Seq<Finding>, reply: Seq<char>)
    requires
        forall|i: int|
            0 <= i < found.len() ==> !((#[trigger] found[i]).signed && found[i].user_files),
    ensures
        guarded(k, found) == KillStage::Ask(k),
        ask_plan(k).first() == ActionView::Run("pkill"@, seq!["-x"@, k.name]),
        force_plan(k).first() == ActionView::Run("pkill"@, seq!["-9"@, "-x"@, k.name]),
        asked(k, true) == KillStage::Force(k),
        asked(k, false) == KillStage::Over(true),
        k.bootout ==> forced(k) == KillStage::Evict(k),
        !k.bootout ==> forced(k) == KillStage::Check(k),
        forall|pid: nat|
            text::lines(reply).len() > 0 && #[trigger] text::number_of(
                text::trim(text::lines(reply)[0]),
                u32::MAX as nat,
            ) == Some(pid) ==> evict_plan(k, Some(reply)) == seq![
                ActionView::Run(
                    "launchctl"@,
                    seq![
                        "bootout"@,
                        "gui/"@ + text::decimal(k.uid as nat) + "/"@ + text::decimal(pid),
                    ],
                ),
            ],
{
    assert forall|i: int| 0 <= i < found.len() implies !locks::risks_data(#[trigger] found[i]) by {}
}

/// A broken agent is dealt with exactly where its file is a property list of a name that
/// may be ended, its program is known and gone, and the file is not protected.
pub proof fn every_broken_agent_is_dealt_with(
    plist: Seq<char>,
    w: Whitelist,
    binary: BinaryView,
    present: bool,
)
    ensures
        broken_at(plist, w, binary, present) is Some <==> (paths::base_name(plist) matches Some(name)
            && paths::ext_of(name) == Some("plist"@) && may_be_ended(paths::stem_of(name), w))
            && binary is Known && !present && !guard::protected(plist),
        broken_at(plist, w, binary, present) matches Some(b) ==> b.plist == plist && b.name
            == paths::stem_of(paths::base_name(plist)->0),
{
}

/// How long each stage waits: as long as is configured after asking and after forcing, and
/// a second after the superuser insisted.
pub proof fn stages_wait_as_configured(k: KillView)
    ensures
        ask_plan(k) == seq![
            ActionView::Run("pkill"@, seq!["-x"@, k.name]),
            ActionView::Wait(k.graceful),
        ],
        force_plan(k) == seq![
            ActionView::Run("pkill"@, seq!["-9"@, "-x"@, k.name]),
            ActionView::Wait(k.force),
        ],
        insist_plan(k) == seq![
            ActionView::Run("pkill"@, seq!["-9"@, "-x"@, k.name]),
            ActionView::Wait(1),
        ],
{
}

/// Only the superuser insists, and only where the process still runs; in any other case
/// the outcome is confirmed.
pub proof fn only_the_superuser_insists(k: KillView)
    ensures
        k.is_root ==> checked(k, true) == KillStage::Insist(k),
        !k.is_root ==> checked(k, true) == KillStage::Confirm(k),
        checked(k, false) == KillStage::Confirm(k),
{
}

/// The process to evict is the one that the first line of the reply names. Without a reply
/// or a number there nothing is evicted.
pub proof fn the_first_line_names_the_process(k: KillView, line: Seq<char>, rest: Seq<char>)
    requires
        !line.contains('\n'),
        line.len() == 0 || line.last() != '\r',
    ensures
        pid_in(line + seq!['\n'] + rest) == text::number_of(text::trim(line), u32::MAX as nat),
        line.len() > 0 ==> pid_in(line) == text::number_of(text::trim(line), u32::MAX as nat),
        pid_in(Seq::empty()) is None,
        evict_plan(k, None).len() == 0,
        text::number_of(text::trim(line), u32::MAX as nat) is None ==> evict_plan(
            k,
            Some(line + seq!['\n'] + rest),
        ).len() == 0,
{
    text::lines_end_at_line_feeds(line, rest);
}

/// A process that was ended counts one, one that was not counts none.
pub proof fn ended_processes_are_counted(list: Seq<bool>, more: bool)
    ensures
        count_true(Seq::empty()) == 0,
        count_true(list.push(more)) == count_true(list) + (if more {
            1int
        } else {
            0
        }),
{
    assert(list.push(more).drop_last() =~= list);
}

/// The report on a process names it, says whether it was ended, and where it was not, how
/// to end it.
pub proof fn reports_name_the_process(name: Seq<char>)
    ensures
        crush_line(name, true) == "  ✓  crushed: "@ + name,
        text::has(crush_line(name, false), "could not kill: "@ + name + " — try: "@),
        text::has(crush_line(name, false), "sudo kill -9 $(pgrep -x \""@ + name + "\")"@),
{
    reveal_strlit("  ✗  could not kill: ");
    reveal_strlit("could not kill: ");
    reveal_strlit("  ✗  ");
    reveal_strlit(" — try: sudo kill -9 $(pgrep -x \"");
    reveal_strlit(" — try: ");
    reveal_strlit("sudo kill -9 $(pgrep -x \"");
    let s = crush_line(name, false);
    let a = "  ✗  "@;
    let b = "could not kill: "@;
    let c = " — try: "@;
    let d = "sudo kill -9 $(pgrep -x \""@;
    let e = "\")"@;
    assert("  ✗  could not kill: "@ =~= a + b);
    assert(" — try: sudo kill -9 $(pgrep -x \""@ =~= c + d);
    lemma_line_parts(a, b + name + c, d + name + e, s);
}

proof fn lemma_line_parts(a: Seq<char>, x: Seq<char>, y: Seq<char>, whole: Seq<char>)
    requires
        whole =~= a + x + y,
    ensures
        text::has(whole, x),
        text::has(whole, y),
{
    let none = Seq::<char>::empty();
    text::parts_are_found(whole, a, x, y);
    assert(whole =~= (a + x) + y + none);
    text::parts_are_found(whole, a + x, y, none);
}

/// A broken agent is ended before its file goes where it runs and nothing is at risk, and
/// else its file goes at once.
pub proof fn running_agents_are_ended_first(a: BrokenView, found: Seq<Finding>)
    requires
        forall|i: int|
            0 <= i < found.len() ==> !((#[trigger] found[i]).signed && found[i].user_files),
    ensures
        unloaded(a, true, found) == AgentEndView::Kill(a),
        unloaded(a, false, found) == AgentEndView::Delete(a.plist, false),
{
    if locks::any_risks_data(found) {
        let i = choose|i: int|
            0 <= i < found.len() && locks::risks_data(#[trigger] found[i]);
        assert(found[i].signed && found[i].user_files);
    }
}

} // verus!
