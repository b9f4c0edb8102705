//! Background agents are switched off, and apps quit with their last window.

use vstd::prelude::*;
use crate::config::{Config, Silence, Whitelist};
use crate::plan::{Action, ActionView};
use crate::{agents, config, plan, text};

verus! {

broadcast use crate::text::group_views;

// ── background agents ────────────────────────────────────────────────────────

/// One of these texts stands in `s`.
pub open spec fn has_one(s: Seq<char>, parts: Seq<Seq<char>>) -> bool {
    exists|i: int| 0 <= i < parts.len() && text::has(s, #[trigger] parts[i])
}

/// The agent with this label is switched off: it is not the system's own, no
/// whitelisted bundle stands in the label, and no override allows it.
pub open spec fn is_blocked_agent(label: Seq<char>, w: Whitelist, s: Silence) -> bool {
    !"com.apple."@.is_prefix_of(label) && !has_one(label, text::views(w.bundle_ids@))
        && !config::background_allowed(label, s.per_app_overrides@)
}

/// The commands for the first `n` files.
pub open spec fn disabled(files: Seq<Seq<char>>, cfg: Config, uid: nat, n: int) -> Seq<ActionView>
    decreases n,
{
    if n <= 0 {
        Seq::empty()
    } else {
        let before = disabled(files, cfg, uid, n - 1);
        match agents::label_at(files[n - 1]) {
            Some(label) => if is_blocked_agent(label, cfg.whitelist, cfg.silence) {
                before.push(
                    ActionView::Run(
                        "launchctl"@,
                        seq!["disable"@, "gui/"@ + text::decimal(uid) + "/"@ + label],
                    ),
                )
            } else {
                before
            },
            None => before,
        }
    }
}

fn contains_one(s: &str, parts: &Vec<String>) -> (r: bool)
    ensures
        r == has_one(s@, text::views(parts@)),
{
    let ghost all = text::views(parts@);
    let mut i: usize = 0;
    while i < parts.len()
        invariant
            i <= parts@.len(),
            all == text::views(parts@),
            forall|j: int| 0 <= j < i ==> !text::has(s@, #[trigger] all[j]),
        decreases parts.len() - i,
    {
        assert(all[i as int] == parts@[i as int]@);
        if text::contains(s, parts[i].as_str()) {
            assert(text::has(s@, all[i as int]));
            return true;
        }
        i = i + 1;
    }
    false
}

/// Switches off the background agents that are not needed, given the files in the
/// directory of launch agents. What runs goes on running.
pub fn block_agents(cfg: &Config, files: &Vec<String>, uid: u32) -> (r: Vec<Action>)
    ensures
        text::views(r@) == (if cfg.silence.block_background_agents {
            disabled(text::views(files@), *cfg, uid as nat, files@.len() as int)
        } else {
            Seq::empty()
        }),
{
    let mut r: Vec<Action> = Vec::new();
    if !cfg.silence.block_background_agents {
        return r;
    }
    let ghost all = text::views(files@);
    let mut i: usize = 0;
    while i < files.len()
        invariant
            i <= files@.len(),
            all == text::views(files@),
            text::views(r@) == disabled(all, *cfg, uid as nat, i as int),
        decreases files.len() - i,
    {
        assert(all[i as int] == files@[i as int]@);
        match agents::agent_label(files[i].as_str()) {
            Some(label) => {
                let l: &str = label.as_str();
                if !text::starts_with(l, "com.apple.") && !contains_one(
                    l,
                    &cfg.whitelist.bundle_ids,
                ) && !cfg.silence.per_app_overrides.allow_background(l) {
                    let mut service = text::join3(
                        "gui/",
                        text::decimal_of(uid as u64).as_str(),
                        "/",
                    );
                    service.append(l);
                    r.push(plan::run2("launchctl", "disable", service.as_str()));
                }
            },
            None => {},
        }
        i = i + 1;
    }
    r
}

// ── quitting with the last window ────────────────────────────────────────────

/// Windows are not kept when this app quits.
pub open spec fn quits(domain: Seq<char>) -> ActionView {
    plan::setting(domain, "NSQuitAlwaysKeepsWindows"@, "-bool"@, "false"@)
}

/// The settings for the first `n` apps: none for whitelisted ones, the system's own, and
/// those without a bundle identifier.
pub open spec fn quitting(bids: Seq<Option<Seq<char>>>, w: Whitelist, n: int) -> Seq<ActionView>
    decreases n,
{
    if n <= 0 {
        Seq::empty()
    } else {
        let before = quitting(bids, w, n - 1);
        match bids[n - 1] {
            Some(b) => if text::views(w.bundle_ids@).contains(b) || "com.apple."@.is_prefix_of(b) {
                before
            } else {
                before.push(quits(b))
            },
            None => before,
        }
    }
}

/// The bundle identifiers of apps, by their views.
pub open spec fn bundle_views(bids: Seq<Option<String>>) -> Seq<Option<Seq<char>>> {
    bids.map_values(|b: Option<String>| text::opt_view(b))
}

/// Apps quit with their last window, for all and for each app.
pub open spec fn quit_plan(bids: Seq<Option<Seq<char>>>, cfg: Config) -> Seq<ActionView> {
    if !cfg.silence.force_quit_on_window_close {
        Seq::empty()
    } else {
        let reopen = if cfg.optimizer.disable_reopen_windows {
            seq![
                plan::setting(
                    "com.apple.loginwindow"@,
                    "TALLogoutSavesState"@,
                    "-bool"@,
                    "false"@,
                ),
            ]
        } else {
            Seq::empty()
        };
        seq![quits("NSGlobalDomain"@)] + reopen + quitting(
            bids,
            cfg.whitelist,
            bids.len() as int,
        ) + seq![
            plan::setting("com.apple.dock"@, "static-only"@, "-bool"@, "false"@),
            plan::setting("com.apple.dock"@, "show-recents"@, "-bool"@, "false"@),
            ActionView::Run("killall"@, seq!["Dock"@]),
        ]
    }
}

/// Apps quit with their last window, given the bundle identifiers of the installed apps.
pub fn force_quit_on_close(cfg: &Config, bids: &Vec<Option<String>>) -> (r: Vec<Action>)
    ensures
        text::views(r@) == quit_plan(bundle_views(bids@), *cfg),
{
    let mut r: Vec<Action> = Vec::new();
    if !cfg.silence.force_quit_on_window_close {
        return r;
    }
    r.push(plan::defaults_write("NSGlobalDomain", "NSQuitAlwaysKeepsWindows", "-bool", "false"));
    if cfg.optimizer.disable_reopen_windows {
        r.push(
            plan::defaults_write("com.apple.loginwindow", "TALLogoutSavesState", "-bool", "false"),
        );
    }
    let ghost first = text::views(r@);
    let ghost all = bundle_views(bids@);
    let mut i: usize = 0;
    assert(first + quitting(all, cfg.whitelist, 0) =~= first);
    while i < bids.len()
        invariant
            i <= bids@.len(),
            all == bundle_views(bids@),
            text::views(r@) == first + quitting(all, cfg.whitelist, i as int),
        decreases bids.len() - i,
    {
        assert(all[i as int] == text::opt_view(bids@[i as int]));
        match &bids[i] {
            Some(b) => {
                if !cfg.whitelist.contains_bundle(b.as_str()) && !text::starts_with(
                    b.as_str(),
                    "com.apple.",
                ) {
                    r.push(
                        plan::defaults_write(
                            b.as_str(),
                            "NSQuitAlwaysKeepsWindows",
                            "-bool",
                            "false",
                        ),
                    );
                    assert(text::views(r@) =~= first + quitting(all, cfg.whitelist, i + 1));
                }
            },
            None => {},
        }
        i = i + 1;
    }
    r.push(plan::defaults_write("com.apple.dock", "static-only", "-bool", "false"));
    r.push(plan::defaults_write("com.apple.dock", "show-recents", "-bool", "false"));
    r.push(plan::run1("killall", "Dock"));
    assert(text::views(r@) =~= quit_plan(all, *cfg));
    r
}

/// The system's own agents are never switched off, nor one with a whitelisted bundle in
/// its label.
pub proof fn system_agents_stay(label: Seq<char>, w: Whitelist, s: Silence)
    requires
        "com.apple."@.is_prefix_of(label) || has_one(label, text::views(w.bundle_ids@)),
    ensures
        !is_blocked_agent(label, w, s),
{
}

/// Exactly those agents are switched off whose file is a property list, whose label does
/// not begin with `com.apple.`, holds no whitelisted bundle, and is not allowed to run in
/// the background by an override for a part of it.
pub proof fn which_agents_are_switched_off(
    files: Seq<Seq<char>>,
    cfg: Config,
    uid: nat,
    n: int,
    a: ActionView,
)
    requires
        0 <= n <= files.len(),
    ensures
        disabled(files, cfg, uid, n).contains(a) <==> exists|i: int|
            0 <= i < n && (agents::label_at(#[trigger] files[i]) matches Some(label)
                && !"com.apple."@.is_prefix_of(label) && !(exists|j: int|
                0 <= j < cfg.whitelist.bundle_ids@.len() && text::has(
                    label,
                    (#[trigger] cfg.whitelist.bundle_ids@[j])@,
                )) && !(exists|bid: Seq<char>| #[trigger]
                cfg.silence.per_app_overrides@.contains_key(bid)
                    && cfg.silence.per_app_overrides@[bid].allow_background && text::has(
                    label,
                    bid,
                )) && a == ActionView::Run(
                "launchctl"@,
                seq!["disable"@, "gui/"@ + text::decimal(uid) + "/"@ + label],
            )),
    decreases n,
{
    if n > 0 {
        let before = disabled(files, cfg, uid, n - 1);
        let all = disabled(files, cfg, uid, n);
        which_agents_are_switched_off(files, cfg, uid, n - 1, a);
        if let Some(label) = agents::label_at(files[n - 1]) {
            lemma_has_one(label, cfg.whitelist);
        }
        if all.contains(a) {
            let k = choose|k: int| 0 <= k < all.len() && all[k] == a;
            if k < before.len() {
                assert(before[k] == a);
            } else {
                assert(agents::label_at(files[n - 1]) is Some);
            }
        }
        if before.contains(a) {
            let k = choose|k: int| 0 <= k < before.len() && before[k] == a;
            assert(all[k] == a);
        }
        if all.len() > before.len() {
            assert(all[before.len() as int] == all.last());
        }
    }
}

proof fn lemma_has_one(label: Seq<char>, w: Whitelist)
    ensures
        has_one(label, text::views(w.bundle_ids@)) <==> exists|j: int|
            0 <= j < w.bundle_ids@.len() && text::has(label, (#[trigger] w.bundle_ids@[j])@),
{
    let all = text::views(w.bundle_ids@);
    if has_one(label, all) {
        let j = choose|j: int| 0 <= j < all.len() && text::has(label, #[trigger] all[j]);
        assert(text::has(label, w.bundle_ids@[j]@));
    }
    if exists|j: int| 0 <= j < w.bundle_ids@.len() && text::has(label, (#[trigger] w.bundle_ids@[j])@) {
        let j = choose|j: int|
            0 <= j < w.bundle_ids@.len() && text::has(label, (#[trigger] w.bundle_ids@[j])@);
        assert(text::has(label, all[j]));
    }
}

/// Exactly those apps quit with their last window that have a bundle identifier which is
/// neither whitelisted nor begins with `com.apple.`.
pub proof fn which_apps_quit(bids: Seq<Option<Seq<char>>>, w: Whitelist, n: int, a: ActionView)
    requires
        0 <= n <= bids.len(),
    ensures
        quitting(bids, w, n).contains(a) <==> exists|i: int|
            0 <= i < n && (#[trigger] bids[i] matches Some(b) && !text::views(
                w.bundle_ids@,
            ).contains(b) && !"com.apple."@.is_prefix_of(b) && a == ActionView::Run(
                "defaults"@,
                seq!["write"@, b, "NSQuitAlwaysKeepsWindows"@, "-bool"@, "false"@],
            )),
    decreases n,
{
    if n > 0 {
        let before = quitting(bids, w, n - 1);
        let all = quitting(bids, w, n);
        which_apps_quit(bids, w, n - 1, a);
        if all.contains(a) {
            let k = choose|k: int| 0 <= k < all.len() && all[k] == a;
            if k < before.len() {
                assert(before[k] == a);
            } else {
                assert(bids[n - 1] is Some);
            }
        }
        if before.contains(a) {
            let k = choose|k: int| 0 <= k < before.len() && before[k] == a;
            assert(all[k] == a);
        }
        if all.len() > before.len() {
            assert(all[before.len() as int] == all.last());
        }
    }
}

/// Where apps are to quit with their last window, that is set for all apps first, then for
/// each app, and the Dock is started again at the end; else nothing is done.
pub proof fn quitting_is_set_for_all(bids: Seq<Option<Seq<char>>>, cfg: Config, a: ActionView)
    ensures
        !cfg.silence.force_quit_on_window_close ==> quit_plan(bids, cfg).len() == 0,
        cfg.silence.force_quit_on_window_close ==> {
            let plan = quit_plan(bids, cfg);
            &&& plan.len() >= 4
            &&& plan[0] == ActionView::Run(
                "defaults"@,
                seq![
                    "write"@,
                    "NSGlobalDomain"@,
                    "NSQuitAlwaysKeepsWindows"@,
                    "-bool"@,
                    "false"@,
                ],
            )
            &&& plan.last() == ActionView::Run("killall"@, seq!["Dock"@])
            &&& quitting(bids, cfg.whitelist, bids.len() as int).contains(a) ==> plan.contains(a)
        },
{
    if cfg.silence.force_quit_on_window_close {
        let plan = quit_plan(bids, cfg);
        let each = quitting(bids, cfg.whitelist, bids.len() as int);
        if each.contains(a) {
            let k = choose|k: int| 0 <= k < each.len() && each[k] == a;
            let m: int = if cfg.optimizer.disable_reopen_windows {
                2
            } else {
                1
            };
            assert(plan[m + k] == a);
        }
    }
}

/// Agents and apps are dealt with in order: one more adds at most one action, behind the
/// others.
pub proof fn silencing_keeps_the_order(
    files: Seq<Seq<char>>,
    cfg: Config,
    uid: nat,
    bids: Seq<Option<Seq<char>>>,
    n: int,
)
    requires
        0 <= n,
    ensures
        disabled(files, cfg, uid, 0).len() == 0,
        disabled(files, cfg, uid, n).is_prefix_of(disabled(files, cfg, uid, n + 1)),
        disabled(files, cfg, uid, n + 1).len() <= disabled(files, cfg, uid, n).len() + 1,
        quitting(bids, cfg.whitelist, 0).len() == 0,
        quitting(bids, cfg.whitelist, n).is_prefix_of(quitting(bids, cfg.whitelist, n + 1)),
        quitting(bids, cfg.whitelist, n + 1).len() <= quitting(bids, cfg.whitelist, n).len() + 1,
{
    let a = disabled(files, cfg, uid, n);
    let b = disabled(files, cfg, uid, n + 1);
    assert(b.subrange(0, a.len() as int) =~= a);
    let c = quitting(bids, cfg.whitelist, n);
    let d = quitting(bids, cfg.whitelist, n + 1);
    assert(d.subrange(0, c.len() as int) =~= c);
}

/// With its apps quitting, the Dock shows more than running apps, but no recent ones, and
/// where windows are not to come back, the login window saves no state. Nothing else is
/// done but for the apps.
pub proof fn quitting_tunes_dock_and_login(bids: Seq<Option<Seq<char>>>, cfg: Config)
    requires
        cfg.silence.force_quit_on_window_close,
    ensures
        ({
            let plan = quit_plan(bids, cfg);
            let apps = quitting(bids, cfg.whitelist, bids.len() as int);
            &&& cfg.optimizer.disable_reopen_windows ==> plan[1] == ActionView::Run(
                "defaults"@,
                seq![
                    "write"@,
                    "com.apple.loginwindow"@,
                    "TALLogoutSavesState"@,
                    "-bool"@,
                    "false"@,
                ],
            ) && plan.len() == apps.len() + 5
            &&& !cfg.optimizer.disable_reopen_windows ==> plan.len() == apps.len() + 4
            &&& plan[plan.len() - 3] == ActionView::Run(
                "defaults"@,
                seq!["write"@, "com.apple.dock"@, "static-only"@, "-bool"@, "false"@],
            )
            &&& plan[plan.len() - 2] == ActionView::Run(
                "defaults"@,
                seq!["write"@, "com.apple.dock"@, "show-recents"@, "-bool"@, "false"@],
            )
        }),
{
}

} // verus!
