//! Caches of developer tools and build artifacts of projects.

use vstd::prelude::*;
use crate::clock::Stamp;
use crate::config::{Config, DevCacheEntry, ProjectArtifactsCategory, ProjectType};
use crate::{clock, config, guard, lists, paths, size, text};

verus! {

broadcast use crate::text::group_views;

// ── caches of developer tools ────────────────────────────────────────────────

/// A cache to be cleared: what it is called, where it is, and the mark of its risk.
pub struct DevCacheJob {
    pub name: String,
    pub path: String,
    pub mark: &'static str,
}

/// The view of a [`DevCacheJob`].
pub struct DevCacheView {
    pub name: Seq<char>,
    pub path: Seq<char>,
    pub mark: Seq<char>,
}

impl View for DevCacheJob {
    type V = DevCacheView;

    open spec fn view(&self) -> DevCacheView {
        DevCacheView { name: self.name@, path: self.path@, mark: self.mark@ }
    }
}

/// The caches of the first `n` entries that may be cleared: all but the risky ones.
pub open spec fn dev_caches(entries: Seq<DevCacheEntry>, home: Seq<char>, n: int) -> Seq<
    DevCacheView,
>
    decreases n,
{
    if n <= 0 {
        Seq::empty()
    } else {
        let before = dev_caches(entries, home, n - 1);
        let e = entries[n - 1];
        if e.risk@ == "risky"@ {
            before
        } else {
            before.push(
                DevCacheView {
                    name: e.name@,
                    path: config::expanded(e.path@, home),
                    mark: config::risk_mark(e.risk@),
                },
            )
        }
    }
}

/// The caches that may be cleared, in order. Risky ones are never among them.
pub fn sweep_dev_caches(cfg: &Config, home: &str) -> (r: Vec<DevCacheJob>)
    ensures
        text::views(r@) == (if cfg.categories.dev_caches.enabled {
            dev_caches(
                cfg.categories.dev_caches.entries@,
                home@,
                cfg.categories.dev_caches.entries@.len() as int,
            )
        } else {
            Seq::empty()
        }),
{
    let mut r: Vec<DevCacheJob> = Vec::new();
    if !cfg.categories.dev_caches.enabled {
        return r;
    }
    let entries = &cfg.categories.dev_caches.entries;
    let mut i: usize = 0;
    while i < entries.len()
        invariant
            i <= entries@.len(),
            text::views(r@) == dev_caches(entries@, home@, i as int),
        decreases entries.len() - i,
    {
        let e = &entries[i];
        if !e.is_risky() {
            r.push(
                DevCacheJob {
                    name: text::owned(e.name.as_str()),
                    path: Config::expand(e.path.as_str(), home),
                    mark: e.risk_emoji(),
                },
            );
        }
        i = i + 1;
    }
    r
}

/// The line for a risky cache: the mark, the name and where it is.
pub open spec fn risky_row(e: DevCacheEntry, home: Seq<char>) -> Seq<char> {
    "  "@ + config::risk_mark(e.risk@) + " "@ + text::padded_right(e.name@, 42, ' ') + " "@
        + config::expanded(e.path@, home)
}

/// The lines for the risky ones among the first `n` entries.
pub open spec fn risky_rows(entries: Seq<DevCacheEntry>, home: Seq<char>, n: int) -> Seq<Seq<char>>
    decreases n,
{
    if n <= 0 {
        Seq::empty()
    } else {
        let before = risky_rows(entries, home, n - 1);
        let e = entries[n - 1];
        if e.risk@ == "risky"@ {
            before.push(risky_row(e, home))
        } else {
            before
        }
    }
}

/// The report on the risky caches, line by line; nothing where there are none.
pub open spec fn risky_lines(entries: Seq<DevCacheEntry>, home: Seq<char>) -> Seq<Seq<char>> {
    let rows = risky_rows(entries, home, entries.len() as int);
    if rows.len() == 0 {
        Seq::empty()
    } else {
        (seq!["\n  Risky caches (never cleared)"@] + rows).push(""@)
    }
}

/// The report on the risky caches. They are listed and never cleared.
pub fn risky_report(cfg: &Config, home: &str) -> (r: Vec<String>)
    ensures
        text::views(r@) == risky_lines(cfg.categories.dev_caches.entries@, home@),
{
    let entries = &cfg.categories.dev_caches.entries;
    let ghost heading = seq!["\n  Risky caches (never cleared)"@];
    let mut r: Vec<String> = Vec::new();
    r.push(text::owned("\n  Risky caches (never cleared)"));
    assert(text::views(r@) =~= heading + risky_rows(entries@, home@, 0));
    let mut i: usize = 0;
    while i < entries.len()
        invariant
            i <= entries@.len(),
            heading.len() == 1,
            text::views(r@) == heading + risky_rows(entries@, home@, i as int),
        decreases entries.len() - i,
    {
        let e = &entries[i];
        let ghost before = text::views(r@);
        if e.is_risky() {
            let mut line = text::join3("  ", e.risk_emoji(), " ");
            line.append(text::pad_right(e.name.as_str(), 42, ' ').as_str());
            line.append(" ");
            line.append(Config::expand(e.path.as_str(), home).as_str());
            r.push(line);
            assert(text::views(r@) =~= before.push(line@));
        }
        i = i + 1;
        assert(text::views(r@) =~= heading + risky_rows(entries@, home@, i as int));
    }
    assert(text::views(r@).len() == r@.len());
    if r.len() == 1 {
        return Vec::new();
    }
    r.push(text::owned(""));
    r
}

/// Whether a cache is cleared: it is there, holds something, and is not in use.
pub fn is_worth_clearing(exists: bool, bytes: u64, in_use: bool) -> (r: bool)
    ensures
        r == (exists && bytes > 0 && !in_use),
{
    exists && bytes > 0 && !in_use
}

/// The test for paths that may be removed.
pub open spec fn not_blocked() -> spec_fn(Seq<char>) -> bool {
    |p: Seq<char>| !guard::hard_blocked(p)
}

/// The entries of a directory that are removed when its contents are cleared: all
/// that are not blocked.
pub fn clear_dir_contents(entries: &Vec<String>) -> (r: Vec<String>)
    ensures
        text::views(r@) == text::views(entries@).filter(not_blocked()),
{
    let ghost all = text::views(entries@);
    let mut r: Vec<String> = Vec::new();
    let mut i: usize = 0;
    proof {
        reveal(Seq::filter);
        assert(all.take(0) =~= Seq::<Seq<char>>::empty());
    }
    while i < entries.len()
        invariant
            i <= entries@.len(),
            all == text::views(entries@),
            text::views(r@) == all.take(i as int).filter(not_blocked()),
        decreases entries.len() - i,
    {
        proof {
            reveal(Seq::filter);
            assert(all.take(i + 1).drop_last() =~= all.take(i as int));
            assert(all.take(i + 1).last() == entries@[i as int]@);
        }
        if !guard::is_hard_blocked(entries[i].as_str()) {
            r.push(text::owned(entries[i].as_str()));
        }
        i = i + 1;
    }
    assert(all.take(i as int) =~= all);
    r
}

/// The line for a cache that was cleared, or in a dry run would be; none where that
/// frees nothing.
pub open spec fn cleared_line(job: DevCacheView, freed: nat, dry_run: bool) -> Option<Seq<char>> {
    if freed == 0 {
        None
    } else {
        Some(
            "  "@ + job.mark + " "@ + text::padded_right(job.name, 42, ' ') + " "@ + (if dry_run {
                "would free"@
            } else {
                "freed"@
            }) + " "@ + size::byte_words(freed),
        )
    }
}

/// The line for a cache that was cleared.
pub fn show_cleared(job: &DevCacheJob, freed: u64, dry_run: bool) -> (r: Option<String>)
    ensures
        text::opt_view(r) == cleared_line(job@, freed as nat, dry_run),
{
    if freed == 0 {
        return None;
    }
    let verb = if dry_run {
        "would free"
    } else {
        "freed"
    };
    let mut r = text::join3("  ", job.mark, " ");
    r.append(text::pad_right(job.name.as_str(), 42, ' ').as_str());
    r.append(" ");
    r.append(verb);
    r.append(" ");
    r.append(size::fmt_bytes(freed).as_str());
    Some(r)
}

// ── build artifacts ──────────────────────────────────────────────────────────

/// A build artifact.
pub struct Artifact {
    pub project_name: String,
    pub artifact_path: String,
    pub artifact_name: String,
    pub size: u64,
    pub days_old: Option<u64>,
}

/// The view of an [`Artifact`].
pub struct ArtifactView {
    pub project_name: Seq<char>,
    pub artifact_path: Seq<char>,
    pub artifact_name: Seq<char>,
    pub size: u64,
    pub days_old: Option<u64>,
}

impl View for Artifact {
    type V = ArtifactView;

    open spec fn view(&self) -> ArtifactView {
        ArtifactView {
            project_name: self.project_name@,
            artifact_path: self.artifact_path@,
            artifact_name: self.artifact_name@,
            size: self.size,
            days_old: self.days_old,
        }
    }
}

/// Where build artifacts are looked for.
pub open spec fn scan_roots(cat: ProjectArtifactsCategory, home: Seq<char>) -> Seq<Seq<char>> {
    if cat.enabled {
        text::views(cat.scan_roots@).map_values(|p: Seq<char>| config::expanded(p, home))
    } else {
        Seq::empty()
    }
}

/// Where build artifacts are looked for.
pub fn artifact_roots(cat: &ProjectArtifactsCategory, home: &str) -> (r: Vec<String>)
    ensures
        text::views(r@) == scan_roots(*cat, home@),
{
    let mut r: Vec<String> = Vec::new();
    if !cat.enabled {
        return r;
    }
    let ghost want = scan_roots(*cat, home@);
    let roots = &cat.scan_roots;
    let mut i: usize = 0;
    assert(text::views(r@) =~= want.take(0));
    while i < roots.len()
        invariant
            i <= roots@.len(),
            want == text::views(roots@).map_values(|p: Seq<char>| config::expanded(p, home@)),
            text::views(r@) == want.take(i as int),
        decreases roots.len() - i,
    {
        let root = Config::expand(roots[i].as_str(), home);
        assert(want[i as int] == root@);
        r.push(root);
        i = i + 1;
        assert(text::views(r@) =~= want.take(i as int));
    }
    assert(want.take(i as int) =~= want);
    r
}

/// Begins to look for build artifacts where the configuration says.
pub fn sweep_project_artifacts(cfg: &Config, home: &str) -> (r: ArtifactSearch)
    ensures
        r@ == (SearchView {
            todo: first_spots(scan_roots(cfg.categories.project_artifacts, home@)),
            found: Seq::empty(),
        }),
{
    let roots = artifact_roots(&cfg.categories.project_artifacts, home);
    find_artifacts(&roots)
}

/// The smallest artifact that counts.
pub fn min_bytes(cat: &ProjectArtifactsCategory) -> (r: u64)
    requires
        cat.min_size_mb * size::MIB <= u64::MAX,
    ensures
        r == cat.min_size_mb * size::MIB,
{
    cat.min_size_mb * size::MIB
}

/// How deep directories are searched.
pub const MAX_DEPTH: usize = 5;

/// Directories that are never searched.
pub open spec fn skipped_dirs() -> Seq<Seq<char>> {
    seq![
        "node_modules"@,
        ".git"@,
        "target"@,
        ".build"@,
        "build"@,
        "vendor"@,
        ".dart_tool"@,
        "Pods"@,
        "__pycache__"@,
        ".venv"@,
        "venv"@,
        ".terraform"@,
        ".gradle"@,
    ]
}

/// A directory with this name is searched: it is neither hidden nor one of those that
/// tools fill.
pub open spec fn is_searched(name: Seq<char>) -> bool {
    (name.len() > 0 && name[0] == '.' ==> name == ".build"@) && !skipped_dirs().contains(name)
}

fn searched(name: &str) -> (r: bool)
    ensures
        r == is_searched(name@),
{
    if text::starts_with(name, ".") && !text::same(name, ".build") {
        proof {
            reveal_strlit(".");
            assert("."@[0] == '.');
            assert(name@[0] == '.');
        }
        return false;
    }
    proof {
        reveal_strlit(".");
        if name@.len() > 0 && name@[0] == '.' {
            assert("."@ =~= name@.subrange(0, 1));
        }
    }
    let names: Vec<&'static str> = vec![
        "node_modules",
        ".git",
        "target",
        ".build",
        "build",
        "vendor",
        ".dart_tool",
        "Pods",
        "__pycache__",
        ".venv",
        "venv",
        ".terraform",
        ".gradle",
    ];
    assert(text::views(names@) =~= skipped_dirs());
    let mut i: usize = 0;
    while i < names.len()
        invariant
            i <= names@.len(),
            text::views(names@) == skipped_dirs(),
            forall|j: int| 0 <= j < i ==> skipped_dirs()[j] != name@,
        decreases names.len() - i,
    {
        assert(skipped_dirs()[i as int] == names@[i as int]@);
        if text::same(name, names[i]) {
            assert(skipped_dirs().contains(name@));
            return false;
        }
        i = i + 1;
    }
    true
}

/// An entry of a directory.
pub struct SubEntry {
    pub name: String,
    pub path: String,
    pub is_dir: bool,
}

/// An artifact that a directory may hold.
pub struct Candidate {
    pub path: String,
    pub name: String,
}

/// The view of a [`Candidate`].
pub struct CandidateView {
    pub path: Seq<char>,
    pub name: Seq<char>,
}

impl View for Candidate {
    type V = CandidateView;

    open spec fn view(&self) -> CandidateView {
        CandidateView { path: self.path@, name: self.name@ }
    }
}

/// The artifacts that a directory may hold, by the first `n` kinds of project: that of
/// each kind whose marker is there.
pub open spec fn candidates_in(
    dir: Seq<char>,
    names: Seq<Seq<char>>,
    types: Seq<ProjectType>,
    n: int,
) -> Seq<CandidateView>
    decreases n,
{
    if n <= 0 {
        Seq::empty()
    } else {
        let before = candidates_in(dir, names, types, n - 1);
        let t = types[n - 1];
        if names.contains(t.marker@) {
            before.push(
                CandidateView { path: paths::joined(dir, t.artifact@), name: t.artifact@ },
            )
        } else {
            before
        }
    }
}

fn names_of(entries: &Vec<SubEntry>) -> (r: Vec<String>)
    ensures
        text::views(r@) == entry_names(entries@),
{
    let mut r: Vec<String> = Vec::new();
    let mut i: usize = 0;
    assert(text::views(r@) =~= entry_names(entries@).take(0));
    while i < entries.len()
        invariant
            i <= entries@.len(),
            text::views(r@) == entry_names(entries@).take(i as int),
        decreases entries.len() - i,
    {
        r.push(text::owned(entries[i].name.as_str()));
        i = i + 1;
        assert(text::views(r@) =~= entry_names(entries@).take(i as int));
    }
    assert(entry_names(entries@).take(i as int) =~= entry_names(entries@));
    r
}

/// The names of entries.
pub open spec fn entry_names(entries: Seq<SubEntry>) -> Seq<Seq<char>> {
    entries.map_values(|e: SubEntry| e.name@)
}

/// A directory to be searched, and how deep it is.
pub struct Spot {
    pub dir: String,
    pub depth: usize,
}

/// The view of a [`Spot`].
pub struct SpotView {
    pub dir: Seq<char>,
    pub depth: int,
}

impl View for Spot {
    type V = SpotView;

    open spec fn view(&self) -> SpotView {
        SpotView { dir: self.dir@, depth: self.depth as int }
    }
}

/// The directories to be searched at the start.
pub open spec fn first_spots(roots: Seq<Seq<char>>) -> Seq<SpotView> {
    roots.map_values(|r: Seq<char>| SpotView { dir: r, depth: 0 })
}

/// The directories to be searched below one, in order: those of the first `n` entries
/// whose names are searched, unless they would be too deep.
pub open spec fn spots_below(entries: Seq<SubEntry>, depth: int, n: int) -> Seq<SpotView>
    decreases n,
{
    if n <= 0 || depth + 1 >= MAX_DEPTH {
        Seq::empty()
    } else {
        let before = spots_below(entries, depth, n - 1);
        let e = entries[n - 1];
        if is_searched(e.name@) && e.is_dir {
            before.push(SpotView { dir: e.path@, depth: depth + 1 })
        } else {
            before
        }
    }
}

/// A search for build artifacts, depth first.
pub struct ArtifactSearch {
    stack: Vec<Spot>,
    found: Vec<Artifact>,
}

/// Where a search stands: the directories still to be searched, the next one first,
/// and what was found.
#[verifier::ext_equal]
pub struct SearchView {
    pub todo: Seq<SpotView>,
    pub found: Seq<ArtifactView>,
}

impl View for ArtifactSearch {
    type V = SearchView;

    closed spec fn view(&self) -> SearchView {
        SearchView { todo: text::views(self.stack@).reverse(), found: text::views(self.found@) }
    }
}

/// Begins a search for build artifacts below the given directories.
pub fn find_artifacts(roots: &Vec<String>) -> (r: ArtifactSearch)
    ensures
        r@ == (SearchView { todo: first_spots(text::views(roots@)), found: Seq::empty() }),
{
    let ghost want = first_spots(text::views(roots@));
    let mut spots: Vec<Spot> = Vec::new();
    let mut i: usize = 0;
    assert(text::views(spots@) =~= want.take(0));
    while i < roots.len()
        invariant
            i <= roots@.len(),
            want == first_spots(text::views(roots@)),
            text::views(spots@) == want.take(i as int),
        decreases roots.len() - i,
    {
        let spot = Spot { dir: text::owned(roots[i].as_str()), depth: 0 };
        assert(want[i as int] == spot@);
        spots.push(spot);
        i = i + 1;
        assert(text::views(spots@) =~= want.take(i as int));
    }
    assert(want.take(i as int) =~= want);
    let stack = lists::reversed(spots);
    let r = ArtifactSearch { stack, found: Vec::new() };
    assert(r@.todo =~= want);
    assert(r@.found =~= Seq::<ArtifactView>::empty());
    r
}

impl ArtifactSearch {
    /// Takes the next directory to be searched; none when the search is over.
    pub fn next(&mut self) -> (r: Option<Spot>)
        ensures
            final(self)@.found == old(self)@.found,
            match r {
                Some(s) => old(self)@.todo.len() > 0 && s@ == old(self)@.todo[0]
                    && final(self)@.todo == old(self)@.todo.skip(1),
                None => old(self)@.todo.len() == 0 && final(self)@.todo.len() == 0,
            },
    {
        let ghost before = self@.todo;
        let r = self.stack.pop();
        assert(r is Some ==> self@.todo =~= before.skip(1));
        r
    }

    /// The artifacts that a directory may hold. The first that is there ends the search
    /// of that directory; where none is, its subdirectories are searched.
    pub fn candidates(spot: &Spot, entries: &Vec<SubEntry>, types: &Vec<ProjectType>) -> (r: Vec<
        Candidate,
    >)
        ensures
            text::views(r@) == candidates_in(
                spot@.dir,
                entry_names(entries@),
                types@,
                types@.len() as int,
            ),
    {
        let names = names_of(entries);
        let mut r: Vec<Candidate> = Vec::new();
        let mut i: usize = 0;
        while i < types.len()
            invariant
                i <= types@.len(),
                text::views(names@) == entry_names(entries@),
                text::views(r@) == candidates_in(
                    spot@.dir,
                    entry_names(entries@),
                    types@,
                    i as int,
                ),
            decreases types.len() - i,
        {
            let t = &types[i];
            if text::is_any(t.marker.as_str(), &names) {
                r.push(
                    Candidate {
                        path: paths::join(spot.dir.as_str(), t.artifact.as_str()),
                        name: text::owned(t.artifact.as_str()),
                    },
                );
            }
            i = i + 1;
        }
        r
    }

    /// The first of the candidates that is there, given which are.
    pub fn first_there(candidates: Vec<Candidate>, there: &Vec<bool>) -> (r: Option<Candidate>)
        requires
            there@.len() == candidates@.len(),
        ensures
            text::opt_view(r) == first_of(text::views(candidates@), there@),
    {
        let ghost all = text::views(candidates@);
        let mut stack = lists::reversed(candidates);
        let mut i: usize = 0;
        assert(text::views(stack@).reverse() =~= all);
        assert(there@.skip(0) =~= there@);
        while i < there.len()
            invariant
                i <= there@.len(),
                stack@.len() + i == there@.len(),
                all == text::views(candidates@),
                first_of(all, there@) == first_of(
                    text::views(stack@).reverse(),
                    there@.skip(i as int),
                ),
            decreases there.len() - i,
        {
            let ghost rest = text::views(stack@).reverse();
            match stack.pop() {
                Some(c) => {
                    assert(rest[0] == c@);
                    assert(text::views(stack@).reverse() =~= rest.skip(1));
                    assert(there@.skip(i as int).skip(1) =~= there@.skip(i + 1));
                    if there[i] {
                        return Some(c);
                    }
                },
                None => {},
            }
            i = i + 1;
        }
        None
    }

    fn record(
        &mut self,
        spot: &Spot,
        artifact: Candidate,
        bytes: u64,
        modified: Option<Stamp>,
        now: Stamp,
        least: u64,
    )
        ensures
            final(self)@.todo == old(self)@.todo,
            final(self)@.found == (if bytes >= least {
                old(self)@.found.push(
                    artifact_of(spot@.dir, artifact@, bytes, modified, now),
                )
            } else {
                old(self)@.found
            }),
    {
        if bytes >= least {
            let project_name = match paths::file_name(spot.dir.as_str()) {
                Some(n) => n,
                None => String::new(),
            };
            assert(paths::base_name(spot@.dir) is None ==> project_name@ =~= Seq::<char>::empty());
            let days_old: Option<u64> = match modified {
                Some(t) => match now.elapsed_since(t) {
                    Some(secs) => Some(secs / 86400),
                    None => None,
                },
                None => None,
            };
            let a = Artifact {
                project_name,
                artifact_path: artifact.path,
                artifact_name: artifact.name,
                size: bytes,
                days_old,
            };
            self.found.push(a);
        }
    }

    fn descend(&mut self, spot: &Spot, entries: &Vec<SubEntry>)
        ensures
            final(self)@.found == old(self)@.found,
            final(self)@.todo == spots_below(entries@, spot@.depth, entries@.len() as int) + old(
                self,
            )@.todo,
    {
        let ghost want = spots_below(entries@, spot@.depth, entries@.len() as int);
        if spot.depth >= MAX_DEPTH - 1 {
            assert(want + self@.todo =~= self@.todo);
            return ;
        }
        let mut below: Vec<Spot> = Vec::new();
        let mut i: usize = 0;
        while i < entries.len()
            invariant
                i <= entries@.len(),
                spot.depth < MAX_DEPTH - 1,
                text::views(below@) == spots_below(entries@, spot@.depth, i as int),
            decreases entries.len() - i,
        {
            let e = &entries[i];
            if searched(e.name.as_str()) && e.is_dir {
                below.push(Spot { dir: text::owned(e.path.as_str()), depth: spot.depth + 1 });
            }
            i = i + 1;
        }
        let mut reversed = lists::reversed(below);
        self.stack.append(&mut reversed);
        assert(self@.todo =~= want + old(self)@.todo);
    }

    /// Settles a directory, given the artifact that it holds with its size and the time of
    /// its last change. An artifact is noted if it is large enough, and ends the search of
    /// its directory; where there is none, the search goes on below.
    pub fn settle(
        &mut self,
        spot: &Spot,
        entries: &Vec<SubEntry>,
        found: Option<(Candidate, u64, Option<Stamp>)>,
        now: Stamp,
        least: u64,
    )
        ensures
            final(self)@ == settled(
                old(self)@,
                spot@,
                entries@,
                holding_of(found),
                now,
                least,
            ),
    {
        let ghost before = self@;
        match found {
            Some((c, bytes, modified)) => self.record(spot, c, bytes, modified, now, least),
            None => self.descend(spot, entries),
        }
        assert(self@ =~= settled(before, spot@, entries@, holding_of(found), now, least));
    }

    /// What is done about the artifacts that were found, the largest first. A dry run
    /// removes none.
    pub fn finish(self, dry_run: bool) -> (r: Vec<ArtifactStep>)
        ensures
            text::views(r@) == largest_first(self@.found).map_values(artifact_step(dry_run)),
            dry_run ==> forall|i: int| 0 <= i < r@.len() ==> #[trigger] r@[i] is Show,
    {
        let sorted = sort_artifacts(self.found);
        let ghost all = sorted@;
        let ghost want = text::views(all).map_values(artifact_step(dry_run));
        let mut stack = lists::reversed(sorted);
        let mut r: Vec<ArtifactStep> = Vec::new();
        let mut k: Ghost<int> = Ghost(0);
        assert(text::views(r@) =~= want.take(0));
        while stack.len() > 0
            invariant
                0 <= k@,
                k@ + stack@.len() == all.len(),
                stack@ == all.skip(k@).reverse(),
                want == text::views(all).map_values(artifact_step(dry_run)),
                text::views(r@) == want.take(k@),
                dry_run ==> forall|i: int| 0 <= i < r@.len() ==> #[trigger] r@[i] is Show,
            decreases stack.len(),
        {
            match stack.pop() {
                Some(a) => {
                    assert(a == all[k@]);
                    assert(stack@ =~= all.skip(k@ + 1).reverse());
                    let step = if dry_run {
                        ArtifactStep::Show(a)
                    } else {
                        ArtifactStep::Remove(a)
                    };
                    assert(want[k@] == step@);
                    r.push(step);
                    proof {
                        k@ = k@ + 1;
                    }
                    assert(text::views(r@) =~= want.take(k@));
                },
                None => {},
            }
        }
        assert(want.take(k@) =~= want);
        r
    }
}

/// The artifact that a directory holds: what it is, its size and its last change.
pub struct Holding {
    pub artifact: CandidateView,
    pub bytes: u64,
    pub modified: Option<Stamp>,
}

/// The artifact that a directory holds, by its view.
pub open spec fn holding_of(found: Option<(Candidate, u64, Option<Stamp>)>) -> Option<Holding> {
    match found {
        Some(f) => Some(Holding { artifact: f.0@, bytes: f.1, modified: f.2 }),
        None => None,
    }
}

/// Where a search stands once a directory is settled.
pub open spec fn settled(
    search: SearchView,
    spot: SpotView,
    entries: Seq<SubEntry>,
    found: Option<Holding>,
    now: Stamp,
    least: u64,
) -> SearchView {
    match found {
        Some(h) => if h.bytes >= least {
            SearchView {
                found: search.found.push(
                    artifact_of(spot.dir, h.artifact, h.bytes, h.modified, now),
                ),
                ..search
            }
        } else {
            search
        },
        None => SearchView {
            todo: spots_below(entries, spot.depth, entries.len() as int) + search.todo,
            ..search
        },
    }
}

/// What is done about an artifact that was found.
pub enum ArtifactStep {
    /// Show it only.
    Show(Artifact),
    /// Show it and remove it.
    Remove(Artifact),
}

/// The view of an [`ArtifactStep`].
pub enum ArtifactStepView {
    Show(ArtifactView),
    Remove(ArtifactView),
}

impl View for ArtifactStep {
    type V = ArtifactStepView;

    open spec fn view(&self) -> ArtifactStepView {
        match self {
            ArtifactStep::Show(a) => ArtifactStepView::Show(a@),
            ArtifactStep::Remove(a) => ArtifactStepView::Remove(a@),
        }
    }
}

/// What is done about an artifact: in a dry run it is only shown.
pub open spec fn artifact_step(dry_run: bool) -> spec_fn(ArtifactView) -> ArtifactStepView {
    |a: ArtifactView|
        if dry_run {
            ArtifactStepView::Show(a)
        } else {
            ArtifactStepView::Remove(a)
        }
}

/// What a sweep of artifacts frees, given what the removal of each freed. One that is
/// only shown counts with its size.
pub open spec fn artifacts_freed(steps: Seq<ArtifactStepView>, freed: Seq<u64>) -> int
    decreases steps.len(),
{
    if steps.len() == 0 {
        0
    } else {
        artifacts_freed(steps.drop_last(), freed.drop_last()) + (match steps.last() {
            ArtifactStepView::Show(a) => a.size as int,
            ArtifactStepView::Remove(_) => freed.last() as int,
        })
    }
}

/// What a sweep of artifacts frees; none where that is more than can be told.
pub fn artifact_bytes(steps: &Vec<ArtifactStep>, freed: &Vec<u64>) -> (r: Option<u64>)
    requires
        steps@.len() == freed@.len(),
    ensures
        match r {
            Some(total) => total == artifacts_freed(text::views(steps@), freed@),
            None => artifacts_freed(text::views(steps@), freed@) > u64::MAX,
        },
{
    let ghost all = text::views(steps@);
    let mut total: u64 = 0;
    let mut i: usize = 0;
    while i < steps.len()
        invariant
            i <= steps@.len(),
            steps@.len() == freed@.len(),
            all == text::views(steps@),
            total == artifacts_freed(all.take(i as int), freed@.take(i as int)),
        decreases steps.len() - i,
    {
        proof {
            assert(all.take(i + 1).drop_last() =~= all.take(i as int));
            assert(freed@.take(i + 1).drop_last() =~= freed@.take(i as int));
            assert(all[i as int] == steps@[i as int]@);
            lemma_freed_grows(all, freed@, i + 1);
        }
        let bytes: u64 = match &steps[i] {
            ArtifactStep::Show(a) => a.size,
            ArtifactStep::Remove(_) => freed[i],
        };
        if total > u64::MAX - bytes {
            return None;
        }
        total = total + bytes;
        i = i + 1;
    }
    proof {
        assert(all.take(i as int) =~= all);
        assert(freed@.take(i as int) =~= freed@);
    }
    Some(total)
}

proof fn lemma_freed_grows(steps: Seq<ArtifactStepView>, freed: Seq<u64>, n: int)
    requires
        steps.len() == freed.len(),
        0 <= n <= steps.len(),
    ensures
        artifacts_freed(steps.take(n), freed.take(n)) <= artifacts_freed(steps, freed),
    decreases steps.len(),
{
    if n == steps.len() {
        assert(steps.take(n) =~= steps);
        assert(freed.take(n) =~= freed);
    } else {
        lemma_freed_grows(steps.drop_last(), freed.drop_last(), n);
        assert(steps.drop_last().take(n) =~= steps.take(n));
        assert(freed.drop_last().take(n) =~= freed.take(n));
    }
}

/// The first candidate that is there.
pub open spec fn first_of(candidates: Seq<CandidateView>, there: Seq<bool>) -> Option<CandidateView>
    decreases candidates.len(),
{
    if candidates.len() == 0 {
        None
    } else if there[0] {
        Some(candidates[0])
    } else {
        first_of(candidates.skip(1), there.skip(1))
    }
}

/// The full days since a change.
pub open spec fn days_since(modified: Option<Stamp>, now: Stamp) -> Option<u64> {
    match modified {
        Some(t) => match clock::elapsed(now, t) {
            Some(secs) => Some((secs / 86400) as u64),
            None => None,
        },
        None => None,
    }
}

/// An artifact in a directory.
pub open spec fn artifact_of(
    dir: Seq<char>,
    c: CandidateView,
    bytes: u64,
    modified: Option<Stamp>,
    now: Stamp,
) -> ArtifactView {
    ArtifactView {
        project_name: paths::base_name(dir).unwrap_or(Seq::empty()),
        artifact_path: c.path,
        artifact_name: c.name,
        size: bytes,
        days_old: days_since(modified, now),
    }
}

/// The artifacts by size, the largest first; equally large ones as they were found.
pub open spec fn largest_first(found: Seq<ArtifactView>) -> Seq<ArtifactView> {
    lists::sorted_order(found.map_values(|a: ArtifactView| -(a.size as int))).map_values(
        |i: int| found[i],
    )
}

fn sort_artifacts(found: Vec<Artifact>) -> (r: Vec<Artifact>)
    ensures
        text::views(r@) == largest_first(text::views(found@)),
{
    let ghost all = text::views(found@);
    let ghost sizes = all.map_values(|a: ArtifactView| -(a.size as int));
    let mut keys: Vec<i128> = Vec::new();
    let mut i: usize = 0;
    while i < found.len()
        invariant
            i <= found@.len(),
            all == text::views(found@),
            sizes == all.map_values(|a: ArtifactView| -(a.size as int)),
            lists::whole_keys(keys@) == sizes.take(i as int),
        decreases found.len() - i,
    {
        let key: i128 = -(found[i].size as i128);
        assert(sizes[i as int] == key);
        let ghost before = keys@;
        keys.push(key);
        assert(lists::whole_keys(keys@) =~= lists::whole_keys(before).push(key as int));
        i = i + 1;
        assert(lists::whole_keys(keys@) =~= sizes.take(i as int));
    }
    assert(sizes.take(i as int) =~= sizes);
    let order = lists::sort_order(&keys);
    let ghost want = largest_first(all);
    let mut r: Vec<Artifact> = Vec::new();
    let mut k: usize = 0;
    assert(text::views(r@) =~= want.take(0));
    while k < order.len()
        invariant
            k <= order@.len(),
            all == text::views(found@),
            want == lists::indices(order@).map_values(|i: int| all[i]),
            forall|i: int| 0 <= i < order@.len() ==> #[trigger] order@[i] < found@.len(),
            text::views(r@) == want.take(k as int),
        decreases order.len() - k,
    {
        let s: usize = order[k];
        let copy = copied(&found[s]);
        assert(want[k as int] == copy@);
        r.push(copy);
        k = k + 1;
        assert(text::views(r@) =~= want.take(k as int));
    }
    assert(want.take(k as int) =~= want);
    r
}

fn copied(a: &Artifact) -> (r: Artifact)
    ensures
        r@ == a@,
{
    Artifact {
        project_name: text::owned(a.project_name.as_str()),
        artifact_path: text::owned(a.artifact_path.as_str()),
        artifact_name: text::owned(a.artifact_name.as_str()),
        size: a.size,
        days_old: a.days_old,
    }
}

/// The age of an artifact in words.
pub open spec fn artifact_age(a: ArtifactView) -> Seq<char> {
    match a.days_old {
        Some(d) => text::decimal(d as nat) + "d old"@,
        None => "age?"@,
    }
}

/// The line for an artifact. One of more than a month carries a warning sign.
pub open spec fn artifact_line(a: ArtifactView) -> Seq<char> {
    "  "@ + (if a.days_old matches Some(d) && d > 30 {
        "⚠ "@
    } else {
        "  "@
    }) + text::padded_right(a.project_name, 38, '.') + " "@ + a.artifact_name + " / "@
        + artifact_age(a) + " / "@ + size::byte_words(a.size as nat)
}

/// The line for an artifact.
pub fn show_artifact(a: &Artifact) -> (r: String)
    ensures
        r@ == artifact_line(a@),
{
    let stale: bool = match a.days_old {
        Some(d) => d > 30,
        None => false,
    };
    let age = match a.days_old {
        Some(d) => text::join2(text::decimal_of(d).as_str(), "d old"),
        None => text::owned("age?"),
    };
    let mut r = text::join2("  ", if stale { "⚠ " } else { "  " });
    r.append(text::pad_right(a.project_name.as_str(), 38, '.').as_str());
    r.append(" ");
    r.append(a.artifact_name.as_str());
    r.append(" / ");
    r.append(age.as_str());
    r.append(" / ");
    r.append(size::fmt_bytes(a.size).as_str());
    r
}

// ── what the sweeps spare ────────────────────────────────────────────────────

/// No risky entry is ever cleared: every cache to be cleared belongs to an entry that
/// is not risky.
pub proof fn risky_caches_stay(entries: Seq<DevCacheEntry>, home: Seq<char>, n: int, k: int)
    requires
        0 <= n <= entries.len(),
        0 <= k < dev_caches(entries, home, n).len(),
    ensures
        exists|i: int|
            0 <= i < n && (#[trigger] entries[i]).risk@ != "risky"@ && dev_caches(
                entries,
                home,
                n,
            )[k] == (DevCacheView {
                name: entries[i].name@,
                path: config::expanded(entries[i].path@, home),
                mark: config::risk_mark(entries[i].risk@),
            }),
    decreases n,
{
    if n > 0 {
        let before = dev_caches(entries, home, n - 1);
        if k < before.len() {
            risky_caches_stay(entries, home, n - 1, k);
        } else {
            assert(entries[n - 1].risk@ != "risky"@);
        }
    }
}

/// A risky entry is listed, and every entry is either listed or to be cleared.
pub proof fn risky_caches_are_listed(entries: Seq<DevCacheEntry>, home: Seq<char>, n: int, i: int)
    requires
        0 <= i < n <= entries.len(),
    ensures
        entries[i].risk@ == "risky"@ ==> risky_rows(entries, home, n).contains(
            risky_row(entries[i], home),
        ),
        risky_rows(entries, home, n).len() + dev_caches(entries, home, n).len() == n,
    decreases n,
{
    lemma_listed_or_cleared(entries, home, n);
    if entries[i].risk@ == "risky"@ {
        let before = risky_rows(entries, home, n - 1);
        let rows = risky_rows(entries, home, n);
        let row = risky_row(entries[i], home);
        if i < n - 1 {
            risky_caches_are_listed(entries, home, n - 1, i);
            let k = choose|k: int| 0 <= k < before.len() && before[k] == row;
            assert(rows[k] == row);
        } else {
            assert(rows[before.len() as int] == row);
        }
    }
}

proof fn lemma_listed_or_cleared(entries: Seq<DevCacheEntry>, home: Seq<char>, n: int)
    requires
        0 <= n <= entries.len(),
    ensures
        risky_rows(entries, home, n).len() + dev_caches(entries, home, n).len() == n,
    decreases n,
{
    if n > 0 {
        lemma_listed_or_cleared(entries, home, n - 1);
    }
}

/// A search stays shallow: whatever is searched below a directory is one level deeper
/// and less deep than the limit.
pub proof fn search_stays_shallow(entries: Seq<SubEntry>, depth: int, n: int, k: int)
    requires
        0 <= k < spots_below(entries, depth, n).len(),
    ensures
        spots_below(entries, depth, n)[k].depth == depth + 1,
        depth + 1 < MAX_DEPTH,
    decreases n,
{
    if n > 0 && depth + 1 < MAX_DEPTH {
        let before = spots_below(entries, depth, n - 1);
        if k < before.len() {
            search_stays_shallow(entries, depth, n - 1, k);
        }
    }
}

/// The artifact that a directory holds, given which of its candidates are there.
pub open spec fn held_in(
    spot: SpotView,
    entries: Seq<SubEntry>,
    types: Seq<ProjectType>,
    there: Seq<bool>,
    bytes: u64,
    modified: Option<Stamp>,
) -> Option<Holding> {
    match first_of(
        candidates_in(spot.dir, entry_names(entries), types, types.len() as int),
        there,
    ) {
        Some(artifact) => Some(Holding { artifact, bytes, modified }),
        None => None,
    }
}

/// A directory yields at most one artifact, and where it holds one, nothing below it is
/// searched. What it yields lies in the directory, belongs to a kind of project whose
/// marker is there, and is large enough; what was found before stays.
pub proof fn one_artifact_per_directory(
    search: SearchView,
    spot: SpotView,
    entries: Seq<SubEntry>,
    types: Seq<ProjectType>,
    there: Seq<bool>,
    bytes: u64,
    modified: Option<Stamp>,
    now: Stamp,
    least: u64,
)
    requires
        there.len() == candidates_in(
            spot.dir,
            entry_names(entries),
            types,
            types.len() as int,
        ).len(),
    ensures
        ({
            let held = held_in(spot, entries, types, there, bytes, modified);
            let after = settled(search, spot, entries, held, now, least);
            &&& search.found.is_prefix_of(after.found)
            &&& after.found.len() <= search.found.len() + 1
            &&& held is Some ==> after.todo == search.todo
            &&& held is None ==> after.found == search.found
            &&& after.found.len() > search.found.len() <==> held is Some && bytes >= least
            &&& after.found.len() > search.found.len() ==> {
                let a = after.found.last();
                &&& a.size == bytes
                &&& exists|t: int|
                    0 <= t < types.len() && entry_names(entries).contains(
                        (#[trigger] types[t]).marker@,
                    ) && a.artifact_path == paths::joined(spot.dir, types[t].artifact@)
                        && a.artifact_name == types[t].artifact@
            }
        }),
{
    let names = entry_names(entries);
    let all = candidates_in(spot.dir, names, types, types.len() as int);
    let held = held_in(spot, entries, types, there, bytes, modified);
    let after = settled(search, spot, entries, held, now, least);
    assert(search.found =~= after.found.subrange(0, search.found.len() as int));
    if held is Some {
        let k = lemma_first_is_one(all, there);
        lemma_candidate_has_marker(spot.dir, names, types, types.len() as int, k);
    }
}

proof fn lemma_first_is_one(candidates: Seq<CandidateView>, there: Seq<bool>) -> (k: int)
    requires
        candidates.len() == there.len(),
        first_of(candidates, there) is Some,
    ensures
        0 <= k < candidates.len(),
        there[k],
        first_of(candidates, there) == Some(candidates[k]),
    decreases candidates.len(),
{
    if there[0] {
        0
    } else {
        lemma_first_is_one(candidates.skip(1), there.skip(1)) + 1
    }
}

proof fn lemma_candidate_has_marker(
    dir: Seq<char>,
    names: Seq<Seq<char>>,
    types: Seq<ProjectType>,
    n: int,
    k: int,
)
    requires
        0 <= n <= types.len(),
        0 <= k < candidates_in(dir, names, types, n).len(),
    ensures
        exists|t: int|
            0 <= t < n && names.contains((#[trigger] types[t]).marker@) && candidates_in(
                dir,
                names,
                types,
                n,
            )[k] == (CandidateView {
                path: paths::joined(dir, types[t].artifact@),
                name: types[t].artifact@,
            }),
    decreases n,
{
    if n > 0 {
        let before = candidates_in(dir, names, types, n - 1);
        if k < before.len() {
            lemma_candidate_has_marker(dir, names, types, n - 1, k);
        } else {
            assert(names.contains(types[n - 1].marker@));
        }
    }
}

/// What was found out about one directory of a search: its entries, the artifact that it
/// holds, and when it was looked at.
pub struct Look {
    pub entries: Seq<SubEntry>,
    pub held: Option<Holding>,
    pub now: Stamp,
}

/// Where a search stands after these looks, each at the directory that was next.
pub open spec fn search_after(roots: Seq<Seq<char>>, looks: Seq<Look>, least: u64) -> SearchView
    decreases looks.len(),
{
    if looks.len() == 0 {
        SearchView { todo: first_spots(roots), found: Seq::empty() }
    } else {
        let before = search_after(roots, looks.drop_last(), least);
        let look = looks.last();
        if before.todo.len() == 0 {
            before
        } else {
            settled(
                SearchView { todo: before.todo.skip(1), ..before },
                before.todo[0],
                look.entries,
                look.held,
                look.now,
                least,
            )
        }
    }
}

/// However far a search has come: every artifact found is large enough, every directory
/// still to be searched is less deep than the limit, and no more artifacts were found
/// than directories were looked at.
pub proof fn every_state_of_a_search(roots: Seq<Seq<char>>, looks: Seq<Look>, least: u64)
    ensures
        ({
            let s = search_after(roots, looks, least);
            &&& forall|i: int| 0 <= i < s.found.len() ==> (#[trigger] s.found[i]).size >= least
            &&& forall|i: int|
                0 <= i < s.todo.len() ==> 0 <= (#[trigger] s.todo[i]).depth < MAX_DEPTH
            &&& s.found.len() <= looks.len()
        }),
    decreases looks.len(),
{
    if looks.len() > 0 {
        let before = search_after(roots, looks.drop_last(), least);
        let after = search_after(roots, looks, least);
        let look = looks.last();
        every_state_of_a_search(roots, looks.drop_last(), least);
        if before.todo.len() > 0 {
            let rest = before.todo.skip(1);
            let n = look.entries.len() as int;
            let below = spots_below(look.entries, before.todo[0].depth, n);
            assert forall|i: int| 0 <= i < after.found.len() implies (
            #[trigger] after.found[i]).size >= least by {
                if i < before.found.len() {
                    assert(after.found[i] == before.found[i]);
                }
            }
            assert forall|i: int| 0 <= i < after.todo.len() implies 0 <= (
            #[trigger] after.todo[i]).depth < MAX_DEPTH by {
                if look.held is Some {
                    assert(after.todo[i] == before.todo[i + 1]);
                } else if i < below.len() {
                    assert(after.todo[i] == below[i]);
                    search_stays_shallow(look.entries, before.todo[0].depth, n, i);
                } else {
                    assert(after.todo[i] == rest[i - below.len()]);
                    assert(after.todo[i] == before.todo[i - below.len() + 1]);
                }
            }
        }
    }
}

// ── what the sweeps are for ──────────────────────────────────────────────────

/// A search begins at every configured root: where the category is switched on, with as
/// many directories as there are roots, each at depth 0 and in the order in which they are
/// configured, with the home directory put in; where it is switched off, with none.
pub proof fn search_begins_at_every_root(cat: ProjectArtifactsCategory, home: Seq<char>)
    ensures
        ({
            let spots = first_spots(scan_roots(cat, home));
            &&& !cat.enabled ==> spots.len() == 0
            &&& cat.enabled ==> spots.len() == cat.scan_roots@.len()
            &&& cat.enabled ==> forall|i: int|
                0 <= i < cat.scan_roots@.len() ==> (#[trigger] spots[i]).depth == 0 && spots[i].dir
                    == config::expanded(cat.scan_roots@[i]@, home)
        }),
{
}

/// Every entry that is not risky is cleared, at the place that it names with the home
/// directory put in.
pub proof fn safe_caches_are_cleared(
    entries: Seq<DevCacheEntry>,
    home: Seq<char>,
    n: int,
    i: int,
)
    requires
        0 <= i < n <= entries.len(),
        entries[i].risk@ != "risky"@,
    ensures
        exists|k: int|
            0 <= k < dev_caches(entries, home, n).len() && (#[trigger] dev_caches(
                entries,
                home,
                n,
            )[k]).name == entries[i].name@ && dev_caches(entries, home, n)[k].path
                == config::expanded(entries[i].path@, home),
        dev_caches(entries, home, n).len() <= n,
    decreases n,
{
    lemma_listed_or_cleared(entries, home, n);
    let before = dev_caches(entries, home, n - 1);
    let all = dev_caches(entries, home, n);
    if i < n - 1 {
        safe_caches_are_cleared(entries, home, n - 1, i);
        let k = choose|k: int|
            0 <= k < before.len() && (#[trigger] before[k]).name == entries[i].name@
                && before[k].path == config::expanded(entries[i].path@, home);
        assert(all[k] == before[k]);
    } else {
        assert(all[before.len() as int].name == entries[i].name@);
    }
}

/// When the contents of a directory are cleared, exactly the entries go that are not
/// blocked.
pub proof fn contents_go_unless_blocked(entries: Seq<Seq<char>>, path: Seq<char>)
    ensures
        entries.filter(not_blocked()).contains(path) <==> entries.contains(path)
            && !guard::hard_blocked(path),
{
    lists::filter_holds(entries, not_blocked(), path);
}

/// A directory may hold the artifact of every kind of project whose marker is among its
/// entries, below the directory itself, and no other.
pub proof fn every_marker_counts(
    dir: Seq<char>,
    names: Seq<Seq<char>>,
    types: Seq<ProjectType>,
    n: int,
    c: CandidateView,
)
    requires
        0 <= n <= types.len(),
    ensures
        candidates_in(dir, names, types, n).contains(c) <==> exists|t: int|
            0 <= t < n && names.contains((#[trigger] types[t]).marker@) && c.name
                == types[t].artifact@ && c.path == paths::joined(dir, types[t].artifact@),
    decreases n,
{
    if n > 0 {
        let before = candidates_in(dir, names, types, n - 1);
        let all = candidates_in(dir, names, types, n);
        every_marker_counts(dir, names, types, n - 1, c);
        if all.contains(c) {
            let k = choose|k: int| 0 <= k < all.len() && all[k] == c;
            if k < before.len() {
                assert(before[k] == c);
            } else {
                assert(names.contains(types[n - 1].marker@));
            }
        }
        if exists|t: int|
            0 <= t < n && names.contains((#[trigger] types[t]).marker@) && c.name
                == types[t].artifact@ && c.path == paths::joined(dir, types[t].artifact@) {
            let t = choose|t: int|
                0 <= t < n && names.contains((#[trigger] types[t]).marker@) && c.name
                    == types[t].artifact@ && c.path == paths::joined(dir, types[t].artifact@);
            if t < n - 1 {
                let k = choose|k: int| 0 <= k < before.len() && before[k] == c;
                assert(all[k] == c);
            } else {
                assert(all[before.len() as int] == c);
            }
        }
    }
}

/// Of the artifacts that a directory may hold, the first that is there counts: none is
/// there before it, and where none counts, none is there.
pub proof fn the_first_that_is_there_counts(candidates: Seq<CandidateView>, there: Seq<bool>)
    requires
        candidates.len() == there.len(),
    ensures
        match first_of(candidates, there) {
            Some(c) => exists|k: int|
                0 <= k < there.len() && #[trigger] there[k] && candidates[k] == c && forall|j: int|
                    0 <= j < k ==> !#[trigger] there[j],
            None => forall|j: int| 0 <= j < there.len() ==> !#[trigger] there[j],
        },
    decreases candidates.len(),
{
    if candidates.len() > 0 && !there[0] {
        let rest = there.skip(1);
        the_first_that_is_there_counts(candidates.skip(1), rest);
        match first_of(candidates, there) {
            Some(c) => {
                let k = choose|k: int|
                    0 <= k < rest.len() && #[trigger] rest[k] && candidates.skip(1)[k] == c
                        && forall|j: int| 0 <= j < k ==> !#[trigger] rest[j];
                assert(there[k + 1]);
                assert forall|j: int| 0 <= j < k + 1 implies !#[trigger] there[j] by {
                    if j > 0 {
                        assert(!rest[j - 1]);
                    }
                }
                assert(candidates[k + 1] == c);
            },
            None => {
                assert forall|j: int| 0 <= j < there.len() implies !#[trigger] there[j] by {
                    if j > 0 {
                        assert(!rest[j - 1]);
                    }
                }
            },
        }
    }
}

/// Which directories are searched: those that are not hidden and are none of the
/// directories that tools fill.
pub proof fn which_directories_are_searched(name: Seq<char>)
    ensures
        is_searched(name) <==> !(name.len() > 0 && name[0] == '.') && name != "node_modules"@
            && name != "target"@ && name != "build"@ && name != "vendor"@ && name != "Pods"@
            && name != "__pycache__"@ && name != "venv"@,
{
    let list = skipped_dirs();
    reveal_strlit(".git");
    reveal_strlit(".build");
    reveal_strlit(".dart_tool");
    reveal_strlit(".venv");
    reveal_strlit(".terraform");
    reveal_strlit(".gradle");
    assert(".git"@[0] == '.' && ".build"@[0] == '.' && ".dart_tool"@[0] == '.' && ".venv"@[0] == '.'
        && ".terraform"@[0] == '.' && ".gradle"@[0] == '.');
    assert(list[0] == "node_modules"@ && list[2] == "target"@ && list[3] == ".build"@ && list[4]
        == "build"@ && list[5] == "vendor"@ && list[7] == "Pods"@ && list[8] == "__pycache__"@
        && list[10] == "venv"@);
    if list.contains(name) {
        let k = choose|k: int| 0 <= k < list.len() && list[k] == name;
        assert(k == 0 || k == 1 || k == 2 || k == 3 || k == 4 || k == 5 || k == 6 || k == 7 || k
            == 8 || k == 9 || k == 10 || k == 11 || k == 12);
    }
}

/// Below a directory without an artifact every subdirectory is searched whose name is
/// searched, one level deeper, up to the fifth level; and nothing else.
pub proof fn subdirectories_are_searched(
    entries: Seq<SubEntry>,
    depth: int,
    n: int,
    spot: SpotView,
)
    requires
        0 <= n <= entries.len(),
    ensures
        spots_below(entries, depth, n).contains(spot) <==> depth + 1 < 5 && spot.depth == depth + 1
            && exists|i: int|
            0 <= i < n && (#[trigger] entries[i]).is_dir && is_searched(entries[i].name@)
                && entries[i].path@ == spot.dir,
    decreases n,
{
    if n > 0 && depth + 1 < 5 {
        let before = spots_below(entries, depth, n - 1);
        let all = spots_below(entries, depth, n);
        subdirectories_are_searched(entries, depth, n - 1, spot);
        if all.contains(spot) {
            let k = choose|k: int| 0 <= k < all.len() && all[k] == spot;
            if k < before.len() {
                assert(before[k] == spot);
            } else {
                assert(entries[n - 1].is_dir);
            }
        }
        if spot.depth == depth + 1 && exists|i: int|
            0 <= i < n && (#[trigger] entries[i]).is_dir && is_searched(entries[i].name@)
                && entries[i].path@ == spot.dir {
            let i = choose|i: int|
                0 <= i < n && (#[trigger] entries[i]).is_dir && is_searched(entries[i].name@)
                    && entries[i].path@ == spot.dir;
            if i < n - 1 {
                let k = choose|k: int| 0 <= k < before.len() && before[k] == spot;
                assert(all[k] == spot);
            } else {
                assert(all[before.len() as int] == spot);
            }
        }
    }
}

/// The age of an artifact counts full days since its last change; it is unknown where that
/// is unknown or lies ahead.
pub proof fn artifact_age_counts_full_days(modified: Option<Stamp>, now: Stamp)
    ensures
        match modified {
            Some(t) => if now.secs > t.secs || (now.secs == t.secs && now.nanos >= t.nanos) {
                let e = now.secs - t.secs - if now.nanos < t.nanos {
                    1int
                } else {
                    0
                };
                days_since(modified, now) matches Some(d) && d * 86400 <= e < (d + 1) * 86400
            } else {
                days_since(modified, now) is None
            },
            None => days_since(modified, now) is None,
        },
{
}

/// The artifacts that were found are dealt with the largest first, each once: none is lost
/// and none is added.
pub proof fn artifacts_go_largest_first(found: Seq<ArtifactView>, a: int, b: int)
    requires
        0 <= a < b < found.len(),
    ensures
        ({
            let sorted = largest_first(found);
            &&& sorted.len() == found.len()
            &&& sorted[a].size >= sorted[b].size
            &&& sorted.to_multiset() == found.to_multiset()
        }),
{
    let keys = found.map_values(|a: ArtifactView| -(a.size as int));
    lists::order_exists(keys);
    let order = lists::sorted_order(keys);
    assert(lists::goes_before(keys, order[a], order[b]));
    lists::order_keeps_items(keys, order, found);
}

/// What is done about artifacts: in a real run each is removed at its path, in a dry run
/// none is, and a dry run counts the size of each.
pub proof fn artifacts_go_in_a_real_run(found: Seq<ArtifactView>, a: ArtifactView)
    ensures
        found.map_values(artifact_step(false)).contains(ArtifactStepView::Remove(a))
            <==> found.contains(a),
        found.map_values(artifact_step(true)).contains(ArtifactStepView::Show(a))
            <==> found.contains(a),
        found.map_values(artifact_step(false)).len() == found.len(),
{
    let acts = found.map_values(artifact_step(false));
    let lines = found.map_values(artifact_step(true));
    if found.contains(a) {
        let k = choose|k: int| 0 <= k < found.len() && found[k] == a;
        assert(acts[k] == ArtifactStepView::Remove(a));
        assert(lines[k] == ArtifactStepView::Show(a));
    }
    if acts.contains(ArtifactStepView::Remove(a)) {
        let k = choose|k: int| 0 <= k < acts.len() && acts[k] == ArtifactStepView::Remove(a);
        assert(found[k] == a);
    }
    if lines.contains(ArtifactStepView::Show(a)) {
        let k = choose|k: int| 0 <= k < lines.len() && lines[k] == ArtifactStepView::Show(a);
        assert(found[k] == a);
    }
}

/// One more configured cache is cleared behind the others, or listed behind the others
/// where it is risky, and never both.
pub proof fn caches_keep_their_order(entries: Seq<DevCacheEntry>, home: Seq<char>, n: int)
    requires
        0 <= n < entries.len(),
    ensures
        dev_caches(entries, home, 0).len() == 0 && risky_rows(entries, home, 0).len() == 0,
        entries[n].risk@ == "risky"@ ==> dev_caches(entries, home, n + 1) == dev_caches(
            entries,
            home,
            n,
        ) && risky_rows(entries, home, n + 1).drop_last() == risky_rows(entries, home, n)
            && risky_rows(entries, home, n + 1).len() == risky_rows(entries, home, n).len() + 1,
        entries[n].risk@ != "risky"@ ==> risky_rows(entries, home, n + 1) == risky_rows(
            entries,
            home,
            n,
        ) && dev_caches(entries, home, n + 1).drop_last() == dev_caches(entries, home, n)
            && dev_caches(entries, home, n + 1).len() == dev_caches(entries, home, n).len() + 1
            && dev_caches(entries, home, n + 1).last().path == config::expanded(
            entries[n].path@,
            home,
        ),
{
    if entries[n].risk@ == "risky"@ {
        assert(risky_rows(entries, home, n + 1).drop_last() =~= risky_rows(entries, home, n));
    } else {
        assert(dev_caches(entries, home, n + 1).drop_last() =~= dev_caches(entries, home, n));
    }
}

/// A row about a risky cache names it, with where it is at the end. The rows stand between
/// a heading and an empty line; where there are none, nothing is shown.
pub proof fn risky_rows_name_their_cache(entries: Seq<DevCacheEntry>, home: Seq<char>, i: int)
    requires
        0 <= i < entries.len(),
    ensures
        text::has(risky_row(entries[i], home), entries[i].name@),
        config::expanded(entries[i].path@, home).is_suffix_of(risky_row(entries[i], home)),
        ({
            let rows = risky_rows(entries, home, entries.len() as int);
            let lines = risky_lines(entries, home);
            &&& rows.len() == 0 ==> lines.len() == 0
            &&& rows.len() > 0 ==> lines.len() == rows.len() + 2 && lines.subrange(
                1,
                1 + rows.len() as int,
            ) == rows
        }),
{
    let e = entries[i];
    let row = risky_row(e, home);
    let path = config::expanded(e.path@, home);
    let front = "  "@ + config::risk_mark(e.risk@) + " "@;
    let fill = text::repeated(' ', 42 - e.name@.len());
    let back = fill + " "@ + path;
    assert(row =~= front + e.name@ + back);
    text::parts_are_found(row, front, e.name@, back);
    assert(row.subrange(row.len() - path.len(), row.len() as int) =~= path);
    let rows = risky_rows(entries, home, entries.len() as int);
    if rows.len() > 0 {
        assert(risky_lines(entries, home).subrange(1, 1 + rows.len() as int) =~= rows);
    }
}

/// A cleared cache is reported exactly where bytes came free: with its name, and with the
/// bytes in words at the end.
pub proof fn cleared_caches_are_reported(job: DevCacheView, freed: nat, dry_run: bool)
    ensures
        cleared_line(job, freed, dry_run) is Some <==> freed > 0,
        cleared_line(job, freed, dry_run) matches Some(s) ==> {
            &&& text::has(s, job.name)
            &&& dry_run ==> (" would free "@ + size::byte_words(freed)).is_suffix_of(s)
            &&& !dry_run ==> (" freed "@ + size::byte_words(freed)).is_suffix_of(s)
        },
{
    if let Some(s) = cleared_line(job, freed, dry_run) {
        let words = size::byte_words(freed);
        let front = "  "@ + job.mark + " "@;
        let fill = text::repeated(' ', 42 - job.name.len());
        let verb = if dry_run {
            "would free"@
        } else {
            "freed"@
        };
        let back = fill + " "@ + verb + " "@ + words;
        assert(s =~= front + job.name + back);
        text::parts_are_found(s, front, job.name, back);
        reveal_strlit(" ");
        reveal_strlit("would free");
        reveal_strlit("freed");
        reveal_strlit(" would free ");
        reveal_strlit(" freed ");
        let end = if dry_run {
            " would free "@
        } else {
            " freed "@
        };
        assert(end =~= " "@ + verb + " "@);
        let tail = end + words;
        assert(s =~= (front + job.name + fill) + tail);
        assert(s.subrange(s.len() - tail.len(), s.len() as int) =~= tail);
    }
}

/// What a run over artifacts frees is the sum over its steps: in a dry run of their sizes,
/// in a real one of what their removal freed.
pub proof fn freed_artifacts_add_up(
    steps: Seq<ArtifactStepView>,
    freed: Seq<u64>,
    a: ArtifactView,
    bytes: u64,
)
    requires
        steps.len() == freed.len(),
    ensures
        artifacts_freed(Seq::empty(), Seq::empty()) == 0,
        artifacts_freed(steps.push(ArtifactStepView::Show(a)), freed.push(bytes))
            == artifacts_freed(steps, freed) + a.size,
        artifacts_freed(steps.push(ArtifactStepView::Remove(a)), freed.push(bytes))
            == artifacts_freed(steps, freed) + bytes,
{
    assert(steps.push(ArtifactStepView::Show(a)).drop_last() =~= steps);
    assert(steps.push(ArtifactStepView::Remove(a)).drop_last() =~= steps);
    assert(freed.push(bytes).drop_last() =~= freed);
}

/// What is found is named after the directory that it was found in, and is as old as the
/// artifact itself.
pub proof fn findings_name_their_project(
    dir: Seq<char>,
    name: Seq<char>,
    c: CandidateView,
    bytes: u64,
    modified: Option<Stamp>,
    now: Stamp,
)
    requires
        name.len() > 0,
        !name.contains('/'),
        name != seq!['.'],
        name != seq!['.', '.'],
    ensures
        artifact_of(dir + seq!['/'] + name, c, bytes, modified, now) == (ArtifactView {
            project_name: name,
            artifact_path: c.path,
            artifact_name: c.name,
            size: bytes,
            days_old: days_since(modified, now),
        }),
{
    paths::names_stand_at_the_end(dir, name);
}

/// A directory without an artifact leaves all it holds to be searched: every directory in
/// it that is not left out, one level deeper, and all of these before whatever was still
/// to be searched. One with an artifact leaves nothing new.
pub proof fn a_search_goes_deeper(
    search: SearchView,
    spot: SpotView,
    entries: Seq<SubEntry>,
    held: Option<Holding>,
    now: Stamp,
    least: u64,
    next: SpotView,
)
    ensures
        ({
            let after = settled(search, spot, entries, held, now, least);
            &&& held is Some ==> after.todo == search.todo
            &&& held is None ==> search.todo.is_suffix_of(after.todo)
            &&& held is None ==> (after.todo.contains(next) <==> search.todo.contains(next) || (
            spot.depth + 1 < 5 && next.depth == spot.depth + 1 && exists|i: int|
                0 <= i < entries.len() && (#[trigger] entries[i]).is_dir && is_searched(
                    entries[i].name@,
                ) && entries[i].path@ == next.dir))
        }),
{
    let after = settled(search, spot, entries, held, now, least);
    if held is None {
        let n = entries.len() as int;
        let below = spots_below(entries, spot.depth, n);
        subdirectories_are_searched(entries, spot.depth, n, next);
        assert(after.todo == below + search.todo);
        assert(after.todo.subrange(below.len() as int, after.todo.len() as int) =~= search.todo);
        if after.todo.contains(next) {
            let k = choose|k: int| 0 <= k < after.todo.len() && after.todo[k] == next;
            if k < below.len() {
                assert(below[k] == next);
            } else {
                assert(search.todo[k - below.len()] == next);
            }
        }
        if below.contains(next) {
            let k = choose|k: int| 0 <= k < below.len() && below[k] == next;
            assert(after.todo[k] == next);
        }
        if search.todo.contains(next) {
            let k = choose|k: int| 0 <= k < search.todo.len() && search.todo[k] == next;
            assert(after.todo[below.len() + k] == next);
        }
    }
}

/// Subdirectories are searched in the order in which they are listed, and candidates come
/// in the order of the project types: one more adds at most one, behind the others.
pub proof fn searching_keeps_the_order(
    entries: Seq<SubEntry>,
    depth: int,
    dir: Seq<char>,
    names: Seq<Seq<char>>,
    types: Seq<ProjectType>,
    n: int,
    m: int,
)
    requires
        0 <= n < entries.len(),
        0 <= m < types.len(),
        0 <= depth < 4,
    ensures
        spots_below(entries, depth, 0).len() == 0,
        spots_below(entries, depth, n + 1) == (if entries[n].is_dir && is_searched(
            entries[n].name@,
        ) {
            spots_below(entries, depth, n).push(
                SpotView { dir: entries[n].path@, depth: depth + 1 },
            )
        } else {
            spots_below(entries, depth, n)
        }),
        candidates_in(dir, names, types, 0).len() == 0,
        candidates_in(dir, names, types, m + 1) == (if names.contains(types[m].marker@) {
            candidates_in(dir, names, types, m).push(
                CandidateView {
                    path: paths::joined(dir, types[m].artifact@),
                    name: types[m].artifact@,
                },
            )
        } else {
            candidates_in(dir, names, types, m)
        }),
{
}

/// The line about an artifact names the project and the artifact, its age in days or that
/// it is not known, and its size at the end. It warns of artifacts that are more than
/// thirty days old, and of no others.
pub proof fn artifact_lines_tell_age_and_size(a: ArtifactView)
    ensures
        ({
            let s = artifact_line(a);
            &&& text::has(s, a.project_name)
            &&& (" / "@ + size::byte_words(a.size as nat)).is_suffix_of(s)
            &&& text::has(s, a.artifact_name)
            &&& (a.days_old matches Some(d) ==> text::has(s, text::decimal(d as nat) + "d old"@))
            &&& a.days_old is None ==> text::has(s, "age?"@)
            &&& s[2] == '⚠' <==> (a.days_old matches Some(d) && d > 30)
        }),
{
    let s = artifact_line(a);
    let mark = if a.days_old matches Some(d) && d > 30 {
        "⚠ "@
    } else {
        "  "@
    };
    let age = artifact_age(a);
    let words = size::byte_words(a.size as nat);
    let none = Seq::<char>::empty();
    let front = "  "@ + mark;
    let fill = text::repeated('.', 38 - a.project_name.len());
    let back = fill + " "@ + a.artifact_name + " / "@ + age + " / "@ + words;
    assert(s =~= front + a.project_name + back);
    text::parts_are_found(s, front, a.project_name, back);
    lemma_artifact_parts(front + a.project_name + fill + " "@, a.artifact_name, age, words);
    assert(s =~= front + a.project_name + fill + " "@ + a.artifact_name + " / "@ + age + " / "@
        + words);
    reveal_strlit("  ");
    reveal_strlit("⚠ ");
    assert(s[2] == mark[0]);
}

proof fn lemma_artifact_parts(front: Seq<char>, name: Seq<char>, age: Seq<char>, words: Seq<char>)
    ensures
        ({
            let s = front + name + " / "@ + age + " / "@ + words;
            &&& text::has(s, name)
            &&& text::has(s, age)
            &&& (" / "@ + words).is_suffix_of(s)
        }),
{
    let s = front + name + " / "@ + age + " / "@ + words;
    let tail = " / "@ + words;
    let back = " / "@ + age + tail;
    assert(s =~= front + name + back);
    text::parts_are_found(s, front, name, back);
    let before = front + name + " / "@;
    assert(s =~= before + age + tail);
    text::parts_are_found(s, before, age, tail);
    assert(s.subrange(s.len() - tail.len(), s.len() as int) =~= tail);
}

} // verus!
