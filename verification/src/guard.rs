//! The safety layer: what may never be touched.
//!
//! Four dangers are kept away: damaged code signatures (nothing inside an
//! application bundle is deleted on its own), files in use, access to private data
//! behind the user's back, and caches whose loss breaks the system.

use vstd::prelude::*;
use crate::command::{command, CommandLine, ToolReply};
use crate::paths;
use crate::text;

verus! {

broadcast use crate::text::group_views;

// ── hard blocks ──────────────────────────────────────────────────────────────

/// A path with one of these in it is protected.
pub open spec fn blocked_segments() -> Seq<Seq<char>> {
    seq![
        ".app/Contents/"@,
        "/System/"@,
        "/usr/bin/"@,
        "/usr/lib/"@,
        "/usr/sbin/"@,
        "/bin/"@,
        "/sbin/"@,
        "/etc/"@,
        "/private/etc/"@,
        "/Library/Extensions/"@,
        "/Library/StagedExtensions/"@,
        "com.apple.systempreferences"@,
        "com.apple.SystemSettings"@,
        "com.apple.controlcenter"@,
        "com.apple.coreaudio"@,
        "com.apple.audio."@,
        "coreaudiod"@,
        "com.apple.notificationcenterui"@,
        "com.apple.finder"@,
        "com.apple.dock.saved-state"@,
        "com.apple.security."@,
        "com.apple.trustd"@,
        "com.apple.keychain"@,
        "/Library/Keychains"@,
        "com.apple.bird"@,
        "com.apple.CloudDocs"@,
        "org.cups."@,
        "/Mobile Documents"@,
        "/.Trash"@,
    ]
}

fn segments() -> (r: Vec<&'static str>)
    ensures
        text::views(r@) == blocked_segments(),
{
    let r: Vec<&'static str> = vec![
        // code signatures: nothing inside a live bundle is deleted on its own
        ".app/Contents/",
        // the system itself
        "/System/",
        "/usr/bin/",
        "/usr/lib/",
        "/usr/sbin/",
        "/bin/",
        "/sbin/",
        "/etc/",
        "/private/etc/",
        "/Library/Extensions/",
        "/Library/StagedExtensions/",
        // caches whose removal breaks something visible
        "com.apple.systempreferences",
        "com.apple.SystemSettings",
        "com.apple.controlcenter",
        "com.apple.coreaudio",
        "com.apple.audio.",
        "coreaudiod",
        "com.apple.notificationcenterui",
        "com.apple.finder",
        "com.apple.dock.saved-state",
        "com.apple.security.",
        "com.apple.trustd",
        "com.apple.keychain",
        "/Library/Keychains",
        "com.apple.bird",
        "com.apple.CloudDocs",
        "org.cups.",
        // user data
        "/Mobile Documents",
        "/.Trash",
    ];
    assert(text::views(r@) =~= blocked_segments());
    r
}

/// These paths are protected as such.
pub open spec fn blocked_absolute() -> Seq<Seq<char>> {
    seq![
        "/"@,
        "/bin"@,
        "/sbin"@,
        "/usr"@,
        "/System"@,
        "/Library"@,
        "/private"@,
        "/etc"@,
        "/var"@,
    ]
}

fn absolutes() -> (r: Vec<&'static str>)
    ensures
        text::views(r@) == blocked_absolute(),
{
    let r: Vec<&'static str> = vec![
        "/",
        "/bin",
        "/sbin",
        "/usr",
        "/System",
        "/Library",
        "/private",
        "/etc",
        "/var",
    ];
    assert(text::views(r@) =~= blocked_absolute());
    r
}

/// What may be touched below `/Library/`.
pub open spec fn library_allowed() -> Seq<Seq<char>> {
    seq![
        "Caches/"@,
        "Logs/"@,
        "LaunchAgents/"@,
        "LaunchDaemons/"@,
        "Application Support/"@,
        "Preferences/"@,
        "Updates/"@,
        "PrivilegedHelperTools/"@,
    ]
}

fn library_allow_list() -> (r: Vec<&'static str>)
    ensures
        text::views(r@) == library_allowed(),
{
    let r: Vec<&'static str> = vec![
        "Caches/",
        "Logs/",
        "LaunchAgents/",
        "LaunchDaemons/",
        "Application Support/",
        "Preferences/",
        "Updates/",
        "PrivilegedHelperTools/",
    ];
    assert(text::views(r@) =~= library_allowed());
    r
}

/// One of `list` stands in `s`.
pub open spec fn has_any(s: Seq<char>, list: Seq<Seq<char>>) -> bool {
    exists|i: int| 0 <= i < list.len() && text::has(s, #[trigger] list[i])
}

/// `s` begins with one of `list`.
pub open spec fn starts_with_any(s: Seq<char>, list: Seq<Seq<char>>) -> bool {
    exists|i: int| 0 <= i < list.len() && (#[trigger] list[i]).is_prefix_of(s)
}

/// The path stands below `/Library/` and not in a part of it that may be touched.
pub open spec fn outside_library_allow_list(path: Seq<char>) -> bool {
    "/Library/"@.is_prefix_of(path) && !starts_with_any(
        path.skip("/Library/"@.len() as int),
        library_allowed(),
    )
}

/// The path is unconditionally protected.
pub open spec fn hard_blocked(path: Seq<char>) -> bool {
    ||| blocked_absolute().contains(path)
    ||| has_any(path, blocked_segments())
    ||| outside_library_allow_list(path)
}

fn contains_any(s: &str, list: &Vec<&'static str>) -> (r: bool)
    ensures
        r == has_any(s@, text::views(list@)),
{
    let mut i: usize = 0;
    while i < list.len()
        invariant
            i <= list@.len(),
            forall|j: int| 0 <= j < i ==> !text::has(s@, #[trigger] list@[j]@),
        decreases list.len() - i,
    {
        if text::contains(s, list[i]) {
            assert(text::has(s@, text::views(list@)[i as int]));
            return true;
        }
        i = i + 1;
    }
    assert forall|j: int| 0 <= j < text::views(list@).len() implies !text::has(
        s@,
        #[trigger] text::views(list@)[j],
    ) by {
        assert(text::views(list@)[j] == list@[j]@);
    }
    false
}

fn begins_with_any(s: &str, list: &Vec<&'static str>) -> (r: bool)
    ensures
        r == starts_with_any(s@, text::views(list@)),
{
    let mut i: usize = 0;
    while i < list.len()
        invariant
            i <= list@.len(),
            forall|j: int| 0 <= j < i ==> !(#[trigger] list@[j]@).is_prefix_of(s@),
        decreases list.len() - i,
    {
        if text::starts_with(s, list[i]) {
            assert(text::views(list@)[i as int].is_prefix_of(s@));
            return true;
        }
        i = i + 1;
    }
    assert forall|j: int| 0 <= j < text::views(list@).len() implies !(
    #[trigger] text::views(list@)[j]).is_prefix_of(s@) by {
        assert(text::views(list@)[j] == list@[j]@);
    }
    false
}

fn equals_any(s: &str, list: &Vec<&'static str>) -> (r: bool)
    ensures
        r == text::views(list@).contains(s@),
{
    let mut i: usize = 0;
    while i < list.len()
        invariant
            i <= list@.len(),
            forall|j: int| 0 <= j < i ==> list@[j]@ != s@,
        decreases list.len() - i,
    {
        if text::same(s, list[i]) {
            assert(text::views(list@)[i as int] == s@);
            return true;
        }
        i = i + 1;
    }
    assert forall|j: int| 0 <= j < text::views(list@).len() implies text::views(list@)[j] != s@ by {
        assert(text::views(list@)[j] == list@[j]@);
    }
    false
}

/// Whether a path is unconditionally protected.
pub fn is_hard_blocked(path: &str) -> (r: bool)
    ensures
        r == hard_blocked(path@),
{
    if equals_any(path, &absolutes()) {
        return true;
    }
    if contains_any(path, &segments()) {
        return true;
    }
    if text::starts_with(path, "/Library/") {
        let x = text::chars_of(path);
        let head = text::chars_of("/Library/");
        let rest = text::string_of(&x, head.len(), x.len());
        assert(rest@ =~= path@.skip("/Library/"@.len() as int));
        return !begins_with_any(rest.as_str(), &library_allow_list());
    }
    false
}

/// Whether a path stands inside the signed tree of an application bundle.
pub fn is_inside_app_bundle(path: &str) -> (r: bool)
    ensures
        r == text::has(path@, ".app/Contents/"@),
{
    text::contains(path, ".app/Contents/")
}

// ── private data ─────────────────────────────────────────────────────────────

/// Paths with one of these in them can be reached with Full Disk Access only.
pub open spec fn fda_segments() -> Seq<Seq<char>> {
    seq![
        "/Library/Mail/"@,
        "/Library/Messages/"@,
        "/Library/Safari/"@,
        "/private/var/db/"@,
        "/private/var/folders/"@,
        "com.apple.security"@,
        "com.apple.trustd"@,
    ]
}

/// The path can be reached with Full Disk Access only.
pub open spec fn needs_fda(path: Seq<char>) -> bool {
    has_any(path, fda_segments())
}

/// Whether a path can be reached with Full Disk Access only.
pub fn requires_fda(path: &str) -> (r: bool)
    ensures
        r == needs_fda(path@),
{
    let list: Vec<&'static str> = vec![
        "/Library/Mail/",
        "/Library/Messages/",
        "/Library/Safari/",
        "/private/var/db/",
        "/private/var/folders/",
        "com.apple.security",
        "com.apple.trustd",
    ];
    assert(text::views(list@) =~= fda_segments());
    contains_any(path, &list)
}

/// Nothing is ever removed at this path: it is hard-blocked, or it could only be
/// reached with Full Disk Access, which is never asked for.
pub open spec fn protected(path: Seq<char>) -> bool {
    hard_blocked(path) || needs_fda(path)
}

/// Whether nothing is ever removed at this path.
pub fn is_protected(path: &str) -> (r: bool)
    ensures
        r == protected(path@),
{
    is_hard_blocked(path) || requires_fda(path)
}

// ── process occupancy ────────────────────────────────────────────────────────

/// The name by which a process using the path is looked for: its stem, unless
/// that is too short to tell anything.
pub open spec fn process_stem(path: Seq<char>) -> Option<Seq<char>> {
    match paths::base_name(path) {
        Some(name) => if text::byte_len(paths::stem_of(name)) >= 3 {
            Some(paths::stem_of(name))
        } else {
            None
        },
        None => None,
    }
}

/// The name by which a process using the path is looked for.
pub fn stem_to_look_for(path: &str) -> (r: Option<String>)
    ensures
        text::opt_view(r) == process_stem(path@),
{
    match paths::file_stem(path) {
        Some(stem) => {
            let x = text::chars_of(stem.as_str());
            if text::longer_than(&x, 2) {
                Some(stem)
            } else {
                None
            }
        },
        None => None,
    }
}

/// The question whether a process with this name in its command line runs.
pub fn pgrep_full(stem: &str) -> (r: CommandLine)
    ensures
        r@ == ("pgrep"@, seq!["-f"@, stem@]),
{
    let r = command("pgrep", &["-f", stem]);
    assert(r@.1 =~= seq!["-f"@, stem@]);
    r
}

/// The question for the open files below a directory.
pub fn lsof_below(dir: &str) -> (r: CommandLine)
    ensures
        r@ == ("lsof"@, seq!["+D"@, dir@]),
{
    let r = command("lsof", &["+D", dir]);
    assert(r@.1 =~= seq!["+D"@, dir@]);
    r
}

/// The tool found open files: it succeeded and printed something.
pub open spec fn found_open_files(reply: ToolReply) -> bool {
    reply.success && text::trim(reply.stdout@).len() > 0
}

/// Whether a path is in use: a process with its stem runs, or (`lsof`, asked of
/// directories only) files below it are open. A question that was not asked, or to
/// which no tool replied, counts as no.
pub fn is_process_using(stem_running: bool, lsof: &Option<ToolReply>) -> (r: bool)
    ensures
        r == (stem_running || (lsof matches Some(reply) && found_open_files(*reply))),
{
    if stem_running {
        return true;
    }
    match lsof {
        Some(reply) => reply.success && !text::trimmed(reply.stdout.as_str()).as_str().is_empty(),
        None => false,
    }
}

// ── code signatures ──────────────────────────────────────────────────────────

/// The question whether the signature of an application is intact.
pub fn codesign_verify(app: &str) -> (r: CommandLine)
    ensures
        r@ == ("codesign"@, seq!["--verify"@, "--deep"@, "--strict"@, app@]),
{
    let r = command("codesign", &["--verify", "--deep", "--strict", app]);
    assert(r@.1 =~= seq!["--verify"@, "--deep"@, "--strict"@, app@]);
    r
}

/// Whether the signature of an application is intact. No reply counts as broken.
pub fn codesign_ok(reply: &Option<ToolReply>) -> (r: bool)
    ensures
        r == (reply matches Some(t) && t.success),
{
    match reply {
        Some(t) => t.success,
        None => false,
    }
}

// ── critical bundles ─────────────────────────────────────────────────────────

/// Developer tools whose bundles are safe to manage although they are the system
/// vendor's.
pub open spec fn managed_vendor_bundle(bid: Seq<char>) -> bool {
    ||| "com.apple.dt."@.is_prefix_of(bid)
    ||| "com.apple.CoreSimulator"@.is_prefix_of(bid)
    ||| "com.apple.iphonesimulator"@.is_prefix_of(bid)
}

/// The bundle belongs to the system, to printing, or to a password manager.
pub open spec fn critical_bundle(bid: Seq<char>) -> bool {
    if "com.apple."@.is_prefix_of(bid) {
        !managed_vendor_bundle(bid)
    } else {
        ||| bid == "org.cups"@
        ||| bid == "com.1password.1password"@
        ||| bid == "com.agilebits.onepassword7"@
        ||| bid == "com.bitwarden.desktop"@
    }
}

/// Whether a bundle must be left alone whatever the configuration says.
pub fn is_critical_bundle(bid: &str) -> (r: bool)
    ensures
        r == critical_bundle(bid@),
{
    if text::starts_with(bid, "com.apple.") {
        return !(text::starts_with(bid, "com.apple.dt.") || text::starts_with(
            bid,
            "com.apple.CoreSimulator",
        ) || text::starts_with(bid, "com.apple.iphonesimulator"));
    }
    text::same(bid, "org.cups") || text::same(bid, "com.1password.1password") || text::same(
        bid,
        "com.agilebits.onepassword7",
    ) || text::same(bid, "com.bitwarden.desktop")
}

// ── what the blocks guarantee ────────────────────────────────────────────────

/// A text keeps what stands in it when something is put before and behind it.
pub proof fn lemma_has_in_context(before: Seq<char>, s: Seq<char>, after: Seq<char>, p: Seq<char>)
    requires
        text::has(s, p),
    ensures
        text::has(before + s + after, p),
{
    let i = choose|i: int| text::occurs_at(s, p, i);
    let whole = before + s + after;
    assert(whole.subrange(before.len() + i, before.len() + i + p.len()) =~= s.subrange(
        i,
        i + p.len(),
    ));
    assert(text::occurs_at(whole, p, before.len() + i));
}

/// A protected segment protects wherever it stands: every path that holds one is
/// blocked, whatever surrounds it.
pub proof fn segment_blocks_everywhere(before: Seq<char>, i: int, after: Seq<char>)
    requires
        0 <= i < blocked_segments().len(),
    ensures
        hard_blocked(before + blocked_segments()[i] + after),
{
    let seg = blocked_segments()[i];
    assert(text::occurs_at(seg, seg, 0)) by {
        assert(seg.subrange(0, seg.len() as int) =~= seg);
    }
    lemma_has_in_context(before, seg, after, seg);
}

/// What lies below a path that holds a protected segment is protected too.
pub proof fn below_a_segment_is_blocked(path: Seq<char>, rest: Seq<char>)
    requires
        has_any(path, blocked_segments()),
    ensures
        hard_blocked(path + rest),
{
    let i = choose|i: int|
        0 <= i < blocked_segments().len() && text::has(path, #[trigger] blocked_segments()[i]);
    lemma_has_in_context(Seq::empty(), path, rest, blocked_segments()[i]);
    assert(Seq::<char>::empty() + path + rest =~= path + rest);
}

/// Nothing inside the signed tree of an application bundle can be removed.
pub proof fn bundle_contents_are_blocked(path: Seq<char>)
    requires
        text::has(path, ".app/Contents/"@),
    ensures
        hard_blocked(path),
{
    assert(blocked_segments()[0] == ".app/Contents/"@);
}

// ── what is protected, path by path ──────────────────────────────────────────

/// The path holds what must stay: a part of a live bundle, of the system itself, of a
/// cache whose loss breaks something visible, or of the user's data.
pub open spec fn holds_what_must_stay(path: Seq<char>) -> bool {
    ||| text::has(path, ".app/Contents/"@)
    ||| text::has(path, "/System/"@)
    ||| text::has(path, "/usr/bin/"@)
    ||| text::has(path, "/usr/lib/"@)
    ||| text::has(path, "/usr/sbin/"@)
    ||| text::has(path, "/bin/"@)
    ||| text::has(path, "/sbin/"@)
    ||| text::has(path, "/etc/"@)
    ||| text::has(path, "/private/etc/"@)
    ||| text::has(path, "/Library/Extensions/"@)
    ||| text::has(path, "/Library/StagedExtensions/"@)
    ||| text::has(path, "com.apple.systempreferences"@)
    ||| text::has(path, "com.apple.SystemSettings"@)
    ||| text::has(path, "com.apple.controlcenter"@)
    ||| text::has(path, "com.apple.coreaudio"@)
    ||| text::has(path, "com.apple.audio."@)
    ||| text::has(path, "coreaudiod"@)
    ||| text::has(path, "com.apple.notificationcenterui"@)
    ||| text::has(path, "com.apple.finder"@)
    ||| text::has(path, "com.apple.dock.saved-state"@)
    ||| text::has(path, "com.apple.security."@)
    ||| text::has(path, "com.apple.trustd"@)
    ||| text::has(path, "com.apple.keychain"@)
    ||| text::has(path, "/Library/Keychains"@)
    ||| text::has(path, "com.apple.bird"@)
    ||| text::has(path, "com.apple.CloudDocs"@)
    ||| text::has(path, "org.cups."@)
    ||| text::has(path, "/Mobile Documents"@)
    ||| text::has(path, "/.Trash"@)
}

/// The path is the root or one of the top directories of the system.
pub open spec fn is_top_directory(path: Seq<char>) -> bool {
    ||| path == "/"@
    ||| path == "/bin"@
    ||| path == "/sbin"@
    ||| path == "/usr"@
    ||| path == "/System"@
    ||| path == "/Library"@
    ||| path == "/private"@
    ||| path == "/etc"@
    ||| path == "/var"@
}

/// The path lies in a part of `/Library/` that may be touched.
pub open spec fn in_open_library(path: Seq<char>) -> bool {
    ||| "/Library/Caches/"@.is_prefix_of(path)
    ||| "/Library/Logs/"@.is_prefix_of(path)
    ||| "/Library/LaunchAgents/"@.is_prefix_of(path)
    ||| "/Library/LaunchDaemons/"@.is_prefix_of(path)
    ||| "/Library/Application Support/"@.is_prefix_of(path)
    ||| "/Library/Preferences/"@.is_prefix_of(path)
    ||| "/Library/Updates/"@.is_prefix_of(path)
    ||| "/Library/PrivilegedHelperTools/"@.is_prefix_of(path)
}

/// Which paths are blocked: those that hold what must stay, the top directories, and what
/// lies below `/Library/` but not in a part of it that may be touched. No other path is.
pub proof fn which_paths_are_blocked(path: Seq<char>)
    ensures
        hard_blocked(path) <==> holds_what_must_stay(path) || is_top_directory(path) || (
        "/Library/"@.is_prefix_of(path) && !in_open_library(path)),
{
    let segments = blocked_segments();
    let tops = blocked_absolute();
    assert(segments[0] == ".app/Contents/"@);
    assert(segments[1] == "/System/"@);
    assert(segments[2] == "/usr/bin/"@);
    assert(segments[3] == "/usr/lib/"@);
    assert(segments[4] == "/usr/sbin/"@);
    assert(segments[5] == "/bin/"@);
    assert(segments[6] == "/sbin/"@);
    assert(segments[7] == "/etc/"@);
    assert(segments[8] == "/private/etc/"@);
    assert(segments[9] == "/Library/Extensions/"@);
    assert(segments[10] == "/Library/StagedExtensions/"@);
    assert(segments[11] == "com.apple.systempreferences"@);
    assert(segments[12] == "com.apple.SystemSettings"@);
    assert(segments[13] == "com.apple.controlcenter"@);
    assert(segments[14] == "com.apple.coreaudio"@);
    assert(segments[15] == "com.apple.audio."@);
    assert(segments[16] == "coreaudiod"@);
    assert(segments[17] == "com.apple.notificationcenterui"@);
    assert(segments[18] == "com.apple.finder"@);
    assert(segments[19] == "com.apple.dock.saved-state"@);
    assert(segments[20] == "com.apple.security."@);
    assert(segments[21] == "com.apple.trustd"@);
    assert(segments[22] == "com.apple.keychain"@);
    assert(segments[23] == "/Library/Keychains"@);
    assert(segments[24] == "com.apple.bird"@);
    assert(segments[25] == "com.apple.CloudDocs"@);
    assert(segments[26] == "org.cups."@);
    assert(segments[27] == "/Mobile Documents"@);
    assert(segments[28] == "/.Trash"@);
    assert(tops[0] == "/"@);
    assert(tops[1] == "/bin"@);
    assert(tops[2] == "/sbin"@);
    assert(tops[3] == "/usr"@);
    assert(tops[4] == "/System"@);
    assert(tops[5] == "/Library"@);
    assert(tops[6] == "/private"@);
    assert(tops[7] == "/etc"@);
    assert(tops[8] == "/var"@);
    assert(segments.len() == 29 && tops.len() == 9);
    if has_any(path, segments) {
        let k = choose|k: int| 0 <= k < segments.len() && text::has(path, #[trigger] segments[k]);
        assert(holds_what_must_stay(path));
    }
    if tops.contains(path) {
        let k = choose|k: int| 0 <= k < tops.len() && tops[k] == path;
        assert(is_top_directory(path));
    }
    lemma_open_library(path);
}

proof fn lemma_open_library(path: Seq<char>)
    ensures
        "/Library/"@.is_prefix_of(path) ==> (in_open_library(path) <==> starts_with_any(
            path.skip("/Library/"@.len() as int),
            library_allowed(),
        )),
{
    let list = library_allowed();
    let head = "/Library/"@;
    let rest = path.skip(head.len() as int);
    if head.is_prefix_of(path) {
        reveal_strlit("/Library/");
        reveal_strlit("/Library/Caches/");
        reveal_strlit("Caches/");
        reveal_strlit("/Library/Logs/");
        reveal_strlit("Logs/");
        reveal_strlit("/Library/LaunchAgents/");
        reveal_strlit("LaunchAgents/");
        reveal_strlit("/Library/LaunchDaemons/");
        reveal_strlit("LaunchDaemons/");
        reveal_strlit("/Library/Application Support/");
        reveal_strlit("Application Support/");
        reveal_strlit("/Library/Preferences/");
        reveal_strlit("Preferences/");
        reveal_strlit("/Library/Updates/");
        reveal_strlit("Updates/");
        reveal_strlit("/Library/PrivilegedHelperTools/");
        reveal_strlit("PrivilegedHelperTools/");
        assert("/Library/Caches/"@ =~= head + "Caches/"@);
        assert("/Library/Logs/"@ =~= head + "Logs/"@);
        assert("/Library/LaunchAgents/"@ =~= head + "LaunchAgents/"@);
        assert("/Library/LaunchDaemons/"@ =~= head + "LaunchDaemons/"@);
        assert("/Library/Application Support/"@ =~= head + "Application Support/"@);
        assert("/Library/Preferences/"@ =~= head + "Preferences/"@);
        assert("/Library/Updates/"@ =~= head + "Updates/"@);
        assert("/Library/PrivilegedHelperTools/"@ =~= head + "PrivilegedHelperTools/"@);
        lemma_split_prefix(path, head, "Caches/"@, "/Library/Caches/"@);
        lemma_split_prefix(path, head, "Logs/"@, "/Library/Logs/"@);
        lemma_split_prefix(path, head, "LaunchAgents/"@, "/Library/LaunchAgents/"@);
        lemma_split_prefix(path, head, "LaunchDaemons/"@, "/Library/LaunchDaemons/"@);
        lemma_split_prefix(path, head, "Application Support/"@, "/Library/Application Support/"@);
        lemma_split_prefix(path, head, "Preferences/"@, "/Library/Preferences/"@);
        lemma_split_prefix(path, head, "Updates/"@, "/Library/Updates/"@);
        lemma_split_prefix(path, head, "PrivilegedHelperTools/"@, "/Library/PrivilegedHelperTools/"@);
        assert(list[0] == "Caches/"@);
        assert(list[1] == "Logs/"@);
        assert(list[2] == "LaunchAgents/"@);
        assert(list[3] == "LaunchDaemons/"@);
        assert(list[4] == "Application Support/"@);
        assert(list[5] == "Preferences/"@);
        assert(list[6] == "Updates/"@);
        assert(list[7] == "PrivilegedHelperTools/"@);
        assert(list.len() == 8);
        if starts_with_any(rest, list) {
            let k = choose|k: int| 0 <= k < list.len() && (#[trigger] list[k]).is_prefix_of(rest);
            assert(in_open_library(path));
        }
    }
}

proof fn lemma_split_prefix(path: Seq<char>, head: Seq<char>, tail: Seq<char>, whole: Seq<char>)
    requires
        head.is_prefix_of(path),
        whole == head + tail,
    ensures
        whole.is_prefix_of(path) <==> tail.is_prefix_of(path.skip(head.len() as int)),
{
    let rest = path.skip(head.len() as int);
    if whole.is_prefix_of(path) {
        assert(path.subrange(0, whole.len() as int) =~= whole);
        assert(rest.subrange(0, tail.len() as int) =~= tail) by {
            assert forall|i: int| 0 <= i < tail.len() implies rest.subrange(
                0,
                tail.len() as int,
            )[i] == tail[i] by {
                assert(path[head.len() + i] == whole[head.len() + i]);
            }
        }
    }
    if tail.is_prefix_of(rest) {
        assert(path.subrange(0, whole.len() as int) =~= whole) by {
            assert forall|i: int| 0 <= i < whole.len() implies path[i] == whole[i] by {
                if i >= head.len() {
                    assert(rest[i - head.len()] == tail[i - head.len()]);
                }
            }
        }
    }
}

/// Which paths need Full Disk Access: those of mail, messages and Safari, those of the
/// databases and folders of the system, and those of security and trust. No other path
/// does, and nothing is removed at a path that is blocked or needs it.
pub proof fn which_paths_need_full_disk_access(path: Seq<char>)
    ensures
        needs_fda(path) <==> {
            ||| text::has(path, "/Library/Mail/"@)
            ||| text::has(path, "/Library/Messages/"@)
            ||| text::has(path, "/Library/Safari/"@)
            ||| text::has(path, "/private/var/db/"@)
            ||| text::has(path, "/private/var/folders/"@)
            ||| text::has(path, "com.apple.security"@)
            ||| text::has(path, "com.apple.trustd"@)
        },
        protected(path) <==> hard_blocked(path) || needs_fda(path),
{
    let list = fda_segments();
    assert(list[0] == "/Library/Mail/"@);
    assert(list[1] == "/Library/Messages/"@);
    assert(list[2] == "/Library/Safari/"@);
    assert(list[3] == "/private/var/db/"@);
    assert(list[4] == "/private/var/folders/"@);
    assert(list[5] == "com.apple.security"@);
    assert(list[6] == "com.apple.trustd"@);
    assert(list.len() == 7);
    if has_any(path, list) {
        let k = choose|k: int| 0 <= k < list.len() && text::has(path, #[trigger] list[k]);
        assert(k == 0 || k == 1 || k == 2 || k == 3 || k == 4 || k == 5 || k == 6);
    }
}

/// Which bundles are critical: all that begin with `com.apple.` but the developer tools,
/// printing, and three password managers. No other bundle is.
pub proof fn which_bundles_are_critical(bid: Seq<char>)
    ensures
        critical_bundle(bid) <==> ("com.apple."@.is_prefix_of(bid)
            && !"com.apple.dt."@.is_prefix_of(bid) && !"com.apple.CoreSimulator"@.is_prefix_of(bid)
            && !"com.apple.iphonesimulator"@.is_prefix_of(bid)) || bid == "org.cups"@ || bid
            == "com.1password.1password"@ || bid == "com.agilebits.onepassword7"@ || bid
            == "com.bitwarden.desktop"@,
{
    reveal_strlit("com.apple.");
    reveal_strlit("org.cups");
    reveal_strlit("com.1password.1password");
    reveal_strlit("com.agilebits.onepassword7");
    reveal_strlit("com.bitwarden.desktop");
    assert("com.apple."@[4] == 'a' && "com.apple."@[5] == 'p');
    assert("org.cups"@[0] == 'o' && "com.apple."@[0] == 'c');
    assert("com.1password.1password"@[4] == '1');
    assert("com.agilebits.onepassword7"@[5] == 'g');
    assert("com.bitwarden.desktop"@[4] == 'b');
    if "com.apple."@.is_prefix_of(bid) {
        assert(bid[0] == 'c' && bid[4] == 'a' && bid[5] == 'p');
    }
}

/// A process that uses a path is looked for by the stem of its name, where that has at
/// least three bytes.
pub proof fn processes_are_looked_for_by_stem(path: Seq<char>)
    ensures
        process_stem(path) is Some <==> (paths::base_name(path) matches Some(name)
            && text::byte_len(paths::stem_of(name)) >= 3),
        process_stem(path) matches Some(stem) ==> stem == paths::stem_of(
            paths::base_name(path)->0,
        ),
{
}

/// Files are open where the tool succeeded and printed anything but white space.
pub proof fn anything_printed_counts(reply: ToolReply)
    ensures
        found_open_files(reply) <==> reply.success && !text::blank(reply.stdout@),
{
    text::only_white_space_trims_away(reply.stdout@);
}

} // verus!
