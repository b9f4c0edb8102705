//! The user interface: previews, fonts, Dock and Finder.

use vstd::prelude::*;
use crate::config::{Config, Optimizer};
use crate::plan::{Action, ActionView};
use crate::{paths, plan, text};

verus! {

broadcast use crate::text::group_views;

/// Ends the preview services and clears their cache.
pub open spec fn quicklook_plan(is_root: bool, home: Seq<char>) -> Seq<ActionView> {
    seq![
        ActionView::Run("killall"@, seq!["-9"@, "qlmanage"@]),
        ActionView::Run("killall"@, seq!["-9"@, "QuickLookUIService"@]),
        ActionView::Remove(
            paths::joined(home, "Library/Caches/com.apple.QuickLook.ThumbnailsAgent"@),
        ),
        if is_root {
            ActionView::Run("qlmanage"@, seq!["-r"@, "cache"@])
        } else {
            ActionView::Run("qlmanage"@, seq!["-r"@])
        },
    ]
}

/// Removes the font cache, which the system builds anew.
pub open spec fn font_plan(home: Seq<char>) -> Seq<ActionView> {
    seq![
        ActionView::Remove(paths::joined(home, "Library/Caches/com.apple.ATS"@)),
        ActionView::Run("atsutil"@, seq!["databases"@, "-remove"@]),
        ActionView::Run("killall"@, seq!["ATSServer"@]),
    ]
}

/// No folder metadata on network volumes and external drives.
pub open spec fn dsstore_plan() -> Seq<ActionView> {
    seq![
        plan::setting(
            "com.apple.desktopservices"@,
            "DSDontWriteNetworkStores"@,
            "-bool"@,
            "true"@,
        ),
        plan::setting("com.apple.desktopservices"@, "DSDontWriteUSBStores"@, "-bool"@, "true"@),
    ]
}

/// A Dock without delays and recent apps.
pub open spec fn dock_plan() -> Seq<ActionView> {
    seq![
        plan::setting("com.apple.dock"@, "autohide-delay"@, "-float"@, "0"@),
        plan::setting("com.apple.dock"@, "autohide-time-modifier"@, "-float"@, "0.2"@),
        plan::setting(
            "com.apple.dock"@,
            "enable-spring-load-actions-on-all-items"@,
            "-bool"@,
            "true"@,
        ),
        plan::setting("com.apple.dock"@, "show-recents"@, "-bool"@, "false"@),
        plan::setting("com.apple.dock"@, "expose-animation-duration"@, "-float"@, "0.1"@),
        plan::setting("com.apple.dock"@, "mineffect"@, "-string"@, "scale"@),
        ActionView::Run("killall"@, seq!["Dock"@]),
    ]
}

/// A Finder that shows what there is.
pub open spec fn finder_plan() -> Seq<ActionView> {
    seq![
        plan::setting("NSGlobalDomain"@, "AppleShowAllExtensions"@, "-bool"@, "true"@),
        plan::setting("com.apple.finder"@, "ShowPathbar"@, "-bool"@, "true"@),
        plan::setting("com.apple.finder"@, "ShowStatusBar"@, "-bool"@, "true"@),
        plan::setting("com.apple.finder"@, "FXPreferredViewStyle"@, "-string"@, "Nlsv"@),
        plan::setting("com.apple.finder"@, "FXDefaultSearchScope"@, "-string"@, "SCcf"@),
        plan::setting("com.apple.finder"@, "FXEnableExtensionChangeWarning"@, "-bool"@, "false"@),
        plan::setting(
            "com.apple.desktopservices"@,
            "DSDontWriteNetworkStores"@,
            "-bool"@,
            "true"@,
        ),
        plan::setting("com.apple.desktopservices"@, "DSDontWriteUSBStores"@, "-bool"@, "true"@),
        plan::setting("NSGlobalDomain"@, "NSNavPanelExpandedStateForSaveMode"@, "-bool"@, "true"@),
        plan::setting("NSGlobalDomain"@, "NSNavPanelExpandedStateForSaveMode2"@, "-bool"@, "true"@),
        ActionView::Run("killall"@, seq!["Finder"@]),
    ]
}

/// `actions` where `wanted`, else none.
pub open spec fn only_if(wanted: bool, actions: Seq<ActionView>) -> Seq<ActionView> {
    if wanted {
        actions
    } else {
        Seq::empty()
    }
}

/// What the pass over the user interface does: the parts that are switched on, and
/// always the Finder.
pub open spec fn ui_plan(opt: Optimizer, is_root: bool, home: Seq<char>) -> Seq<ActionView> {
    if !opt.enabled {
        Seq::empty()
    } else {
        only_if(opt.quicklook_refresh, quicklook_plan(is_root, home)) + only_if(
            opt.font_cache_rebuild,
            font_plan(home),
        ) + only_if(opt.prevent_network_dsstore, dsstore_plan()) + only_if(
            opt.dock_refresh,
            dock_plan(),
        ) + finder_plan()
    }
}

fn refresh_quicklook(is_root: bool, home: &str) -> (r: Vec<Action>)
    ensures
        text::views(r@) == quicklook_plan(is_root, home@),
{
    let mut r: Vec<Action> = Vec::new();
    r.push(plan::run2("killall", "-9", "qlmanage"));
    r.push(plan::run2("killall", "-9", "QuickLookUIService"));
    r.push(
        Action::Remove(
            paths::home_join(home, "Library/Caches/com.apple.QuickLook.ThumbnailsAgent"),
        ),
    );
    if is_root {
        r.push(plan::run2("qlmanage", "-r", "cache"));
    } else {
        r.push(plan::run1("qlmanage", "-r"));
    }
    assert(text::views(r@) =~= quicklook_plan(is_root, home@));
    r
}

fn rebuild_font_cache(home: &str) -> (r: Vec<Action>)
    ensures
        text::views(r@) == font_plan(home@),
{
    let mut r: Vec<Action> = Vec::new();
    r.push(Action::Remove(paths::home_join(home, "Library/Caches/com.apple.ATS")));
    r.push(plan::run2("atsutil", "databases", "-remove"));
    r.push(plan::run1("killall", "ATSServer"));
    assert(text::views(r@) =~= font_plan(home@));
    r
}

fn prevent_network_dsstore() -> (r: Vec<Action>)
    ensures
        text::views(r@) == dsstore_plan(),
{
    let mut r: Vec<Action> = Vec::new();
    r.push(
        plan::defaults_write(
            "com.apple.desktopservices",
            "DSDontWriteNetworkStores",
            "-bool",
            "true",
        ),
    );
    r.push(
        plan::defaults_write("com.apple.desktopservices", "DSDontWriteUSBStores", "-bool", "true"),
    );
    assert(text::views(r@) =~= dsstore_plan());
    r
}

fn tune_dock() -> (r: Vec<Action>)
    ensures
        text::views(r@) == dock_plan(),
{
    let mut r: Vec<Action> = Vec::new();
    r.push(plan::defaults_write("com.apple.dock", "autohide-delay", "-float", "0"));
    r.push(plan::defaults_write("com.apple.dock", "autohide-time-modifier", "-float", "0.2"));
    r.push(
        plan::defaults_write(
            "com.apple.dock",
            "enable-spring-load-actions-on-all-items",
            "-bool",
            "true",
        ),
    );
    r.push(plan::defaults_write("com.apple.dock", "show-recents", "-bool", "false"));
    r.push(plan::defaults_write("com.apple.dock", "expose-animation-duration", "-float", "0.1"));
    r.push(plan::defaults_write("com.apple.dock", "mineffect", "-string", "scale"));
    r.push(plan::run1("killall", "Dock"));
    assert(text::views(r@) =~= dock_plan());
    r
}

fn tune_finder() -> (r: Vec<Action>)
    ensures
        text::views(r@) == finder_plan(),
{
    let mut r: Vec<Action> = Vec::new();
    r.push(plan::defaults_write("NSGlobalDomain", "AppleShowAllExtensions", "-bool", "true"));
    r.push(plan::defaults_write("com.apple.finder", "ShowPathbar", "-bool", "true"));
    r.push(plan::defaults_write("com.apple.finder", "ShowStatusBar", "-bool", "true"));
    r.push(plan::defaults_write("com.apple.finder", "FXPreferredViewStyle", "-string", "Nlsv"));
    r.push(plan::defaults_write("com.apple.finder", "FXDefaultSearchScope", "-string", "SCcf"));
    r.push(
        plan::defaults_write(
            "com.apple.finder",
            "FXEnableExtensionChangeWarning",
            "-bool",
            "false",
        ),
    );
    let mut stores = prevent_network_dsstore();
    r.append(&mut stores);
    r.push(
        plan::defaults_write(
            "NSGlobalDomain",
            "NSNavPanelExpandedStateForSaveMode",
            "-bool",
            "true",
        ),
    );
    r.push(
        plan::defaults_write(
            "NSGlobalDomain",
            "NSNavPanelExpandedStateForSaveMode2",
            "-bool",
            "true",
        ),
    );
    r.push(plan::run1("killall", "Finder"));
    assert(text::views(r@) =~= finder_plan());
    r
}

/// What the pass over the user interface does.
pub fn apply(cfg: &Config, is_root: bool, home: &str) -> (r: Vec<Action>)
    ensures
        text::views(r@) == ui_plan(cfg.optimizer, is_root, home@),
{
    let opt = &cfg.optimizer;
    let mut r: Vec<Action> = Vec::new();
    if !opt.enabled {
        return r;
    }
    if opt.quicklook_refresh {
        let mut part = refresh_quicklook(is_root, home);
        r.append(&mut part);
    }
    if opt.font_cache_rebuild {
        let mut part = rebuild_font_cache(home);
        r.append(&mut part);
    }
    if opt.prevent_network_dsstore {
        let mut part = prevent_network_dsstore();
        r.append(&mut part);
    }
    if opt.dock_refresh {
        let mut part = tune_dock();
        r.append(&mut part);
    }
    let mut part = tune_finder();
    r.append(&mut part);
    assert(text::views(r@) =~= ui_plan(*opt, is_root, home@));
    r
}

/// The pass never deletes a path directly: it goes through the guarded removal.
pub proof fn ui_pass_deletes_nothing_unguarded(
    opt: Optimizer,
    is_root: bool,
    home: Seq<char>,
    k: int,
)
    requires
        0 <= k < ui_plan(opt, is_root, home).len(),
    ensures
        !(ui_plan(opt, is_root, home)[k] is DeleteFile),
        !(ui_plan(opt, is_root, home)[k] is DeleteTree),
{
    let a = only_if(opt.quicklook_refresh, quicklook_plan(is_root, home));
    let b = only_if(opt.font_cache_rebuild, font_plan(home));
    let c = only_if(opt.prevent_network_dsstore, dsstore_plan());
    let d = only_if(opt.dock_refresh, dock_plan());
    let e = finder_plan();
    assert(ui_plan(opt, is_root, home) == a + b + c + d + e);
}

/// Every part that is switched on is done, the Finder always, and nothing where the
/// optimizer is switched off.
pub proof fn switched_on_parts_are_done(opt: Optimizer, is_root: bool, home: Seq<char>)
    ensures
        ({
            let plan = ui_plan(opt, is_root, home);
            &&& !opt.enabled ==> plan.len() == 0
            &&& opt.enabled ==> {
                &&& opt.quicklook_refresh ==> plan.contains(
                    ActionView::Remove(
                        paths::joined(
                            home,
                            "Library/Caches/com.apple.QuickLook.ThumbnailsAgent"@,
                        ),
                    ),
                )
                &&& opt.font_cache_rebuild ==> plan.contains(
                    ActionView::Remove(paths::joined(home, "Library/Caches/com.apple.ATS"@)),
                )
                &&& opt.prevent_network_dsstore ==> plan.contains(
                    ActionView::Run(
                        "defaults"@,
                        seq![
                            "write"@,
                            "com.apple.desktopservices"@,
                            "DSDontWriteNetworkStores"@,
                            "-bool"@,
                            "true"@,
                        ],
                    ),
                )
                &&& opt.dock_refresh ==> plan.contains(
                    ActionView::Run(
                        "defaults"@,
                        seq!["write"@, "com.apple.dock"@, "autohide-delay"@, "-float"@, "0"@],
                    ),
                ) && plan.contains(ActionView::Run("killall"@, seq!["Dock"@]))
                &&& plan.last() == ActionView::Run("killall"@, seq!["Finder"@])
            }
        }),
{
    let plan = ui_plan(opt, is_root, home);
    let a = only_if(opt.quicklook_refresh, quicklook_plan(is_root, home));
    let b = only_if(opt.font_cache_rebuild, font_plan(home));
    let c = only_if(opt.prevent_network_dsstore, dsstore_plan());
    let d = only_if(opt.dock_refresh, dock_plan());
    let e = finder_plan();
    if opt.enabled {
        assert(plan == a + b + c + d + e);
        if opt.quicklook_refresh {
            assert(plan[2] == a[2]);
        }
        if opt.font_cache_rebuild {
            assert(plan[a.len() as int] == b[0]);
        }
        if opt.prevent_network_dsstore {
            assert(plan[a.len() as int + b.len()] == c[0]);
        }
        if opt.dock_refresh {
            assert(plan[a.len() as int + b.len() + c.len()] == d[0]);
            assert(plan[a.len() as int + b.len() + c.len() + 6] == d[6]);
        }
        assert(plan.last() == e.last());
    }
}

/// Previews and fonts are refreshed by these tools where that is switched on, and the
/// superuser clears the previews of all.
pub proof fn previews_and_fonts_are_refreshed(opt: Optimizer, is_root: bool, home: Seq<char>)
    requires
        opt.enabled,
    ensures
        opt.quicklook_refresh ==> ({
            let plan = ui_plan(opt, is_root, home);
            &&& plan.contains(ActionView::Run("killall"@, seq!["-9"@, "qlmanage"@]))
            &&& plan.contains(ActionView::Run("killall"@, seq!["-9"@, "QuickLookUIService"@]))
            &&& is_root ==> plan.contains(ActionView::Run("qlmanage"@, seq!["-r"@, "cache"@]))
            &&& !is_root ==> plan.contains(ActionView::Run("qlmanage"@, seq!["-r"@]))
        }),
        opt.font_cache_rebuild ==> ({
            let plan = ui_plan(opt, is_root, home);
            &&& plan.contains(ActionView::Run("atsutil"@, seq!["databases"@, "-remove"@]))
            &&& plan.contains(ActionView::Run("killall"@, seq!["ATSServer"@]))
        }),
        opt.prevent_network_dsstore ==> ({
            let plan = ui_plan(opt, is_root, home);
            &&& plan.contains(ActionView::Run("defaults"@, seq!["write"@, "com.apple.desktopservices"@, "DSDontWriteUSBStores"@, "-bool"@, "true"@]))
        }),
{
    let plan = ui_plan(opt, is_root, home);
    let a = only_if(opt.quicklook_refresh, quicklook_plan(is_root, home));
    let b = only_if(opt.font_cache_rebuild, font_plan(home));
    let c = only_if(opt.prevent_network_dsstore, dsstore_plan());
    if opt.quicklook_refresh {
        assert(plan[0] == a[0] && plan[1] == a[1] && plan[3] == a[3]);
    }
    if opt.font_cache_rebuild {
        let n = a.len() as int;
        assert(plan[n + 1] == b[1] && plan[n + 2] == b[2]);
    }
    if opt.prevent_network_dsstore {
        let n = a.len() as int + b.len();
        assert(plan[n + 1] == c[1]);
    }
}

/// The Dock gets these settings where that is switched on, before it is started again.
pub proof fn the_dock_is_tuned(opt: Optimizer, is_root: bool, home: Seq<char>)
    requires
        opt.enabled,
        opt.dock_refresh,
    ensures
        ({
            let plan = ui_plan(opt, is_root, home);
            &&& plan.contains(ActionView::Run("defaults"@, seq!["write"@, "com.apple.dock"@, "autohide-time-modifier"@, "-float"@, "0.2"@]))
            &&& plan.contains(ActionView::Run("defaults"@, seq!["write"@, "com.apple.dock"@, "enable-spring-load-actions-on-all-items"@, "-bool"@, "true"@]))
            &&& plan.contains(ActionView::Run("defaults"@, seq!["write"@, "com.apple.dock"@, "show-recents"@, "-bool"@, "false"@]))
            &&& plan.contains(ActionView::Run("defaults"@, seq!["write"@, "com.apple.dock"@, "expose-animation-duration"@, "-float"@, "0.1"@]))
            &&& plan.contains(ActionView::Run("defaults"@, seq!["write"@, "com.apple.dock"@, "mineffect"@, "-string"@, "scale"@]))
        }),
{
    let plan = ui_plan(opt, is_root, home);
    let a = only_if(opt.quicklook_refresh, quicklook_plan(is_root, home));
    let b = only_if(opt.font_cache_rebuild, font_plan(home));
    let c = only_if(opt.prevent_network_dsstore, dsstore_plan());
    let d = dock_plan();
    let n = a.len() as int + b.len() + c.len();
    assert(plan[n + 1] == d[1] && plan[n + 2] == d[2] && plan[n + 3] == d[3] && plan[n + 4] == d[4]
        && plan[n + 5] == d[5]);
}

/// The Finder always gets these settings, and no part does more than it is for.
pub proof fn the_finder_is_tuned(opt: Optimizer, is_root: bool, home: Seq<char>)
    requires
        opt.enabled,
    ensures
        ({
            let plan = ui_plan(opt, is_root, home);
            &&& plan.contains(ActionView::Run("defaults"@, seq!["write"@, "NSGlobalDomain"@, "AppleShowAllExtensions"@, "-bool"@, "true"@]))
            &&& plan.contains(ActionView::Run("defaults"@, seq!["write"@, "com.apple.finder"@, "ShowPathbar"@, "-bool"@, "true"@]))
            &&& plan.contains(ActionView::Run("defaults"@, seq!["write"@, "com.apple.finder"@, "ShowStatusBar"@, "-bool"@, "true"@]))
            &&& plan.contains(ActionView::Run("defaults"@, seq!["write"@, "com.apple.finder"@, "FXPreferredViewStyle"@, "-string"@, "Nlsv"@]))
            &&& plan.contains(ActionView::Run("defaults"@, seq!["write"@, "com.apple.finder"@, "FXDefaultSearchScope"@, "-string"@, "SCcf"@]))
            &&& plan.contains(ActionView::Run("defaults"@, seq!["write"@, "com.apple.finder"@, "FXEnableExtensionChangeWarning"@, "-bool"@, "false"@]))
            &&& plan.contains(ActionView::Run("defaults"@, seq!["write"@, "com.apple.desktopservices"@, "DSDontWriteNetworkStores"@, "-bool"@, "true"@]))
            &&& plan.contains(ActionView::Run("defaults"@, seq!["write"@, "com.apple.desktopservices"@, "DSDontWriteUSBStores"@, "-bool"@, "true"@]))
            &&& plan.contains(ActionView::Run("defaults"@, seq!["write"@, "NSGlobalDomain"@, "NSNavPanelExpandedStateForSaveMode"@, "-bool"@, "true"@]))
            &&& plan.contains(ActionView::Run("defaults"@, seq!["write"@, "NSGlobalDomain"@, "NSNavPanelExpandedStateForSaveMode2"@, "-bool"@, "true"@]))
            &&& plan.len() == 11 + (if opt.quicklook_refresh {
                4int
            } else {
                0
            }) + (if opt.font_cache_rebuild {
                3int
            } else {
                0
            }) + (if opt.prevent_network_dsstore {
                2int
            } else {
                0
            }) + (if opt.dock_refresh {
                7int
            } else {
                0
            })
        }),
{
    let plan = ui_plan(opt, is_root, home);
    let a = only_if(opt.quicklook_refresh, quicklook_plan(is_root, home));
    let b = only_if(opt.font_cache_rebuild, font_plan(home));
    let c = only_if(opt.prevent_network_dsstore, dsstore_plan());
    let d = only_if(opt.dock_refresh, dock_plan());
    let e = finder_plan();
    let n = a.len() as int + b.len() + c.len() + d.len();
    assert(plan[n] == e[0] && plan[n + 1] == e[1] && plan[n + 2] == e[2] && plan[n + 3] == e[3]
        && plan[n + 4] == e[4] && plan[n + 5] == e[5] && plan[n + 6] == e[6] && plan[n + 7] == e[7]
        && plan[n + 8] == e[8] && plan[n + 9] == e[9]);
}

} // verus!
