//! Notifications: apps that the user has neither whitelisted nor configured show
//! banners at most, unwanted ones nothing.

use vstd::prelude::*;
use crate::config::{Config, RogueList, Silence, Whitelist};
use crate::plan::{Action, ActionView};
use crate::{guard, plan, text};

verus! {

broadcast use crate::text::group_views;

/// How far an app is restricted.
#[derive(Debug, Clone, Copy, PartialEq, Eq, Structural)]
pub enum Restriction {
    /// Not at all.
    Allowed,
    /// To banners, without badge and sound.
    Banners,
    /// To nothing.
    Muted,
}

/// How far an app is restricted. Whitelisted and critical apps are not, nor those that
/// the user has configured by an override, whatever it says.
pub open spec fn restriction(bid: Seq<char>, w: Whitelist, s: Silence, rogue: RogueList) -> Restriction {
    if text::views(w.bundle_ids@).contains(bid) || guard::critical_bundle(bid)
        || s.per_app_overrides@.contains_key(bid) {
        Restriction::Allowed
    } else if text::views(rogue.bundle_ids@).contains(bid) {
        Restriction::Muted
    } else {
        Restriction::Banners
    }
}

/// `defaults write com.apple.notificationcenterui.<bundle> <key> <value>`.
pub open spec fn nc_setting(bid: Seq<char>, key: Seq<char>, value: Seq<char>) -> ActionView {
    ActionView::Run(
        "defaults"@,
        seq!["write"@, "com.apple.notificationcenterui."@ + bid, key, value],
    )
}

/// The settings for a restriction.
pub open spec fn restriction_plan(bid: Seq<char>, r: Restriction) -> Seq<ActionView> {
    match r {
        Restriction::Allowed => Seq::empty(),
        Restriction::Banners => seq![
            nc_setting(bid, "alert-style"@, "banner"@),
            nc_setting(bid, "badge-enabled"@, "0"@),
            nc_setting(bid, "sound-enabled"@, "0"@),
            nc_setting(bid, "critical-alert-enabled"@, "0"@),
        ],
        Restriction::Muted => seq![
            nc_setting(bid, "alert-style"@, "none"@),
            nc_setting(bid, "badge-enabled"@, "0"@),
            nc_setting(bid, "sound-enabled"@, "0"@),
        ],
    }
}

/// The settings for the first `n` apps.
pub open spec fn settings(ids: Seq<Seq<char>>, cfg: Config, n: int) -> Seq<ActionView>
    decreases n,
{
    if n <= 0 {
        Seq::empty()
    } else {
        settings(ids, cfg, n - 1) + restriction_plan(
            ids[n - 1],
            restriction(ids[n - 1], cfg.whitelist, cfg.silence, cfg.rogue_list),
        )
    }
}

/// Restricts the registered apps and has the notification center read its preferences
/// again.
pub open spec fn restrict_plan(ids: Seq<Seq<char>>, cfg: Config) -> Seq<ActionView> {
    if cfg.silence.block_notifications {
        settings(ids, cfg, ids.len() as int).push(
            ActionView::Run("killall"@, seq!["-HUP"@, "NotificationCenter"@]),
        )
    } else {
        Seq::empty()
    }
}

fn classify(bid: &str, cfg: &Config) -> (r: Restriction)
    ensures
        r == restriction(bid@, cfg.whitelist, cfg.silence, cfg.rogue_list),
{
    if cfg.whitelist.contains_bundle(bid) || guard::is_critical_bundle(bid) {
        return Restriction::Allowed;
    }
    if cfg.silence.override_for(bid).is_some() {
        return Restriction::Allowed;
    }
    if text::is_any(bid, &cfg.rogue_list.bundle_ids) {
        Restriction::Muted
    } else {
        Restriction::Banners
    }
}

fn nc_write(bid: &str, key: &str, value: &str) -> (r: Action)
    ensures
        r@ == nc_setting(bid@, key@, value@),
{
    let domain = text::join2("com.apple.notificationcenterui.", bid);
    plan::run4("defaults", "write", domain.as_str(), key, value)
}

fn notification_banner_only(bid: &str) -> (r: Vec<Action>)
    ensures
        text::views(r@) == restriction_plan(bid@, Restriction::Banners),
{
    let mut r: Vec<Action> = Vec::new();
    r.push(nc_write(bid, "alert-style", "banner"));
    r.push(nc_write(bid, "badge-enabled", "0"));
    r.push(nc_write(bid, "sound-enabled", "0"));
    r.push(nc_write(bid, "critical-alert-enabled", "0"));
    assert(text::views(r@) =~= restriction_plan(bid@, Restriction::Banners));
    r
}

fn notification_disable(bid: &str) -> (r: Vec<Action>)
    ensures
        text::views(r@) == restriction_plan(bid@, Restriction::Muted),
{
    let mut r: Vec<Action> = Vec::new();
    r.push(nc_write(bid, "alert-style", "none"));
    r.push(nc_write(bid, "badge-enabled", "0"));
    r.push(nc_write(bid, "sound-enabled", "0"));
    assert(text::views(r@) =~= restriction_plan(bid@, Restriction::Muted));
    r
}

/// Restricts the apps that are registered with the notification center.
pub fn restrict(cfg: &Config, registered: &Vec<String>) -> (r: Vec<Action>)
    ensures
        text::views(r@) == restrict_plan(text::views(registered@), *cfg),
{
    let mut r: Vec<Action> = Vec::new();
    if !cfg.silence.block_notifications {
        return r;
    }
    let ghost ids = text::views(registered@);
    let mut i: usize = 0;
    while i < registered.len()
        invariant
            i <= registered@.len(),
            ids == text::views(registered@),
            text::views(r@) == settings(ids, *cfg, i as int),
        decreases registered.len() - i,
    {
        let bid: &str = registered[i].as_str();
        assert(ids[i as int] == bid@);
        let ghost before = text::views(r@);
        match classify(bid, cfg) {
            Restriction::Allowed => {
                assert(before + restriction_plan(bid@, Restriction::Allowed) =~= before);
            },
            Restriction::Banners => {
                let mut part = notification_banner_only(bid);
                r.append(&mut part);
            },
            Restriction::Muted => {
                let mut part = notification_disable(bid);
                r.append(&mut part);
            },
        }
        i = i + 1;
    }
    r.push(plan::run2("killall", "-HUP", "NotificationCenter"));
    r
}

/// Whitelisted and critical apps, and those that the user has configured, are never
/// touched; any other app is restricted, and an unwanted one completely.
pub proof fn configured_apps_are_untouched(
    bid: Seq<char>,
    w: Whitelist,
    s: Silence,
    rogue: RogueList,
)
    ensures
        ({
            let spared = text::views(w.bundle_ids@).contains(bid) || guard::critical_bundle(bid)
                || s.per_app_overrides@.contains_key(bid);
            let plan = restriction_plan(bid, restriction(bid, w, s, rogue));
            &&& spared <==> plan == Seq::<ActionView>::empty()
            &&& !spared && text::views(rogue.bundle_ids@).contains(bid) ==> plan
                == restriction_plan(bid, Restriction::Muted)
            &&& !spared && !text::views(rogue.bundle_ids@).contains(bid) ==> plan
                == restriction_plan(bid, Restriction::Banners)
        }),
{
    assert(restriction_plan(bid, Restriction::Muted).len() == 3);
    assert(restriction_plan(bid, Restriction::Banners).len() == 4);
}

/// Every registered app that is neither whitelisted nor critical nor configured by the
/// user is restricted: an unwanted one to nothing, any other to banners, without badge and
/// sound. Then the notification center reads its preferences again.
pub proof fn every_other_app_is_restricted(ids: Seq<Seq<char>>, cfg: Config, i: int)
    requires
        cfg.silence.block_notifications,
        0 <= i < ids.len(),
        !text::views(cfg.whitelist.bundle_ids@).contains(ids[i]),
        !guard::critical_bundle(ids[i]),
        !cfg.silence.per_app_overrides@.contains_key(ids[i]),
    ensures
        ({
            let plan = restrict_plan(ids, cfg);
            let domain = "com.apple.notificationcenterui."@ + ids[i];
            let style = if text::views(cfg.rogue_list.bundle_ids@).contains(ids[i]) {
                "none"@
            } else {
                "banner"@
            };
            &&& plan.contains(
                ActionView::Run("defaults"@, seq!["write"@, domain, "alert-style"@, style]),
            )
            &&& plan.contains(
                ActionView::Run("defaults"@, seq!["write"@, domain, "badge-enabled"@, "0"@]),
            )
            &&& plan.contains(
                ActionView::Run("defaults"@, seq!["write"@, domain, "sound-enabled"@, "0"@]),
            )
            &&& !text::views(cfg.rogue_list.bundle_ids@).contains(ids[i]) ==> plan.contains(
                ActionView::Run(
                    "defaults"@,
                    seq!["write"@, domain, "critical-alert-enabled"@, "0"@],
                ),
            )
            &&& plan.last() == ActionView::Run("killall"@, seq!["-HUP"@, "NotificationCenter"@])
        }),
{
    let n = ids.len() as int;
    let part = restriction_plan(
        ids[i],
        restriction(ids[i], cfg.whitelist, cfg.silence, cfg.rogue_list),
    );
    let plan = restrict_plan(ids, cfg);
    let k = lemma_settings_hold(ids, cfg, n, i);
    assert forall|j: int| 0 <= j < part.len() implies plan[k + j] == #[trigger] part[j] by {
        assert(plan[k + j] == settings(ids, cfg, n)[k + j]);
    }
    assert(plan[k] == part[0]);
    assert(plan[k + 1] == part[1]);
    assert(plan[k + 2] == part[2]);
    if part.len() > 3 {
        assert(plan[k + 3] == part[3]);
    }
}

proof fn lemma_settings_hold(ids: Seq<Seq<char>>, cfg: Config, n: int, i: int) -> (k: int)
    requires
        0 <= i < n <= ids.len(),
    ensures
        ({
            let part = restriction_plan(
                ids[i],
                restriction(ids[i], cfg.whitelist, cfg.silence, cfg.rogue_list),
            );
            &&& 0 <= k
            &&& k + part.len() <= settings(ids, cfg, n).len()
            &&& forall|j: int|
                0 <= j < part.len() ==> settings(ids, cfg, n)[k + j] == #[trigger] part[j]
        }),
    decreases n,
{
    if i < n - 1 {
        lemma_settings_hold(ids, cfg, n - 1, i)
    } else {
        settings(ids, cfg, n - 1).len() as int
    }
}

/// Nothing is written for any app that is whitelisted, critical or configured: every
/// setting but the last action is for a registered app that is none of these.
pub proof fn nothing_is_written_for_spared_apps(ids: Seq<Seq<char>>, cfg: Config, n: int, k: int)
    requires
        0 <= n <= ids.len(),
        0 <= k < settings(ids, cfg, n).len(),
    ensures
        exists|i: int|
            0 <= i < n && !text::views(cfg.whitelist.bundle_ids@).contains(#[trigger] ids[i])
                && !guard::critical_bundle(ids[i])
                && !cfg.silence.per_app_overrides@.contains_key(ids[i]) && (settings(
                ids,
                cfg,
                n,
            )[k] matches ActionView::Run(program, args) && program == "defaults"@ && args.len()
                == 4 && args[0] == "write"@ && args[1] == "com.apple.notificationcenterui."@
                + ids[i]),
        !cfg.silence.block_notifications ==> restrict_plan(ids, cfg).len() == 0,
    decreases n,
{
    if n > 0 {
        let before = settings(ids, cfg, n - 1);
        if k < before.len() {
            nothing_is_written_for_spared_apps(ids, cfg, n - 1, k);
        } else {
            let part = restriction_plan(
                ids[n - 1],
                restriction(ids[n - 1], cfg.whitelist, cfg.silence, cfg.rogue_list),
            );
            assert(settings(ids, cfg, n)[k] == part[k - before.len()]);
            let j = k - before.len();
            assert(j == 0 || j == 1 || j == 2 || j == 3);
            assert(!text::views(cfg.whitelist.bundle_ids@).contains(ids[n - 1]));
        }
    }
}

/// Apps are restricted in the order in which they are registered: the settings for more
/// apps follow those for the others, none for an app that is spared, three for an unwanted
/// one, and four for any other.
pub proof fn apps_are_restricted_in_order(ids: Seq<Seq<char>>, cfg: Config, n: int)
    requires
        0 <= n < ids.len(),
    ensures
        ({
            let before = settings(ids, cfg, n);
            let all = settings(ids, cfg, n + 1);
            let spared = text::views(cfg.whitelist.bundle_ids@).contains(ids[n])
                || guard::critical_bundle(ids[n]) || cfg.silence.per_app_overrides@.contains_key(
                ids[n],
            );
            &&& settings(ids, cfg, 0).len() == 0
            &&& before.is_prefix_of(all)
            &&& all.len() == before.len() + (if spared {
                0int
            } else if text::views(cfg.rogue_list.bundle_ids@).contains(ids[n]) {
                3
            } else {
                4
            })
        }),
{
    let before = settings(ids, cfg, n);
    let all = settings(ids, cfg, n + 1);
    assert(all.subrange(0, before.len() as int) =~= before);
}

} // verus!
