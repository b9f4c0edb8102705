//! The network stack: name caches, address and routing tables.

use vstd::prelude::*;
use crate::config::Config;
use crate::plan::{Action, ActionView};
use crate::{plan, text};

verus! {

broadcast use crate::text::group_views;

/// Empties the caches for names.
pub open spec fn dns_plan(enabled: bool) -> Seq<ActionView> {
    if enabled {
        seq![
            ActionView::Run("killall"@, seq!["-HUP"@, "mDNSResponder"@]),
            ActionView::Run("dscacheutil"@, seq!["-flushcache"@]),
            ActionView::Run("killall"@, seq!["-INFO"@, "mDNSResponder"@]),
            ActionView::Run("dns-sd"@, seq!["-V"@]),
        ]
    } else {
        Seq::empty()
    }
}

/// Empties the caches for names.
pub fn flush_dns(cfg: &Config) -> (r: Vec<Action>)
    ensures
        text::views(r@) == dns_plan(cfg.optimizer.flush_dns),
{
    let mut r: Vec<Action> = Vec::new();
    if cfg.optimizer.flush_dns {
        r.push(plan::run2("killall", "-HUP", "mDNSResponder"));
        r.push(plan::run1("dscacheutil", "-flushcache"));
        r.push(plan::run2("killall", "-INFO", "mDNSResponder"));
        r.push(plan::run1("dns-sd", "-V"));
    }
    assert(text::views(r@) =~= dns_plan(cfg.optimizer.flush_dns));
    r
}

/// Empties the tables for addresses and routes, which only the superuser can, and
/// resets the statistics.
pub open spec fn stack_plan(enabled: bool, is_root: bool) -> Seq<ActionView> {
    let tables = seq![
        ActionView::Run("arp"@, seq!["-ad"@]),
        ActionView::Run("route"@, seq!["-n"@, "flush"@]),
    ];
    let statistics = seq![ActionView::Run("nettop"@, seq!["-P"@, "-L"@, "0"@])];
    if !enabled {
        Seq::empty()
    } else if is_root {
        tables + statistics
    } else {
        statistics
    }
}

/// Empties the tables for addresses and routes and resets the statistics.
pub fn reset_stack(cfg: &Config, is_root: bool) -> (r: Vec<Action>)
    ensures
        text::views(r@) == stack_plan(cfg.optimizer.flush_dns, is_root),
{
    let mut r: Vec<Action> = Vec::new();
    if cfg.optimizer.flush_dns {
        if is_root {
            r.push(plan::run1("arp", "-ad"));
            r.push(plan::run2("route", "-n", "flush"));
        }
        r.push(plan::run3("nettop", "-P", "-L", "0"));
    }
    assert(text::views(r@) =~= stack_plan(cfg.optimizer.flush_dns, is_root));
    r
}

/// Without the rights of the superuser no table is touched.
pub proof fn tables_need_the_superuser(enabled: bool, k: int)
    requires
        0 <= k < stack_plan(enabled, false).len(),
    ensures
        stack_plan(enabled, false)[k] == ActionView::Run("nettop"@, seq!["-P"@, "-L"@, "0"@]),
{
}

/// Where names are to be flushed, their caches are emptied by these tools, whoever asks;
/// the tables for addresses and routes by the superuser only, and the statistics always.
pub proof fn caches_are_flushed(is_root: bool)
    ensures
        dns_plan(false).len() == 0,
        stack_plan(false, is_root).len() == 0,
        dns_plan(true).contains(ActionView::Run("killall"@, seq!["-HUP"@, "mDNSResponder"@])),
        dns_plan(true).contains(ActionView::Run("dscacheutil"@, seq!["-flushcache"@])),
        dns_plan(true).contains(ActionView::Run("killall"@, seq!["-INFO"@, "mDNSResponder"@])),
        dns_plan(true).contains(ActionView::Run("dns-sd"@, seq!["-V"@])),
        dns_plan(true).len() == 4,
        is_root ==> stack_plan(true, is_root).contains(ActionView::Run("arp"@, seq!["-ad"@])),
        is_root ==> stack_plan(true, is_root).contains(
            ActionView::Run("route"@, seq!["-n"@, "flush"@]),
        ),
        stack_plan(true, is_root).len() == (if is_root {
            3int
        } else {
            1
        }),
        stack_plan(true, is_root).last() == ActionView::Run(
            "nettop"@,
            seq!["-P"@, "-L"@, "0"@],
        ),
{
    assert(dns_plan(true)[0] is Run && dns_plan(true)[1] is Run && dns_plan(true)[2] is Run
        && dns_plan(true)[3] is Run);
    assert(stack_plan(true, true)[0] is Run && stack_plan(true, true)[1] is Run);
}

} // verus!
