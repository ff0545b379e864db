//! The view command core: which targets are worth displaying — those whose
//! stored configuration would actually be persisted.

use vstd::prelude::*;

use crate::libhooker::{spec_should_skip, ConfigTypes, Target, TargetV, TweakConfig};

verus! {

/// The path targets whose configurations would be persisted, in key order.
pub open spec fn kept_paths(s: Seq<(Seq<char>, TweakConfig)>) -> Seq<TargetV>
    decreases s.len(),
{
    if s.len() == 0 {
        Seq::empty()
    } else {
        let rest = kept_paths(s.drop_last());
        if !spec_should_skip(s.last().1@) {
            rest.push(TargetV::Executable(s.last().0))
        } else {
            rest
        }
    }
}

/// The bundle targets whose configurations would be persisted, in key order.
pub open spec fn kept_bundles(s: Seq<(Seq<char>, TweakConfig)>) -> Seq<TargetV>
    decreases s.len(),
{
    if s.len() == 0 {
        Seq::empty()
    } else {
        let rest = kept_bundles(s.drop_last());
        if !spec_should_skip(s.last().1@) {
            rest.push(TargetV::App(s.last().0))
        } else {
            rest
        }
    }
}

/// Every target with a configuration worth displaying: the default
/// configuration where it would be persisted, then the stored paths, then
/// the stored bundles, each filtered the same way.
pub open spec fn spec_view_targets(cfg: &ConfigTypes) -> Seq<TargetV> {
    (if !spec_should_skip(cfg.default@) {
        seq![TargetV::Default]
    } else {
        Seq::<TargetV>::empty()
    }) + kept_paths(cfg.paths@) + kept_bundles(cfg.bundles@)
}

/// Collect the targets to display when no single target was named.
pub fn targets_to_view(cfg: &ConfigTypes) -> (r: Vec<Target>)
    requires
        cfg.wf(),
    ensures
        r@.len() == spec_view_targets(cfg).len(),
        forall|j: int| 0 <= j < r@.len() ==> (#[trigger] r@[j])@ == spec_view_targets(cfg)[j],
{
    let ghost head: Seq<TargetV> = if !spec_should_skip(cfg.default@) {
        seq![TargetV::Default]
    } else {
        Seq::<TargetV>::empty()
    };
    let mut out: Vec<Target> = Vec::new();
    if !cfg.default.should_skip() {
        out.push(Target::Default);
    }
    let np: usize = cfg.paths.len();
    let mut i: usize = 0;
    while i < np
        invariant
            0 <= i <= np,
            np == cfg.paths@.len(),
            cfg.wf(),
            out@.len() == head.len() + kept_paths(cfg.paths@.subrange(0, i as int)).len(),
            forall|j: int|
                0 <= j < out@.len() ==> (#[trigger] out@[j])@ == (head + kept_paths(
                    cfg.paths@.subrange(0, i as int),
                ))[j],
        decreases np - i,
    {
        let ghost sub = cfg.paths@.subrange(0, i as int);
        let keep = !cfg.paths.val_at(i).should_skip();
        if keep {
            let key = cfg.paths.key_at(i).clone();
            out.push(Target::Executable(key));
        }
        proof {
            let sub1 = cfg.paths@.subrange(0, i + 1);
            assert(sub1.drop_last() =~= sub);
            assert(sub1.last() == cfg.paths@[i as int]);
            if keep {
                assert(head + kept_paths(sub1) =~= (head + kept_paths(sub)).push(
                    TargetV::Executable(cfg.paths@[i as int].0),
                ));
            }
        }
        i = i + 1;
    }
    proof {
        assert(cfg.paths@.subrange(0, np as int) =~= cfg.paths@);
    }
    let ghost mid: Seq<TargetV> = head + kept_paths(cfg.paths@);
    let nb: usize = cfg.bundles.len();
    let mut i: usize = 0;
    while i < nb
        invariant
            0 <= i <= nb,
            nb == cfg.bundles@.len(),
            cfg.wf(),
            out@.len() == mid.len() + kept_bundles(cfg.bundles@.subrange(0, i as int)).len(),
            forall|j: int|
                0 <= j < out@.len() ==> (#[trigger] out@[j])@ == (mid + kept_bundles(
                    cfg.bundles@.subrange(0, i as int),
                ))[j],
        decreases nb - i,
    {
        let ghost sub = cfg.bundles@.subrange(0, i as int);
        let keep = !cfg.bundles.val_at(i).should_skip();
        if keep {
            let key = cfg.bundles.key_at(i).clone();
            out.push(Target::App(key));
        }
        proof {
            let sub1 = cfg.bundles@.subrange(0, i + 1);
            assert(sub1.drop_last() =~= sub);
            assert(sub1.last() == cfg.bundles@[i as int]);
            if keep {
                assert(mid + kept_bundles(sub1) =~= (mid + kept_bundles(sub)).push(
                    TargetV::App(cfg.bundles@[i as int].0),
                ));
            }
        }
        i = i + 1;
    }
    proof {
        assert(cfg.bundles@.subrange(0, nb as int) =~= cfg.bundles@);
        assert(mid + kept_bundles(cfg.bundles@) =~= spec_view_targets(cfg));
    }
    out
}

} // verus!
