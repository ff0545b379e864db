//! The compat command core: merge per-plugin compatibility-mode changes into
//! the global overrides, then prune the entries equal to the default.
//!
//! Pruning is invisible to lookups: an entry holding the default answers a
//! lookup exactly as its absence would. [`compat`]'s last clause states that
//! equivalence for every name.

use vstd::prelude::*;

use crate::libhooker::{spec_compat_mode, LibhookerConfig, COMPAT_LIBHOOKER, COMPAT_SUBSTRATE};
use crate::smap::{get_val, has_key, lemma_key_idx, lemma_wf_unique, SMap};

verus! {

/// The compatibility mode a plugin ends up with after the stored overrides
/// are extended by the changes: the changed value, else the stored value,
/// else the default.
pub open spec fn spec_merged_mode(
    stored: Seq<(Seq<char>, bool)>,
    ch: Seq<(Seq<char>, bool)>,
    key: Seq<char>,
) -> bool {
    if has_key(ch, key) {
        get_val(ch, key)
    } else if has_key(stored, key) {
        get_val(stored, key)
    } else {
        COMPAT_LIBHOOKER
    }
}

/// Apply one compat command: merge the changes in, then drop every entry
/// that holds the default, whose storage would change nothing.
pub fn compat(config: &mut LibhookerConfig, changes: &SMap<bool>)
    requires
        old(config).wf(),
        changes.wf(),
    ensures
        final(config).wf(),
        final(config).tweak_configs == old(config).tweak_configs,
        final(config).web_process_tweaks == old(config).web_process_tweaks,
        forall|key: Seq<char>|
            #[trigger] has_key(final(config).memory_compat_prefs@, key) == (spec_merged_mode(
                old(config).memory_compat_prefs@,
                changes@,
                key,
            ) == COMPAT_SUBSTRATE && (has_key(old(config).memory_compat_prefs@, key) || has_key(
                changes@,
                key,
            ))),
        forall|key: Seq<char>|
            has_key(final(config).memory_compat_prefs@, key) ==> #[trigger] get_val(
                final(config).memory_compat_prefs@,
                key,
            ) == COMPAT_SUBSTRATE,
        forall|key: Seq<char>|
            #[trigger] spec_compat_mode(final(config).memory_compat_prefs@, key)
                == spec_merged_mode(old(config).memory_compat_prefs@, changes@, key),
{
    config.memory_compat_prefs.extend(changes);
    let ghost merged = config.memory_compat_prefs@;
    let ghost stored = old(config).memory_compat_prefs@;
    let mut pruned: SMap<bool> = SMap::new();
    let n: usize = config.memory_compat_prefs.len();
    let mut i: usize = 0;
    while i < n
        invariant
            0 <= i <= n,
            n == merged.len(),
            config.memory_compat_prefs@ == merged,
            config.memory_compat_prefs.wf(),
            pruned.wf(),
            forall|key: Seq<char>|
                #[trigger] has_key(pruned@, key) == (has_key(merged.subrange(0, i as int), key)
                    && get_val(merged, key) == COMPAT_SUBSTRATE),
            forall|key: Seq<char>|
                has_key(pruned@, key) ==> #[trigger] get_val(pruned@, key) == COMPAT_SUBSTRATE,
        decreases n - i,
    {
        let ghost subi = merged.subrange(0, i as int);
        let key = config.memory_compat_prefs.key_at(i).clone();
        let val = *config.memory_compat_prefs.val_at(i);
        proof {
            lemma_wf_unique(merged);
            assert(has_key(merged, merged[i as int].0)) by {
                assert(merged[i as int].0 == merged[i as int].0);
            }
            lemma_key_idx(merged, merged[i as int].0);
            assert(get_val(merged, merged[i as int].0) == merged[i as int].1);
        }
        if val == COMPAT_SUBSTRATE {
            pruned.insert(key, val);
        }
        proof {
            let subi1 = merged.subrange(0, i + 1);
            assert forall|key2: Seq<char>| #[trigger]
                has_key(subi1, key2) == (has_key(subi, key2) || merged[i as int].0 == key2) by {
                if has_key(subi1, key2) {
                    let w = choose|w: int| 0 <= w < subi1.len() && (#[trigger] subi1[w]).0 == key2;
                    if w < i {
                        assert(subi[w].0 == key2);
                    }
                }
                if has_key(subi, key2) {
                    let w = choose|w: int| 0 <= w < subi.len() && (#[trigger] subi[w]).0 == key2;
                    assert(subi1[w].0 == key2);
                }
                if merged[i as int].0 == key2 {
                    assert(subi1[i as int].0 == key2);
                }
            }
        }
        i = i + 1;
    }
    proof {
        assert(merged.subrange(0, n as int) =~= merged);
    }
    config.memory_compat_prefs = pruned;
    proof {
        assert forall|key: Seq<char>| #[trigger]
            spec_compat_mode(config.memory_compat_prefs@, key) == spec_merged_mode(
            stored,
            changes@,
            key,
        ) by {
            if has_key(config.memory_compat_prefs@, key) {
            } else {
                if has_key(merged, key) {
                    assert(get_val(merged, key) != COMPAT_SUBSTRATE);
                }
            }
        }
    }
}

} // verus!
