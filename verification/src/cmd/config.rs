//! The configure command core: resolve the add/remove name lists into one
//! batch of flag changes, and merge them into the target's configuration.

use vstd::prelude::*;

use crate::libhooker::{
    is_fresh_for, plugin_named, spec_slot, spec_slot_has, LibhookerConfig, Target, TargetV,
    TweakConfig, TweakMode,
};
use crate::smap::{get_val, has_key, map_extended, SMap};
use crate::tweaks::{contains_name, fix_tweak_name, spec_fix_tweak_name};

verus! {

/// The list a name list stands for: the literal name `all` stands for every
/// known plugin.
pub open spec fn effective(names: Seq<String>, plugins: Seq<String>) -> Seq<String> {
    if plugin_named(names, "all"@) {
        plugins
    } else {
        names
    }
}

/// Whether some name in the list resolves to this canonical plugin name.
pub open spec fn resolves_to(names: Seq<String>, plugins: Seq<String>, key: Seq<char>) -> bool {
    exists|i: int|
        0 <= i < names.len() && spec_fix_tweak_name((#[trigger] names[i])@, plugins) == Some(key)
}

/// Whether every name in the list resolves to some plugin.
pub open spec fn all_resolve(names: Seq<String>, plugins: Seq<String>) -> bool {
    forall|i: int|
        0 <= i < names.len() ==> spec_fix_tweak_name((#[trigger] names[i])@, plugins) is Some
}

/// Resolve the add and remove name lists and batch them into one change map:
/// an added plugin's flag is set, a removed plugin's flag is cleared, and a
/// plugin named on both sides is treated as removed, the remove list being
/// applied after the add list. `Err` carries a name that resolves to no
/// installed plugin; the caller treats it as a fatal user-input error.
#[verifier::loop_isolation(false)]
pub fn resolve_changes(add: &Vec<String>, remove: &Vec<String>, plugins: &Vec<String>) -> (r:
    Result<SMap<bool>, String>)
    ensures
        match r {
            Ok(m) => {
                let ea = effective(add@, plugins@);
                let er = effective(remove@, plugins@);
                &&& m.wf()
                &&& all_resolve(ea, plugins@)
                &&& all_resolve(er, plugins@)
                &&& forall|key: Seq<char>|
                    #[trigger] has_key(m@, key) == (resolves_to(ea, plugins@, key) || resolves_to(
                        er,
                        plugins@,
                        key,
                    ))
                &&& forall|key: Seq<char>|
                    resolves_to(er, plugins@, key) ==> #[trigger] get_val(m@, key) == false
                &&& forall|key: Seq<char>|
                    resolves_to(ea, plugins@, key) && !resolves_to(er, plugins@, key)
                        ==> #[trigger] get_val(m@, key) == true
            },
            Err(name) => (plugin_named(effective(add@, plugins@), name@) || plugin_named(
                effective(remove@, plugins@),
                name@,
            )) && spec_fix_tweak_name(name@, plugins@) is None,
        },
{
    let eff_add: &Vec<String> = if contains_name(add, "all") {
        plugins
    } else {
        add
    };
    let eff_rem: &Vec<String> = if contains_name(remove, "all") {
        plugins
    } else {
        remove
    };
    let ghost ea = effective(add@, plugins@);
    let ghost er = effective(remove@, plugins@);
    proof {
        assert(eff_add@ == ea);
        assert(eff_rem@ == er);
    }
    let mut m: SMap<bool> = SMap::new();
    let na: usize = eff_add.len();
    let mut i: usize = 0;
    while i < na
        invariant
            0 <= i <= na,
            na == ea.len(),
            eff_add@ == ea,
            m.wf(),
            all_resolve(ea.subrange(0, i as int), plugins@),
            forall|key: Seq<char>|
                #[trigger] has_key(m@, key) == resolves_to(ea.subrange(0, i as int), plugins@, key),
            forall|key: Seq<char>|
                has_key(m@, key) ==> #[trigger] get_val(m@, key) == true,
        decreases na - i,
    {
        let ghost subi = ea.subrange(0, i as int);
        match fix_tweak_name(eff_add[i].as_str(), plugins) {
            Some(nm) => {
                let ghost nmv = nm@;
                m.insert(nm, true);
                proof {
                    let subi1 = ea.subrange(0, i + 1);
                    assert(subi1.drop_last() =~= subi);
                    assert forall|j: int| 0 <= j < subi1.len() implies spec_fix_tweak_name(
                        (#[trigger] subi1[j])@,
                        plugins@,
                    ) is Some by {
                        if j < i {
                            assert(subi[j] == subi1[j]);
                        } else {
                            assert(subi1[j] == ea[i as int]);
                        }
                    }
                    assert forall|key: Seq<char>| #[trigger]
                        resolves_to(subi1, plugins@, key) == (resolves_to(subi, plugins@, key)
                            || key == nmv) by {
                        if resolves_to(subi1, plugins@, key) {
                            let w = choose|w: int|
                                0 <= w < subi1.len() && spec_fix_tweak_name(
                                    (#[trigger] subi1[w])@,
                                    plugins@,
                                ) == Some(key);
                            if w < i {
                                assert(subi[w] == subi1[w]);
                            } else {
                                assert(subi1[w] == ea[i as int]);
                            }
                        }
                        if resolves_to(subi, plugins@, key) {
                            let w = choose|w: int|
                                0 <= w < subi.len() && spec_fix_tweak_name(
                                    (#[trigger] subi[w])@,
                                    plugins@,
                                ) == Some(key);
                            assert(subi1[w] == subi[w]);
                        }
                        if key == nmv {
                            assert(spec_fix_tweak_name((subi1[i as int])@, plugins@) == Some(key));
                        }
                    }
                }
            },
            None => {
                let name = eff_add[i].clone();
                proof {
                    assert(name@ == ea[i as int]@);
                    assert(plugin_named(ea, name@)) by {
                        assert((ea[i as int])@ == name@);
                    }
                }
                return Err(name);
            },
        }
        i = i + 1;
    }
    proof {
        assert(ea.subrange(0, na as int) =~= ea);
    }
    let nr: usize = eff_rem.len();
    let mut i: usize = 0;
    while i < nr
        invariant
            0 <= i <= nr,
            nr == er.len(),
            eff_rem@ == er,
            m.wf(),
            all_resolve(ea, plugins@),
            all_resolve(er.subrange(0, i as int), plugins@),
            forall|key: Seq<char>|
                #[trigger] has_key(m@, key) == (resolves_to(ea, plugins@, key) || resolves_to(
                    er.subrange(0, i as int),
                    plugins@,
                    key,
                )),
            forall|key: Seq<char>|
                resolves_to(er.subrange(0, i as int), plugins@, key) ==> #[trigger] get_val(
                    m@,
                    key,
                ) == false,
            forall|key: Seq<char>|
                resolves_to(ea, plugins@, key) && !resolves_to(
                    er.subrange(0, i as int),
                    plugins@,
                    key,
                ) ==> #[trigger] get_val(m@, key) == true,
        decreases nr - i,
    {
        let ghost subi = er.subrange(0, i as int);
        match fix_tweak_name(eff_rem[i].as_str(), plugins) {
            Some(nm) => {
                let ghost nmv = nm@;
                m.insert(nm, false);
                proof {
                    let subi1 = er.subrange(0, i + 1);
                    assert(subi1.drop_last() =~= subi);
                    assert forall|j: int| 0 <= j < subi1.len() implies spec_fix_tweak_name(
                        (#[trigger] subi1[j])@,
                        plugins@,
                    ) is Some by {
                        if j < i {
                            assert(subi[j] == subi1[j]);
                        } else {
                            assert(subi1[j] == er[i as int]);
                        }
                    }
                    assert forall|key: Seq<char>| #[trigger]
                        resolves_to(subi1, plugins@, key) == (resolves_to(subi, plugins@, key)
                            || key == nmv) by {
                        if resolves_to(subi1, plugins@, key) {
                            let w = choose|w: int|
                                0 <= w < subi1.len() && spec_fix_tweak_name(
                                    (#[trigger] subi1[w])@,
                                    plugins@,
                                ) == Some(key);
                            if w < i {
                                assert(subi[w] == subi1[w]);
                            } else {
                                assert(subi1[w] == er[i as int]);
                            }
                        }
                        if resolves_to(subi, plugins@, key) {
                            let w = choose|w: int|
                                0 <= w < subi.len() && spec_fix_tweak_name(
                                    (#[trigger] subi[w])@,
                                    plugins@,
                                ) == Some(key);
                            assert(subi1[w] == subi[w]);
                        }
                        if key == nmv {
                            assert(spec_fix_tweak_name((subi1[i as int])@, plugins@) == Some(key));
                        }
                    }
                }
            },
            None => {
                let name = eff_rem[i].clone();
                proof {
                    assert(name@ == er[i as int]@);
                    assert(plugin_named(er, name@)) by {
                        assert((er[i as int])@ == name@);
                    }
                }
                return Err(name);
            },
        }
        i = i + 1;
    }
    proof {
        assert(er.subrange(0, nr as int) =~= er);
    }
    Ok(m)
}

/// The value of an optional override, or the fallback where none was given.
pub open spec fn opt_or(o: Option<bool>, d: bool) -> bool {
    match o {
        Some(v) => v,
        None => d,
    }
}

/// Apply one configure command to the tree: the target's configuration takes
/// the chosen mode, the optionally overridden switches, and the batched flag
/// changes; every other slot and the rest of the root stay untouched.
pub fn configure(
    config: &mut LibhookerConfig,
    target: &Target,
    custom_config: Option<bool>,
    enable_tweaks: Option<bool>,
    mode: TweakMode,
    changes: &SMap<bool>,
    plugins: &Vec<String>,
)
    requires
        old(config).wf(),
        changes.wf(),
    ensures
        final(config).wf(),
        final(config).web_process_tweaks == old(config).web_process_tweaks,
        final(config).memory_compat_prefs == old(config).memory_compat_prefs,
        spec_slot_has(&final(config).tweak_configs, target@),
        ({
            let newc = spec_slot(&final(config).tweak_configs, target@);
            let oldhas = spec_slot_has(&old(config).tweak_configs, target@);
            let oldc = spec_slot(&old(config).tweak_configs, target@);
            &&& newc.allow_or_deny == mode
            &&& newc.custom_config == opt_or(
                custom_config,
                if oldhas {
                    oldc.custom_config
                } else {
                    false
                },
            )
            &&& newc.enable_tweaks == opt_or(
                enable_tweaks,
                if oldhas {
                    oldc.enable_tweaks
                } else {
                    true
                },
            )
            &&& oldhas ==> map_extended(newc.tweak_configs, oldc.tweak_configs, changes@)
            &&& !oldhas ==> forall|key: Seq<char>|
                #[trigger] has_key(newc.tweak_configs, key) == (plugin_named(plugins@, key)
                    || has_key(changes@, key))
            &&& !oldhas ==> forall|key: Seq<char>|
                has_key(changes@, key) ==> #[trigger] get_val(newc.tweak_configs, key) == get_val(
                    changes@,
                    key,
                )
            &&& !oldhas ==> forall|key: Seq<char>|
                !has_key(changes@, key) && plugin_named(plugins@, key) ==> #[trigger] get_val(
                    newc.tweak_configs,
                    key,
                ) == false
        }),
        forall|t: TargetV|
            t != target@ ==> #[trigger] spec_slot_has(&final(config).tweak_configs, t)
                == spec_slot_has(&old(config).tweak_configs, t),
        forall|t: TargetV|
            t != target@ && spec_slot_has(&old(config).tweak_configs, t) ==> #[trigger] spec_slot(
                &final(config).tweak_configs,
                t,
            ) == spec_slot(&old(config).tweak_configs, t),
{
    let mut tweak_config = target.get_config(&config.tweak_configs, plugins);
    tweak_config.allow_or_deny = mode;
    tweak_config.custom_config = match custom_config {
        Some(c) => c,
        None => tweak_config.custom_config,
    };
    tweak_config.enable_tweaks = match enable_tweaks {
        Some(e) => e,
        None => tweak_config.enable_tweaks,
    };
    tweak_config.tweak_configs.extend(changes);
    target.apply_config(&mut config.tweak_configs, tweak_config);
}

} // verus!
