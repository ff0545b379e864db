//! The library's laws: properties that hold of all inputs, each stated and
//! proved once, for every caller.

use vstd::prelude::*;

use crate::apps::App;
use crate::libhooker::{
    is_fresh_for, plugin_named, spec_check, spec_resolve_target, spec_should_skip, spec_will_load,
    TargetV, TweakCfgV, TweakMode,
};
use crate::smap::{get_val, has_key, lemma_key_idx, map_wf};
use crate::strutil::{ascii_lower, fold_spec, is_abs, lower_seq, stem_spec, trim_spec};
use crate::tweaks::{
    ext_suffix, first_full_match, first_stem_match, lemma_first_full_match,
    lemma_first_stem_match, spec_fix_tweak_name,
};

verus! {

/// The evaluator's truth table: under allow-mode the stored flag itself
/// decides, under deny-mode its negation does.
pub proof fn lemma_check_truth_table()
    ensures
        spec_check(TweakMode::Allow, true) == true,
        spec_check(TweakMode::Allow, false) == false,
        spec_check(TweakMode::Deny, true) == false,
        spec_check(TweakMode::Deny, false) == true,
{
}

/// With tweaks disabled, no plugin loads, whatever the mode and the flags
/// say.
pub proof fn lemma_disabled_loads_nothing(c: TweakCfgV, name: Seq<char>)
    requires
        !c.enable_tweaks,
    ensures
        !spec_will_load(c, name),
{
}

/// A plugin absent from the configuration never loads under it.
pub proof fn lemma_unknown_never_loads(c: TweakCfgV, name: Seq<char>)
    requires
        !has_key(c.tweak_configs, name),
    ensures
        !spec_will_load(c, name),
{
}

/// Omitting a skippable configuration changes nothing observable: every
/// plugin it stores already evaluates to "loads" (tweaks being enabled), so
/// the loader's default behaviour of loading everything coincides with it.
pub proof fn lemma_skipped_config_loads_all(c: TweakCfgV)
    requires
        spec_should_skip(c),
        c.enable_tweaks,
        map_wf(c.tweak_configs),
    ensures
        forall|name: Seq<char>|
            has_key(c.tweak_configs, name) ==> #[trigger] spec_will_load(c, name),
{
    assert forall|name: Seq<char>| has_key(c.tweak_configs, name) implies #[trigger] spec_will_load(
        c,
        name,
    ) by {
        lemma_key_idx(c.tweak_configs, name);
    }
}

/// A freshly seeded configuration loads every known plugin: the seed flags
/// are false and the seed polarity is deny.
pub proof fn lemma_fresh_loads_known(c: TweakCfgV, plugins: Seq<String>, name: Seq<char>)
    requires
        is_fresh_for(c, plugins),
        plugin_named(plugins, name),
    ensures
        spec_will_load(c, name),
{
}

/// Name resolution is idempotent on canonical names: a name that is already
/// a known plugin file name resolves to itself.
pub proof fn lemma_fix_tweak_name_idempotent(name: Seq<char>, plugins: Seq<String>)
    requires
        plugin_named(plugins, name),
    ensures
        spec_fix_tweak_name(name, plugins) == Some(name),
{
}

/// Name resolution is sound: whatever it returns is a usable canonical name —
/// a name from the known plugin list (under the first rule the input itself,
/// and under the second the input with the extension appended, each already
/// known to be listed).
pub proof fn lemma_fix_tweak_name_sound(input: Seq<char>, plugins: Seq<String>)
    ensures
        match spec_fix_tweak_name(input, plugins) {
            Some(name) => plugin_named(plugins, name),
            None => true,
        },
{
    let f = fold_spec(input);
    lemma_first_full_match(plugins, f);
    lemma_first_stem_match(plugins, f);
    if !plugin_named(plugins, input) && !plugin_named(plugins, input + ext_suffix()) {
        if first_full_match(plugins, f) >= 0 {
            let i = first_full_match(plugins, f);
            assert(plugins[i]@ == plugins[i]@);
        } else if first_stem_match(plugins, f) >= 0 {
            let i = first_stem_match(plugins, f);
            assert(plugins[i]@ == plugins[i]@);
        }
    }
}

/// Name resolution is complete: it succeeds exactly where one of its four
/// rules applies — the input is listed as typed, the input with the fixed
/// extension is, or some known plugin matches the folded input by full file
/// name or by stem.
pub proof fn lemma_fix_tweak_name_complete(input: Seq<char>, plugins: Seq<String>)
    ensures
        spec_fix_tweak_name(input, plugins) is Some <==> {
            ||| plugin_named(plugins, input)
            ||| plugin_named(plugins, input + ext_suffix())
            ||| exists|i: int|
                0 <= i < plugins.len() && fold_spec((#[trigger] plugins[i])@) == fold_spec(input)
            ||| exists|i: int|
                0 <= i < plugins.len() && fold_spec(stem_spec((#[trigger] plugins[i])@))
                    == fold_spec(input)
        },
{
    let f = fold_spec(input);
    lemma_first_full_match(plugins, f);
    lemma_first_stem_match(plugins, f);
    if first_full_match(plugins, f) >= 0 {
        let i = first_full_match(plugins, f);
        assert(fold_spec(plugins[i]@) == f);
    }
    if first_stem_match(plugins, f) >= 0 {
        let i = first_stem_match(plugins, f);
        assert(fold_spec(stem_spec(plugins[i]@)) == f);
    }
}

/// Case and whitespace insensitivity of the fuzzy rules: once the exact
/// rules are out (neither the input as typed nor the input with the
/// extension appended is listed), resolution reads the input only through
/// its folded form — two spellings that fold alike resolve alike.
pub proof fn lemma_fuzzy_rules_fold_only(a: Seq<char>, b: Seq<char>, plugins: Seq<String>)
    requires
        fold_spec(a) == fold_spec(b),
        !plugin_named(plugins, a),
        !plugin_named(plugins, a + ext_suffix()),
        !plugin_named(plugins, b),
        !plugin_named(plugins, b + ext_suffix()),
    ensures
        spec_fix_tweak_name(a, plugins) == spec_fix_tweak_name(b, plugins),
{
}

/// Resolution precedence: an absolute path naming an existing regular file
/// always resolves to that executable, whatever apps or daemons happen to
/// share its name.
pub proof fn lemma_absolute_path_wins(input: Seq<char>, apps: Seq<App>, daemons: Seq<String>)
    requires
        is_abs(trim_spec(input)),
    ensures
        spec_resolve_target(input, apps, daemons, true) == Some(
            TargetV::Executable(trim_spec(input)),
        ),
{
    let t = trim_spec(input);
    let f = fold_spec(input);
    assert(f == lower_seq(t));
    assert(f.len() == t.len());
    assert(f[0] == ascii_lower(t[0]));
    assert(t[0] == '/');
    assert('/' as u32 == 47);
    assert(ascii_lower('/') == '/');
    reveal_strlit("default");
    reveal_strlit("springboard");
    assert("default"@[0] == 'd');
    assert("springboard"@[0] == 's');
    assert('d' as u32 == 100);
    assert('s' as u32 == 115);
    assert(f != "default"@) by {
        if f == "default"@ {
            assert(f[0] == 'd');
        }
    }
    assert(f != "springboard"@) by {
        if f == "springboard"@ {
            assert(f[0] == 's');
        }
    }
}

} // verus!
