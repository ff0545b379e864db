//! Plugin-name resolution against the list of installed plugin modules.
//!
//! The plugin directory (a fixed filesystem location) is a collaborator
//! outside this crate; callers hand the enumerated file names in. Matching
//! is against that snapshot, never a raw filesystem probe, so the canonical
//! name returned is always one of the known names (or the input itself).

use vstd::prelude::*;

use crate::libhooker::plugin_named;
use crate::strutil::{
    chars_eq, ends_with_str, fold_chars, fold_spec, has_suffix, stem_of, stem_spec, str_eq,
};
use vstd::string::StringExecFns;

verus! {

/// The fixed plugin file extension, with its separating dot.
pub open spec fn ext_suffix() -> Seq<char> {
    ".dylib"@
}

/// The index of the first plugin whose folded full file name is `f`, or `-1`.
pub open spec fn first_full_match(plugins: Seq<String>, f: Seq<char>) -> int
    decreases plugins.len(),
{
    if plugins.len() == 0 {
        -1
    } else if fold_spec(plugins[0]@) == f {
        0
    } else {
        let r = first_full_match(plugins.subrange(1, plugins.len() as int), f);
        if r == -1 {
            -1
        } else {
            r + 1
        }
    }
}

pub proof fn lemma_first_full_match(plugins: Seq<String>, f: Seq<char>)
    ensures
        -1 <= first_full_match(plugins, f) < plugins.len(),
        first_full_match(plugins, f) >= 0 ==> fold_spec(plugins[first_full_match(plugins, f)]@)
            == f,
        forall|j: int|
            0 <= j < first_full_match(plugins, f) ==> fold_spec((#[trigger] plugins[j])@) != f,
        first_full_match(plugins, f) == -1 ==> forall|j: int|
            0 <= j < plugins.len() ==> fold_spec((#[trigger] plugins[j])@) != f,
    decreases plugins.len(),
{
    if plugins.len() == 0 {
    } else if fold_spec(plugins[0]@) == f {
    } else {
        let t = plugins.subrange(1, plugins.len() as int);
        lemma_first_full_match(t, f);
        assert forall|j: int| 0 <= j < first_full_match(plugins, f) implies fold_spec(
            (#[trigger] plugins[j])@,
        ) != f by {
            if j > 0 {
                assert(t[j - 1] == plugins[j]);
            }
        }
        if first_full_match(plugins, f) == -1 {
            assert forall|j: int| 0 <= j < plugins.len() implies fold_spec(
                (#[trigger] plugins[j])@,
            ) != f by {
                if j > 0 {
                    assert(t[j - 1] == plugins[j]);
                }
            }
        }
    }
}

/// The index of the first plugin whose folded stem is `f`, or `-1`.
pub open spec fn first_stem_match(plugins: Seq<String>, f: Seq<char>) -> int
    decreases plugins.len(),
{
    if plugins.len() == 0 {
        -1
    } else if fold_spec(stem_spec(plugins[0]@)) == f {
        0
    } else {
        let r = first_stem_match(plugins.subrange(1, plugins.len() as int), f);
        if r == -1 {
            -1
        } else {
            r + 1
        }
    }
}

pub proof fn lemma_first_stem_match(plugins: Seq<String>, f: Seq<char>)
    ensures
        -1 <= first_stem_match(plugins, f) < plugins.len(),
        first_stem_match(plugins, f) >= 0 ==> fold_spec(
            stem_spec(plugins[first_stem_match(plugins, f)]@),
        ) == f,
        forall|j: int|
            0 <= j < first_stem_match(plugins, f) ==> fold_spec(
                stem_spec((#[trigger] plugins[j])@),
            ) != f,
        first_stem_match(plugins, f) == -1 ==> forall|j: int|
            0 <= j < plugins.len() ==> fold_spec(stem_spec((#[trigger] plugins[j])@)) != f,
    decreases plugins.len(),
{
    if plugins.len() == 0 {
    } else if fold_spec(stem_spec(plugins[0]@)) == f {
    } else {
        let t = plugins.subrange(1, plugins.len() as int);
        lemma_first_stem_match(t, f);
        assert forall|j: int| 0 <= j < first_stem_match(plugins, f) implies fold_spec(
            stem_spec((#[trigger] plugins[j])@),
        ) != f by {
            if j > 0 {
                assert(t[j - 1] == plugins[j]);
            }
        }
        if first_stem_match(plugins, f) == -1 {
            assert forall|j: int| 0 <= j < plugins.len() implies fold_spec(
                stem_spec((#[trigger] plugins[j])@),
            ) != f by {
                if j > 0 {
                    assert(t[j - 1] == plugins[j]);
                }
            }
        }
    }
}

/// Plugin-name resolution, first rule that matches wins: the input exactly as
/// typed; the input plus the fixed extension; case-insensitively the full
/// file name of a known plugin; case-insensitively its stem. Absence is a
/// valid result, never a failure of the resolver itself.
pub open spec fn spec_fix_tweak_name(input: Seq<char>, plugins: Seq<String>) -> Option<
    Seq<char>,
> {
    let f = fold_spec(input);
    if plugin_named(plugins, input) {
        Some(input)
    } else if plugin_named(plugins, input + ext_suffix()) {
        Some(input + ext_suffix())
    } else if first_full_match(plugins, f) >= 0 {
        Some(plugins[first_full_match(plugins, f)]@)
    } else if first_stem_match(plugins, f) >= 0 {
        Some(plugins[first_stem_match(plugins, f)]@)
    } else {
        None
    }
}

/// The display form of a plugin file name: the fixed extension stripped,
/// other names unchanged.
pub fn display_tweak_name(name: &str) -> (r: String)
    ensures
        r@ == if has_suffix(name@, ext_suffix()) {
            name@.subrange(0, name@.len() - 6)
        } else {
            name@
        },
{
    proof {
        reveal_strlit(".dylib");
        assert(ext_suffix().len() == 6);
    }
    if ends_with_str(name, ".dylib") {
        let n: usize = name.unicode_len();
        name.substring_char(0, n - 6).to_owned()
    } else {
        name.to_owned()
    }
}

/// Whether a name occurs in the plugin list, decided by scanning.
pub fn contains_name(plugins: &Vec<String>, name: &str) -> (r: bool)
    ensures
        r == plugin_named(plugins@, name@),
{
    let n: usize = plugins.len();
    let mut i: usize = 0;
    while i < n
        invariant
            0 <= i <= n,
            n == plugins@.len(),
            forall|j: int| 0 <= j < i ==> (#[trigger] plugins@[j])@ != name@,
        decreases n - i,
    {
        if str_eq(plugins[i].as_str(), name) {
            return true;
        }
        i = i + 1;
    }
    false
}

/// Resolve a free-text plugin name to the canonical file name of an
/// installed plugin.
pub fn fix_tweak_name(input: &str, plugins: &Vec<String>) -> (r: Option<String>)
    ensures
        match r {
            Some(name) => spec_fix_tweak_name(input@, plugins@) == Some(name@),
            None => spec_fix_tweak_name(input@, plugins@) is None,
        },
{
    if contains_name(plugins, input) {
        return Some(input.to_owned());
    }
    let with_ext = input.to_owned().concat(".dylib");
    proof {
        assert(with_ext@ == input@ + ext_suffix());
    }
    if contains_name(plugins, with_ext.as_str()) {
        return Some(with_ext);
    }
    let folded = fold_chars(input);
    let n: usize = plugins.len();
    let mut i: usize = 0;
    while i < n
        invariant
            0 <= i <= n,
            n == plugins@.len(),
            folded@ == fold_spec(input@),
            !plugin_named(plugins@, input@),
            !plugin_named(plugins@, input@ + ext_suffix()),
            forall|j: int| 0 <= j < i ==> fold_spec((#[trigger] plugins@[j])@) != folded@,
        decreases n - i,
    {
        let fname = fold_chars(plugins[i].as_str());
        if chars_eq(&fname, &folded) {
            proof {
                lemma_first_full_match(plugins@, folded@);
                assert(first_full_match(plugins@, folded@) == i as int);
            }
            let name = plugins[i].clone();
            proof {
                assert(name@ == plugins@[i as int]@);
                assert(spec_fix_tweak_name(input@, plugins@) == Some(name@));
            }
            return Some(name);
        }
        i = i + 1;
    }
    proof {
        lemma_first_full_match(plugins@, folded@);
    }
    let mut i: usize = 0;
    while i < n
        invariant
            0 <= i <= n,
            n == plugins@.len(),
            folded@ == fold_spec(input@),
            !plugin_named(plugins@, input@),
            !plugin_named(plugins@, input@ + ext_suffix()),
            forall|j: int| 0 <= j < n ==> fold_spec((#[trigger] plugins@[j])@) != folded@,
            forall|j: int|
                0 <= j < i ==> fold_spec(stem_spec((#[trigger] plugins@[j])@)) != folded@,
        decreases n - i,
    {
        let fstem = fold_chars(stem_of(plugins[i].as_str()));
        if chars_eq(&fstem, &folded) {
            proof {
                lemma_first_stem_match(plugins@, folded@);
                assert(first_stem_match(plugins@, folded@) == i as int);
                lemma_first_full_match(plugins@, folded@);
                assert(first_full_match(plugins@, folded@) == -1);
            }
            let name = plugins[i].clone();
            proof {
                assert(name@ == plugins@[i as int]@);
                assert(spec_fix_tweak_name(input@, plugins@) == Some(name@));
            }
            return Some(name);
        }
        i = i + 1;
    }
    proof {
        lemma_first_stem_match(plugins@, folded@);
    }
    None
}

} // verus!
