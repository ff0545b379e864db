//! App-name resolution against a snapshot of the installed applications.
//!
//! The application directory itself (a platform registry reached over
//! Objective-C) is a collaborator outside this crate; callers hand its
//! contents in as a vector of [`App`] values.

use vstd::prelude::*;

use crate::strutil::{chars_eq, fold_chars, fold_spec, no_spaces, str_eq, without_spaces};

verus! {

/// An installed application: its canonical identifier and its display name.
pub struct App {
    pub identifier: String,
    pub name: String,
}

/// Whether the app answers to this folded query: by identifier, by display
/// name, or by display name compared with all spaces removed.
pub open spec fn app_matches(a: App, f: Seq<char>) -> bool {
    ||| fold_spec(a.identifier@) == f
    ||| fold_spec(a.name@) == f
    ||| no_spaces(fold_spec(a.name@)) == no_spaces(f)
}

/// The index of the first app matching the folded query, or `-1`.
pub open spec fn first_app_match(apps: Seq<App>, f: Seq<char>) -> int
    decreases apps.len(),
{
    if apps.len() == 0 {
        -1
    } else if app_matches(apps[0], f) {
        0
    } else {
        let r = first_app_match(apps.subrange(1, apps.len() as int), f);
        if r == -1 {
            -1
        } else {
            r + 1
        }
    }
}

pub proof fn lemma_first_app_match(apps: Seq<App>, f: Seq<char>)
    ensures
        -1 <= first_app_match(apps, f) < apps.len(),
        first_app_match(apps, f) >= 0 ==> app_matches(apps[first_app_match(apps, f)], f),
        forall|j: int|
            0 <= j < first_app_match(apps, f) ==> !app_matches(#[trigger] apps[j], f),
        first_app_match(apps, f) == -1 ==> forall|j: int|
            0 <= j < apps.len() ==> !app_matches(#[trigger] apps[j], f),
    decreases apps.len(),
{
    if apps.len() == 0 {
    } else if app_matches(apps[0], f) {
    } else {
        let t = apps.subrange(1, apps.len() as int);
        lemma_first_app_match(t, f);
        assert forall|j: int| 0 <= j < first_app_match(apps, f) implies !app_matches(
            #[trigger] apps[j],
            f,
        ) by {
            if j > 0 {
                assert(t[j - 1] == apps[j]);
            }
        }
        if first_app_match(apps, f) == -1 {
            assert forall|j: int| 0 <= j < apps.len() implies !app_matches(
                #[trigger] apps[j],
                f,
            ) by {
                if j > 0 {
                    assert(t[j - 1] == apps[j]);
                }
            }
        }
    }
}

/// App-name resolution: the canonical identifier of the first app matching
/// the folded input, if any matches.
pub open spec fn spec_fix_app_name(input: Seq<char>, apps: Seq<App>) -> Option<Seq<char>> {
    let i = first_app_match(apps, fold_spec(input));
    if i == -1 {
        None
    } else {
        Some(apps[i].identifier@)
    }
}

fn app_match_exec(a: &App, folded: &Vec<char>) -> (r: bool)
    ensures
        r == app_matches(*a, folded@),
{
    let fid = fold_chars(a.identifier.as_str());
    if chars_eq(&fid, folded) {
        return true;
    }
    let fname = fold_chars(a.name.as_str());
    if chars_eq(&fname, folded) {
        return true;
    }
    let ns_name = without_spaces(&fname);
    let ns_query = without_spaces(folded);
    chars_eq(&ns_name, &ns_query)
}

/// Resolve a free-text app query to the canonical bundle identifier of the
/// first matching installed app.
pub fn fix_app_name(input: &str, apps: &Vec<App>) -> (r: Option<String>)
    ensures
        match r {
            Some(id) => spec_fix_app_name(input@, apps@) == Some(id@),
            None => spec_fix_app_name(input@, apps@) is None,
        },
{
    let folded = fold_chars(input);
    let n: usize = apps.len();
    let mut i: usize = 0;
    while i < n
        invariant
            0 <= i <= n,
            n == apps@.len(),
            folded@ == fold_spec(input@),
            forall|j: int| 0 <= j < i ==> !app_matches(#[trigger] apps@[j], folded@),
        decreases n - i,
    {
        if app_match_exec(&apps[i], &folded) {
            proof {
                lemma_first_app_match(apps@, folded@);
                assert(first_app_match(apps@, folded@) == i as int);
            }
            return Some(apps[i].identifier.clone());
        }
        i = i + 1;
    }
    proof {
        lemma_first_app_match(apps@, folded@);
    }
    None
}

/// Whether some app carries this identifier.
pub open spec fn app_with_id(apps: Seq<App>, id: Seq<char>) -> bool {
    exists|i: int| 0 <= i < apps.len() && (#[trigger] apps[i]).identifier@ == id
}

/// The index of the first app carrying this identifier, or `-1`.
pub open spec fn first_id_match(apps: Seq<App>, id: Seq<char>) -> int
    decreases apps.len(),
{
    if apps.len() == 0 {
        -1
    } else if apps[0].identifier@ == id {
        0
    } else {
        let r = first_id_match(apps.subrange(1, apps.len() as int), id);
        if r == -1 {
            -1
        } else {
            r + 1
        }
    }
}

pub proof fn lemma_first_id_match(apps: Seq<App>, id: Seq<char>)
    ensures
        -1 <= first_id_match(apps, id) < apps.len(),
        first_id_match(apps, id) >= 0 ==> apps[first_id_match(apps, id)].identifier@ == id,
        forall|j: int|
            0 <= j < first_id_match(apps, id) ==> (#[trigger] apps[j]).identifier@ != id,
        first_id_match(apps, id) == -1 ==> forall|j: int|
            0 <= j < apps.len() ==> (#[trigger] apps[j]).identifier@ != id,
    decreases apps.len(),
{
    if apps.len() == 0 {
    } else if apps[0].identifier@ == id {
    } else {
        let t = apps.subrange(1, apps.len() as int);
        lemma_first_id_match(t, id);
        assert forall|j: int| 0 <= j < first_id_match(apps, id) implies (
        #[trigger] apps[j]).identifier@ != id by {
            if j > 0 {
                assert(t[j - 1] == apps[j]);
            }
        }
        if first_id_match(apps, id) == -1 {
            assert forall|j: int| 0 <= j < apps.len() implies (#[trigger] apps[j]).identifier@
                != id by {
                if j > 0 {
                    assert(t[j - 1] == apps[j]);
                }
            }
        }
    }
}

/// The display name of a known identifier; callers pass only identifiers
/// obtained from resolution or from prior persisted state.
pub fn get_friendly_app_name(id: &str, apps: &Vec<App>) -> (r: String)
    requires
        app_with_id(apps@, id@),
    ensures
        first_id_match(apps@, id@) >= 0,
        r@ == apps@[first_id_match(apps@, id@)].name@,
{
    let n: usize = apps.len();
    let mut i: usize = 0;
    while i < n
        invariant
            0 <= i <= n,
            n == apps@.len(),
            forall|j: int| 0 <= j < i ==> (#[trigger] apps@[j]).identifier@ != id@,
        decreases n - i,
    {
        if str_eq(apps[i].identifier.as_str(), id) {
            proof {
                lemma_first_id_match(apps@, id@);
                assert(first_id_match(apps@, id@) == i as int);
            }
            return apps[i].name.clone();
        }
        i = i + 1;
    }
    proof {
        // the precondition promised a matching app, yet none was found
        let w = choose|w: int| 0 <= w < apps@.len() && (#[trigger] apps@[w]).identifier@ == id@;
        assert(false);
    }
    String::new()
}

} // verus!
