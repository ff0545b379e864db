//! The pure slice of daemon lookup: picking a service's executable path out
//! of the textual dump that the platform's service manager answers with.
//!
//! The inter-process round-trip that obtains the dump is a collaborator
//! outside this crate; callers hand the dump text in.

use vstd::prelude::*;

use crate::strutil::{
    first_index_of, has_prefix, lemma_first_index_of, starts_with_str, trim_ascii, trim_spec,
};

verus! {

/// The marker the service dump prefixes an executable path with.
pub open spec fn program_prefix() -> Seq<char> {
    "program = "@
}

/// The payload of the first line whose trimmed form starts with the program
/// marker: the rest of that trimmed line. Lines are the segments between
/// newlines.
pub open spec fn spec_program_path(s: Seq<char>) -> Option<Seq<char>>
    decreases s.len(),
    via spec_program_path_decreases
{
    let nl = first_index_of(s, '\n');
    let line = if nl == -1 {
        s
    } else {
        s.subrange(0, nl)
    };
    let t = trim_spec(line);
    if has_prefix(t, program_prefix()) {
        Some(t.subrange(program_prefix().len() as int, t.len() as int))
    } else if nl == -1 {
        None
    } else {
        spec_program_path(s.subrange(nl + 1, s.len() as int))
    }
}

#[via_fn]
proof fn spec_program_path_decreases(s: Seq<char>) {
    lemma_first_index_of(s, '\n');
}

/// Pick the executable path out of a service dump: the first line reading
/// `program = <path>`, with surrounding whitespace ignored.
pub fn parse_program_path(output: &str) -> (r: Option<String>)
    ensures
        match r {
            Some(p) => spec_program_path(output@) == Some(p@),
            None => spec_program_path(output@) is None,
        },
{
    proof {
        reveal_strlit("program = ");
        assert(program_prefix().len() == 10);
    }
    let mut rest: &str = output;
    loop
        invariant
            spec_program_path(output@) == spec_program_path(rest@),
            program_prefix().len() == 10,
        decreases rest@.len(),
    {
        let n: usize = rest.unicode_len();
        let mut i: usize = 0;
        while i < n && rest.get_char(i) != '\n'
            invariant
                0 <= i <= n,
                n == rest@.len(),
                forall|j: int| 0 <= j < i ==> rest@[j] != '\n',
            decreases n - i,
        {
            i = i + 1;
        }
        proof {
            lemma_first_index_of(rest@, '\n');
            let nl = first_index_of(rest@, '\n');
            if i < n {
                assert(rest@[i as int] == '\n');
                if nl < i {
                    assert(rest@[nl] == '\n');
                }
                if nl > i {
                    assert(rest@[i as int] != '\n');
                }
                assert(nl == i);
            } else {
                if nl >= 0 {
                    assert(rest@[nl] != '\n');
                }
                assert(nl == -1);
            }
        }
        let line = if i < n {
            rest.substring_char(0, i)
        } else {
            rest
        };
        proof {
            if i >= n {
                assert(line@ =~= rest@.subrange(0, rest@.len() as int));
            }
        }
        let t = trim_ascii(line);
        if starts_with_str(t, "program = ") {
            let m: usize = t.unicode_len();
            let payload = t.substring_char(10, m);
            return Some(payload.to_owned());
        }
        if i >= n {
            return None;
        }
        let next = rest.substring_char(i + 1, n);
        rest = next;
    }
}

} // verus!
