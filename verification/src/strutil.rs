//! Verified character-sequence utilities: ASCII trimming and case folding,
//! lexicographic comparison, and path-name helpers.
//!
//! Name matching throughout the crate is ASCII case-insensitive: a name is
//! "folded" by trimming ASCII whitespace and lowering the ASCII letters.

use vstd::prelude::*;

verus! {

/// ASCII whitespace, the characters trimmed from names.
pub open spec fn is_ws(c: char) -> bool {
    c == ' ' || c == '\t' || c == '\n' || c == '\r'
}

fn is_ws_exec(c: char) -> (r: bool)
    ensures
        r == is_ws(c),
{
    c == ' ' || c == '\t' || c == '\n' || c == '\r'
}

/// The ASCII lowercase image of a character; non-ASCII-uppercase characters
/// are unchanged.
pub open spec fn ascii_lower(c: char) -> char {
    if 65 <= c as u32 <= 90 {
        ((c as u32 + 32) as u8) as char
    } else {
        c
    }
}

fn lower_char(c: char) -> (r: char)
    ensures
        r == ascii_lower(c),
{
    let u: u32 = c as u32;
    if 65 <= u && u <= 90 {
        ((u + 32) as u8) as char
    } else {
        c
    }
}

/// Number of leading whitespace characters.
pub open spec fn ws_prefix_len(s: Seq<char>) -> int
    decreases s.len(),
{
    if s.len() == 0 {
        0
    } else if !is_ws(s[0]) {
        0
    } else {
        1 + ws_prefix_len(s.subrange(1, s.len() as int))
    }
}

/// Index where the trailing whitespace run begins.
pub open spec fn ws_suffix_start(s: Seq<char>) -> int
    decreases s.len(),
{
    if s.len() == 0 {
        0
    } else if !is_ws(s[s.len() - 1]) {
        s.len() as int
    } else {
        ws_suffix_start(s.subrange(0, s.len() - 1))
    }
}

pub proof fn lemma_ws_prefix(s: Seq<char>)
    ensures
        0 <= ws_prefix_len(s) <= s.len(),
        forall|j: int| 0 <= j < ws_prefix_len(s) ==> is_ws(s[j]),
        ws_prefix_len(s) < s.len() ==> !is_ws(s[ws_prefix_len(s)]),
    decreases s.len(),
{
    if s.len() == 0 {
    } else if !is_ws(s[0]) {
    } else {
        let t = s.subrange(1, s.len() as int);
        lemma_ws_prefix(t);
        assert forall|j: int| 0 <= j < ws_prefix_len(s) implies is_ws(s[j]) by {
            if j > 0 {
                assert(t[j - 1] == s[j]);
            }
        }
        if ws_prefix_len(s) < s.len() {
            assert(t[ws_prefix_len(s) - 1] == s[ws_prefix_len(s)]);
        }
    }
}

pub proof fn lemma_ws_suffix(s: Seq<char>)
    ensures
        0 <= ws_suffix_start(s) <= s.len(),
        forall|j: int| ws_suffix_start(s) <= j < s.len() ==> is_ws(s[j]),
        ws_suffix_start(s) > 0 ==> !is_ws(s[ws_suffix_start(s) - 1]),
    decreases s.len(),
{
    if s.len() == 0 {
    } else if !is_ws(s[s.len() - 1]) {
    } else {
        let t = s.subrange(0, s.len() - 1);
        lemma_ws_suffix(t);
        assert forall|j: int| ws_suffix_start(s) <= j < s.len() implies is_ws(s[j]) by {
            if j < s.len() - 1 {
                assert(t[j] == s[j]);
            }
        }
        if ws_suffix_start(s) > 0 {
            assert(t[ws_suffix_start(s) - 1] == s[ws_suffix_start(s) - 1]);
        }
    }
}

/// Whitespace never straddles the trim bounds: if the string holds any
/// non-whitespace character, the leading run ends before the trailing run.
pub proof fn lemma_trim_bounds(s: Seq<char>)
    ensures
        ws_prefix_len(s) < s.len() ==> ws_prefix_len(s) < ws_suffix_start(s),
{
    lemma_ws_prefix(s);
    lemma_ws_suffix(s);
    if ws_prefix_len(s) < s.len() && ws_prefix_len(s) >= ws_suffix_start(s) {
        assert(is_ws(s[ws_prefix_len(s)]));
    }
}

/// The string with leading and trailing ASCII whitespace removed.
pub open spec fn trim_spec(s: Seq<char>) -> Seq<char> {
    if ws_prefix_len(s) == s.len() {
        Seq::empty()
    } else {
        s.subrange(ws_prefix_len(s), ws_suffix_start(s))
    }
}

/// Trim leading and trailing ASCII whitespace.
pub fn trim_ascii(s: &str) -> (r: &str)
    ensures
        r@ == trim_spec(s@),
{
    proof {
        lemma_ws_prefix(s@);
        lemma_ws_suffix(s@);
        lemma_trim_bounds(s@);
    }
    let n: usize = s.unicode_len();
    let mut a: usize = 0;
    while a < n && is_ws_exec(s.get_char(a))
        invariant
            0 <= a <= n,
            n == s@.len(),
            forall|j: int| 0 <= j < a ==> is_ws(s@[j]),
        decreases n - a,
    {
        a = a + 1;
    }
    proof {
        if a < ws_prefix_len(s@) {
            assert(is_ws(s@[a as int]));
        }
        if a > ws_prefix_len(s@) {
            assert(is_ws(s@[ws_prefix_len(s@)]));
        }
        assert(a == ws_prefix_len(s@));
    }
    if a == n {
        let r = "";
        proof {
            reveal_strlit("");
            assert(r@ =~= trim_spec(s@));
        }
        r
    } else {
        let mut b: usize = n;
        while b > a && is_ws_exec(s.get_char(b - 1))
            invariant
                a <= b <= n,
                n == s@.len(),
                forall|j: int| b <= j < n ==> is_ws(s@[j]),
            decreases b,
        {
            b = b - 1;
        }
        proof {
            if b < ws_suffix_start(s@) {
                assert(is_ws(s@[ws_suffix_start(s@) - 1]));
                assert(ws_suffix_start(s@) - 1 >= b);
            }
            if b > ws_suffix_start(s@) {
                assert(is_ws(s@[b - 1]));
                assert(!is_ws(s@[a as int]));
                assert(b - 1 >= a);
            }
            assert(b == ws_suffix_start(s@));
        }
        s.substring_char(a, b)
    }
}

/// Every character lowered.
pub open spec fn lower_seq(s: Seq<char>) -> Seq<char> {
    s.map_values(|c: char| ascii_lower(c))
}

/// A name's canonical matching key: trimmed, then ASCII-lowered.
pub open spec fn fold_spec(s: Seq<char>) -> Seq<char> {
    lower_seq(trim_spec(s))
}

/// Compute the folded form of a name as a character vector.
pub fn fold_chars(s: &str) -> (r: Vec<char>)
    ensures
        r@ == fold_spec(s@),
{
    let t = trim_ascii(s);
    let n: usize = t.unicode_len();
    let mut r: Vec<char> = Vec::new();
    let mut i: usize = 0;
    while i < n
        invariant
            0 <= i <= n,
            n == t@.len(),
            t@ == trim_spec(s@),
            r@ == lower_seq(t@.subrange(0, i as int)),
        decreases n - i,
    {
        r.push(lower_char(t.get_char(i)));
        proof {
            assert(lower_seq(t@.subrange(0, i + 1)) =~= lower_seq(
                t@.subrange(0, i as int),
            ).push(ascii_lower(t@[i as int])));
        }
        i = i + 1;
    }
    proof {
        assert(t@.subrange(0, n as int) =~= t@);
    }
    r
}

/// Equality of two string slices, decided character by character.
pub fn str_eq(a: &str, b: &str) -> (r: bool)
    ensures
        r == (a@ == b@),
{
    let n: usize = a.unicode_len();
    if n != b.unicode_len() {
        return false;
    }
    let mut i: usize = 0;
    while i < n
        invariant
            0 <= i <= n,
            n == a@.len(),
            n == b@.len(),
            forall|j: int| 0 <= j < i ==> a@[j] == b@[j],
        decreases n - i,
    {
        if a.get_char(i) != b.get_char(i) {
            return false;
        }
        i = i + 1;
    }
    proof {
        assert(a@ =~= b@);
    }
    true
}

/// Equality of a character vector and a string slice.
pub fn chars_eq_str(a: &Vec<char>, b: &str) -> (r: bool)
    ensures
        r == (a@ == b@),
{
    let n: usize = a.len();
    if n != b.unicode_len() {
        return false;
    }
    let mut i: usize = 0;
    while i < n
        invariant
            0 <= i <= n,
            n == a@.len(),
            n == b@.len(),
            forall|j: int| 0 <= j < i ==> a@[j] == b@[j],
        decreases n - i,
    {
        if a[i] != b.get_char(i) {
            return false;
        }
        i = i + 1;
    }
    proof {
        assert(a@ =~= b@);
    }
    true
}

/// Equality of two character vectors.
pub fn chars_eq(a: &Vec<char>, b: &Vec<char>) -> (r: bool)
    ensures
        r == (a@ == b@),
{
    let n: usize = a.len();
    if n != b.len() {
        return false;
    }
    let mut i: usize = 0;
    while i < n
        invariant
            0 <= i <= n,
            n == a@.len(),
            n == b@.len(),
            forall|j: int| 0 <= j < i ==> a@[j] == b@[j],
        decreases n - i,
    {
        if a[i] != b[i] {
            return false;
        }
        i = i + 1;
    }
    proof {
        assert(a@ =~= b@);
    }
    true
}

/// The sequence with all space characters removed, for whitespace-insensitive
/// display-name matching.
pub open spec fn no_spaces(s: Seq<char>) -> Seq<char> {
    s.filter(|c: char| c != ' ')
}

/// Remove every space character.
pub fn without_spaces(v: &Vec<char>) -> (r: Vec<char>)
    ensures
        r@ == no_spaces(v@),
{
    let n: usize = v.len();
    let mut r: Vec<char> = Vec::new();
    let mut i: usize = 0;
    while i < n
        invariant
            0 <= i <= n,
            n == v@.len(),
            r@ == no_spaces(v@.subrange(0, i as int)),
        decreases n - i,
    {
        let c = v[i];
        if c != ' ' {
            r.push(c);
        }
        proof {
            reveal(Seq::filter);
            assert(v@.subrange(0, i + 1).drop_last() =~= v@.subrange(0, i as int));
            assert(v@.subrange(0, i + 1).last() == v@[i as int]);
        }
        i = i + 1;
    }
    proof {
        assert(v@.subrange(0, n as int) =~= v@);
    }
    r
}

/// Strict lexicographic order on character sequences, by scalar value.
pub open spec fn lex_lt(a: Seq<char>, b: Seq<char>) -> bool
    decreases a.len(),
{
    if b.len() == 0 {
        false
    } else if a.len() == 0 {
        true
    } else if (a[0] as u32) < (b[0] as u32) {
        true
    } else if (a[0] as u32) > (b[0] as u32) {
        false
    } else {
        lex_lt(a.subrange(1, a.len() as int), b.subrange(1, b.len() as int))
    }
}

pub proof fn lemma_lex_irrefl(a: Seq<char>)
    ensures
        !lex_lt(a, a),
    decreases a.len(),
{
    if a.len() > 0 {
        lemma_lex_irrefl(a.subrange(1, a.len() as int));
    }
}

pub proof fn lemma_lex_total(a: Seq<char>, b: Seq<char>)
    ensures
        lex_lt(a, b) || lex_lt(b, a) || a == b,
    decreases a.len(),
{
    if a.len() == 0 && b.len() == 0 {
        assert(a =~= b);
    } else if a.len() > 0 && b.len() > 0 {
        if (a[0] as u32) == (b[0] as u32) {
            let ta = a.subrange(1, a.len() as int);
            let tb = b.subrange(1, b.len() as int);
            lemma_lex_total(ta, tb);
            if !lex_lt(ta, tb) && !lex_lt(tb, ta) {
                vstd::utf8::char_u32_cast(a[0], a[0] as u32);
                vstd::utf8::char_u32_cast(b[0], b[0] as u32);
                assert(a[0] == b[0]);
                assert forall|i: int| 0 <= i < a.len() implies a[i] == b[i] by {
                    if i > 0 {
                        assert(ta[i - 1] == tb[i - 1]);
                    }
                }
                assert(a =~= b);
            }
        }
    }
}

pub proof fn lemma_lex_trans(a: Seq<char>, b: Seq<char>, c: Seq<char>)
    requires
        lex_lt(a, b),
        lex_lt(b, c),
    ensures
        lex_lt(a, c),
    decreases a.len() + b.len() + c.len(),
{
    if a.len() == 0 {
    } else {
        if (a[0] as u32) == (b[0] as u32) && (b[0] as u32) == (c[0] as u32) {
            lemma_lex_trans(
                a.subrange(1, a.len() as int),
                b.subrange(1, b.len() as int),
                c.subrange(1, c.len() as int),
            );
        }
    }
}

/// Dropping an equal prefix preserves the order relation.
pub proof fn lemma_lex_common_prefix(a: Seq<char>, b: Seq<char>, i: int)
    requires
        0 <= i <= a.len(),
        i <= b.len(),
        forall|j: int| 0 <= j < i ==> a[j] == b[j],
    ensures
        lex_lt(a, b) == lex_lt(a.subrange(i, a.len() as int), b.subrange(i, b.len() as int)),
    decreases i,
{
    if i == 0 {
        assert(a.subrange(0, a.len() as int) =~= a);
        assert(b.subrange(0, b.len() as int) =~= b);
    } else {
        let ta = a.subrange(1, a.len() as int);
        let tb = b.subrange(1, b.len() as int);
        lemma_lex_common_prefix(ta, tb, i - 1);
        assert(ta.subrange(i - 1, ta.len() as int) =~= a.subrange(i, a.len() as int));
        assert(tb.subrange(i - 1, tb.len() as int) =~= b.subrange(i, b.len() as int));
    }
}

/// Three-way lexicographic comparison of string slices: negative, zero or
/// positive as `a` orders before, equal to, or after `b`.
pub fn str_cmp(a: &str, b: &str) -> (r: i8)
    ensures
        (r == 0) == (a@ == b@),
        (r < 0) == lex_lt(a@, b@),
        (r > 0) == lex_lt(b@, a@),
{
    let la: usize = a.unicode_len();
    let lb: usize = b.unicode_len();
    let n: usize = if la < lb {
        la
    } else {
        lb
    };
    let mut i: usize = 0;
    while i < n
        invariant
            0 <= i <= n,
            la == a@.len(),
            lb == b@.len(),
            n == if la < lb {
                la as int
            } else {
                lb as int
            },
            forall|j: int| 0 <= j < i ==> a@[j] == b@[j],
        decreases n - i,
    {
        let ca: u32 = a.get_char(i) as u32;
        let cb: u32 = b.get_char(i) as u32;
        if ca < cb {
            proof {
                lemma_lex_common_prefix(a@, b@, i as int);
                lemma_lex_common_prefix(b@, a@, i as int);
                assert(a@[i as int] != b@[i as int]);
            }
            return -1;
        }
        if ca > cb {
            proof {
                lemma_lex_common_prefix(a@, b@, i as int);
                lemma_lex_common_prefix(b@, a@, i as int);
                assert(a@[i as int] != b@[i as int]);
            }
            return 1;
        }
        proof {
            assert(a@[i as int] as u32 == b@[i as int] as u32);
            assert(a@[i as int] == b@[i as int]);
        }
        i = i + 1;
    }
    proof {
        lemma_lex_common_prefix(a@, b@, n as int);
        lemma_lex_common_prefix(b@, a@, n as int);
    }
    if la == lb {
        proof {
            assert(a@ =~= b@);
        }
        0
    } else if la < lb {
        proof {
            assert(a@.len() != b@.len());
        }
        -1
    } else {
        proof {
            assert(a@.len() != b@.len());
        }
        1
    }
}

/// The character sequence after the last `/`, or the whole sequence if there
/// is none; the file-name component of a path that does not end in `/`.
pub open spec fn last_index_of(s: Seq<char>, c: char) -> int
    decreases s.len(),
{
    if s.len() == 0 {
        -1
    } else if s[s.len() - 1] == c {
        s.len() - 1
    } else {
        last_index_of(s.subrange(0, s.len() - 1), c)
    }
}

pub proof fn lemma_last_index_of(s: Seq<char>, c: char)
    ensures
        -1 <= last_index_of(s, c) < s.len(),
        last_index_of(s, c) >= 0 ==> s[last_index_of(s, c)] == c,
        forall|j: int| last_index_of(s, c) < j < s.len() ==> s[j] != c,
    decreases s.len(),
{
    if s.len() == 0 {
    } else if s[s.len() - 1] == c {
    } else {
        let t = s.subrange(0, s.len() - 1);
        lemma_last_index_of(t, c);
        assert forall|j: int| last_index_of(s, c) < j < s.len() implies s[j] != c by {
            if j < s.len() - 1 {
                assert(t[j] == s[j]);
            }
        }
    }
}

pub open spec fn file_name_spec(p: Seq<char>) -> Seq<char> {
    p.subrange(last_index_of(p, '/') + 1, p.len() as int)
}

/// The file-name component of a path: everything after the last `/`.
pub fn file_name_of(p: &str) -> (r: &str)
    ensures
        r@ == file_name_spec(p@),
{
    proof {
        lemma_last_index_of(p@, '/');
    }
    let n: usize = p.unicode_len();
    let mut b: usize = n;
    while b > 0 && p.get_char(b - 1) != '/'
        invariant
            0 <= b <= n,
            n == p@.len(),
            forall|j: int| b <= j < n ==> p@[j] != '/',
        decreases b,
    {
        b = b - 1;
    }
    proof {
        let li = last_index_of(p@, '/');
        if b > 0 {
            assert(p@[b - 1] == '/');
            assert(li >= b - 1);
        }
        if li + 1 < b {
            assert(p@[b - 1] != '/');
        }
        assert(b == li + 1);
    }
    p.substring_char(b, n)
}

/// The file name without its extension: everything before the last `.`,
/// except that a name whose only `.` is its first character is kept whole.
pub open spec fn stem_spec(name: Seq<char>) -> Seq<char> {
    let i = last_index_of(name, '.');
    if i <= 0 {
        name
    } else {
        name.subrange(0, i)
    }
}

/// The file name without its extension.
pub fn stem_of(name: &str) -> (r: &str)
    ensures
        r@ == stem_spec(name@),
{
    proof {
        lemma_last_index_of(name@, '.');
    }
    let n: usize = name.unicode_len();
    let mut b: usize = n;
    while b > 0 && name.get_char(b - 1) != '.'
        invariant
            0 <= b <= n,
            n == name@.len(),
            forall|j: int| b <= j < n ==> name@[j] != '.',
        decreases b,
    {
        b = b - 1;
    }
    proof {
        let li = last_index_of(name@, '.');
        if b > 0 {
            assert(name@[b - 1] == '.');
            assert(li >= b - 1);
        }
        if li + 1 < b {
            assert(name@[b - 1] != '.');
        }
        assert(b == li + 1);
    }
    if b <= 1 {
        proof {
            assert(name@.subrange(0, n as int) =~= name@);
        }
        name
    } else {
        name.substring_char(0, b - 1)
    }
}

/// The index of the first occurrence of `c`, or `-1` if there is none.
pub open spec fn first_index_of(s: Seq<char>, c: char) -> int
    decreases s.len(),
{
    if s.len() == 0 {
        -1
    } else if s[0] == c {
        0
    } else {
        let r = first_index_of(s.subrange(1, s.len() as int), c);
        if r == -1 {
            -1
        } else {
            r + 1
        }
    }
}

pub proof fn lemma_first_index_of(s: Seq<char>, c: char)
    ensures
        -1 <= first_index_of(s, c) < s.len(),
        first_index_of(s, c) >= 0 ==> s[first_index_of(s, c)] == c,
        forall|j: int| 0 <= j < first_index_of(s, c) ==> s[j] != c,
        first_index_of(s, c) == -1 ==> forall|j: int| 0 <= j < s.len() ==> s[j] != c,
    decreases s.len(),
{
    if s.len() == 0 {
    } else if s[0] == c {
    } else {
        let t = s.subrange(1, s.len() as int);
        lemma_first_index_of(t, c);
        assert forall|j: int| 0 <= j < first_index_of(s, c) implies s[j] != c by {
            if j > 0 {
                assert(t[j - 1] == s[j]);
            }
        }
        if first_index_of(s, c) == -1 {
            assert forall|j: int| 0 <= j < s.len() implies s[j] != c by {
                if j > 0 {
                    assert(t[j - 1] == s[j]);
                }
            }
        }
    }
}

pub open spec fn has_prefix(s: Seq<char>, x: Seq<char>) -> bool {
    x.len() <= s.len() && s.subrange(0, x.len() as int) == x
}

/// Whether `s` starts with `x`.
pub fn starts_with_str(s: &str, x: &str) -> (r: bool)
    ensures
        r == has_prefix(s@, x@),
{
    let n: usize = s.unicode_len();
    let m: usize = x.unicode_len();
    if m > n {
        return false;
    }
    let mut i: usize = 0;
    while i < m
        invariant
            0 <= i <= m,
            m <= n,
            n == s@.len(),
            m == x@.len(),
            forall|j: int| 0 <= j < i ==> s@[j] == x@[j],
        decreases m - i,
    {
        if s.get_char(i) != x.get_char(i) {
            proof {
                assert(s@.subrange(0, x@.len() as int)[i as int] != x@[i as int]);
            }
            return false;
        }
        i = i + 1;
    }
    proof {
        assert(s@.subrange(0, x@.len() as int) =~= x@);
    }
    true
}

pub open spec fn has_suffix(s: Seq<char>, x: Seq<char>) -> bool {
    x.len() <= s.len() && s.subrange(s.len() - x.len(), s.len() as int) == x
}

/// Whether `s` ends with `x`.
pub fn ends_with_str(s: &str, x: &str) -> (r: bool)
    ensures
        r == has_suffix(s@, x@),
{
    let n: usize = s.unicode_len();
    let m: usize = x.unicode_len();
    if m > n {
        return false;
    }
    let mut i: usize = 0;
    while i < m
        invariant
            0 <= i <= m,
            m <= n,
            n == s@.len(),
            m == x@.len(),
            forall|j: int| 0 <= j < i ==> s@[n - m + j] == x@[j],
        decreases m - i,
    {
        if s.get_char(n - m + i) != x.get_char(i) {
            proof {
                assert(s@.subrange(s@.len() - x@.len(), s@.len() as int)[i as int] != x@[
                    i as int
                ]);
            }
            return false;
        }
        i = i + 1;
    }
    proof {
        assert(s@.subrange(s@.len() - x@.len(), s@.len() as int) =~= x@);
    }
    true
}

/// Whether a trimmed path string is absolute: non-empty and starting at `/`.
pub open spec fn is_abs(p: Seq<char>) -> bool {
    p.len() > 0 && p[0] == '/'
}

pub fn is_abs_exec(p: &str) -> (r: bool)
    ensures
        r == is_abs(p@),
{
    p.unicode_len() > 0 && p.get_char(0) == '/'
}

} // verus!
