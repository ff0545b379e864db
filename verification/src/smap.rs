//! A string-keyed map kept sorted by key, so that iteration order — and with
//! it the persisted form of a configuration — is deterministic.
//!
//! The view of a map is its sequence of (key view, value) entries in order;
//! `has_key` and `get_val` give the association-map reading of that sequence.

use vstd::prelude::*;

use crate::strutil::{lemma_lex_irrefl, lemma_lex_total, lemma_lex_trans, lex_lt, str_cmp, str_eq};

verus! {

/// Whether some entry has this key.
pub open spec fn has_key<V>(s: Seq<(Seq<char>, V)>, key: Seq<char>) -> bool {
    exists|i: int| 0 <= i < s.len() && (#[trigger] s[i]).0 == key
}

/// The index of the entry with this key (unique when the keys are sorted).
pub open spec fn key_idx<V>(s: Seq<(Seq<char>, V)>, key: Seq<char>) -> int {
    choose|i: int| 0 <= i < s.len() && (#[trigger] s[i]).0 == key
}

/// The value stored under this key.
pub open spec fn get_val<V>(s: Seq<(Seq<char>, V)>, key: Seq<char>) -> V {
    s[key_idx(s, key)].1
}

/// Keys strictly increase: sorted and, in consequence, duplicate-free.
pub open spec fn map_wf<V>(s: Seq<(Seq<char>, V)>) -> bool {
    forall|i: int, j: int|
        0 <= i < j < s.len() ==> lex_lt((#[trigger] s[i]).0, (#[trigger] s[j]).0)
}

pub proof fn lemma_wf_unique<V>(s: Seq<(Seq<char>, V)>)
    requires
        map_wf(s),
    ensures
        forall|i: int, j: int|
            0 <= i < s.len() && 0 <= j < s.len() && i != j ==> (#[trigger] s[i]).0 != (
            #[trigger] s[j]).0,
{
    assert forall|i: int, j: int|
        0 <= i < s.len() && 0 <= j < s.len() && i != j implies (#[trigger] s[i]).0 != (
    #[trigger] s[j]).0 by {
        lemma_lex_irrefl(s[i].0);
    }
}

/// With sorted keys, `key_idx` is the one index holding `key`.
pub proof fn lemma_key_idx<V>(s: Seq<(Seq<char>, V)>, key: Seq<char>)
    requires
        map_wf(s),
        has_key(s, key),
    ensures
        0 <= key_idx(s, key) < s.len(),
        s[key_idx(s, key)].0 == key,
        forall|i: int| 0 <= i < s.len() && (#[trigger] s[i]).0 == key ==> i == key_idx(s, key),
{
    lemma_wf_unique(s);
}

/// Sorted maps are canonical: two well-formed maps holding exactly the same
/// associations are the same sequence of entries. Whatever order updates
/// arrive in, the persisted form of a map is determined by its contents
/// alone — the order-stability the configuration file relies on.
pub proof fn lemma_sorted_canonical<V>(a: Seq<(Seq<char>, V)>, b: Seq<(Seq<char>, V)>)
    requires
        map_wf(a),
        map_wf(b),
        forall|key: Seq<char>| #[trigger] has_key(a, key) == has_key(b, key),
        forall|key: Seq<char>| has_key(a, key) ==> #[trigger] get_val(a, key) == get_val(b, key),
    ensures
        a == b,
    decreases a.len(),
{
    lemma_wf_unique(a);
    lemma_wf_unique(b);
    if a.len() == 0 {
        if b.len() > 0 {
            assert(has_key(b, b[0].0)) by {
                assert(b[0].0 == b[0].0);
            }
            assert(has_key(a, b[0].0));
            let w = choose|w: int| 0 <= w < a.len() && (#[trigger] a[w]).0 == b[0].0;
            assert(false);
        }
        assert(a =~= b);
    } else if b.len() == 0 {
        assert(has_key(a, a[0].0)) by {
            assert(a[0].0 == a[0].0);
        }
        assert(has_key(b, a[0].0));
        let w = choose|w: int| 0 <= w < b.len() && (#[trigger] b[w]).0 == a[0].0;
        assert(false);
    } else {
        // both heads carry the minimal key, so they are the same entry
        assert(has_key(a, a[0].0)) by {
            assert(a[0].0 == a[0].0);
        }
        assert(has_key(b, b[0].0)) by {
            assert(b[0].0 == b[0].0);
        }
        assert(has_key(b, a[0].0));
        assert(has_key(a, b[0].0));
        lemma_key_idx(b, a[0].0);
        lemma_key_idx(a, b[0].0);
        let ib = key_idx(b, a[0].0);
        let ia = key_idx(a, b[0].0);
        if ib > 0 {
            assert(lex_lt(b[0].0, b[ib].0));
            if ia > 0 {
                assert(lex_lt(a[0].0, a[ia].0));
                lemma_lex_trans(a[0].0, b[0].0, a[0].0);
            }
            lemma_lex_irrefl(a[0].0);
            assert(false);
        }
        assert(b[0].0 == a[0].0);
        lemma_key_idx(a, a[0].0);
        lemma_key_idx(b, a[0].0);
        assert(key_idx(a, a[0].0) == 0);
        assert(key_idx(b, a[0].0) == 0);
        assert(get_val(a, a[0].0) == a[0].1);
        assert(get_val(b, a[0].0) == b[0].1);
        assert(a[0] == b[0]);
        // the tails agree association for association
        let ta = a.subrange(1, a.len() as int);
        let tb = b.subrange(1, b.len() as int);
        assert forall|i: int, j: int| 0 <= i < j < ta.len() implies lex_lt(
            (#[trigger] ta[i]).0,
            (#[trigger] ta[j]).0,
        ) by {
            assert(ta[i] == a[i + 1] && ta[j] == a[j + 1]);
        }
        assert forall|i: int, j: int| 0 <= i < j < tb.len() implies lex_lt(
            (#[trigger] tb[i]).0,
            (#[trigger] tb[j]).0,
        ) by {
            assert(tb[i] == b[i + 1] && tb[j] == b[j + 1]);
        }
        assert forall|key: Seq<char>| #[trigger] has_key(ta, key) == has_key(tb, key) by {
            if has_key(ta, key) {
                let w = choose|w: int| 0 <= w < ta.len() && (#[trigger] ta[w]).0 == key;
                assert(a[w + 1].0 == key);
                assert(has_key(a, key));
                assert(key != a[0].0);
                lemma_key_idx(b, key);
                let wb = key_idx(b, key);
                assert(wb != 0);
                assert(tb[wb - 1].0 == key);
            }
            if has_key(tb, key) {
                let w = choose|w: int| 0 <= w < tb.len() && (#[trigger] tb[w]).0 == key;
                assert(b[w + 1].0 == key);
                assert(has_key(b, key));
                assert(key != b[0].0);
                lemma_key_idx(a, key);
                let wa = key_idx(a, key);
                assert(wa != 0);
                assert(ta[wa - 1].0 == key);
            }
        }
        assert forall|key: Seq<char>| has_key(ta, key) implies #[trigger] get_val(ta, key)
            == get_val(tb, key) by {
            let w = choose|w: int| 0 <= w < ta.len() && (#[trigger] ta[w]).0 == key;
            assert(a[w + 1].0 == key);
            assert(has_key(a, key));
            lemma_key_idx(a, key);
            assert(key_idx(a, key) == w + 1);
            lemma_key_idx(b, key);
            let wb = key_idx(b, key);
            assert(wb != 0);
            assert(tb[wb - 1].0 == key);
            assert forall|i: int, j: int|
                0 <= i < ta.len() && 0 <= j < ta.len() && i != j implies (#[trigger] ta[i]).0 != (
            #[trigger] ta[j]).0 by {
                lemma_lex_irrefl(ta[i].0);
                assert(ta[i] == a[i + 1] && ta[j] == a[j + 1]);
            }
            assert forall|i: int, j: int|
                0 <= i < tb.len() && 0 <= j < tb.len() && i != j implies (#[trigger] tb[i]).0 != (
            #[trigger] tb[j]).0 by {
                lemma_lex_irrefl(tb[i].0);
                assert(tb[i] == b[i + 1] && tb[j] == b[j + 1]);
            }
            let wta = choose|w2: int| 0 <= w2 < ta.len() && (#[trigger] ta[w2]).0 == key;
            assert(key_idx(ta, key) == wta || ta[key_idx(ta, key)].0 == key);
            assert(get_val(ta, key) == a[key_idx(ta, key) + 1].1);
            assert(a[key_idx(ta, key) + 1].0 == key);
            assert(key_idx(ta, key) + 1 == w + 1);
            assert(get_val(ta, key) == a[w + 1].1);
            assert(get_val(a, key) == a[w + 1].1);
            assert(get_val(tb, key) == b[key_idx(tb, key) + 1].1);
            assert(b[key_idx(tb, key) + 1].0 == key);
            lemma_key_idx(b, key);
            assert(key_idx(tb, key) + 1 == key_idx(b, key));
            assert(get_val(tb, key) == get_val(b, key));
        }
        lemma_sorted_canonical(ta, tb);
        assert forall|i: int| 0 <= i < a.len() implies a[i] == b[i] by {
            if i > 0 {
                assert(ta[i - 1] == tb[i - 1]);
            }
        }
        assert(a =~= b);
    }
}

/// How one map extends another by a batch of changes: the changed keys take
/// the new values, every other association is kept.
pub open spec fn map_extended<V>(
    new: Seq<(Seq<char>, V)>,
    old: Seq<(Seq<char>, V)>,
    ch: Seq<(Seq<char>, V)>,
) -> bool {
    &&& forall|key: Seq<char>|
        #[trigger] has_key(new, key) == (has_key(old, key) || has_key(ch, key))
    &&& forall|key: Seq<char>|
        has_key(ch, key) ==> #[trigger] get_val(new, key) == get_val(ch, key)
    &&& forall|key: Seq<char>|
        !has_key(ch, key) && has_key(old, key) ==> #[trigger] get_val(new, key) == get_val(
            old,
            key,
        )
}

/// A map from plugin or target names to values, with its entries sorted by
/// key.
pub struct SMap<V> {
    entries: Vec<(String, V)>,
}

impl<V> View for SMap<V> {
    type V = Seq<(Seq<char>, V)>;

    closed spec fn view(&self) -> Seq<(Seq<char>, V)> {
        self.entries@.map_values(|p: (String, V)| (p.0@, p.1))
    }
}

impl<V> SMap<V> {
    /// Well-formed: entries sorted by strictly increasing key.
    pub open spec fn wf(&self) -> bool {
        map_wf(self@)
    }

    pub fn new() -> (r: SMap<V>)
        ensures
            r@ == Seq::<(Seq<char>, V)>::empty(),
            r.wf(),
    {
        let r = SMap { entries: Vec::new() };
        proof {
            assert(r@ =~= Seq::<(Seq<char>, V)>::empty());
        }
        r
    }

    pub fn len(&self) -> (r: usize)
        ensures
            r == self@.len(),
    {
        self.entries.len()
    }

    pub fn is_empty(&self) -> (r: bool)
        ensures
            r == (self@.len() == 0),
    {
        self.entries.len() == 0
    }

    /// The key of the entry at position `i`.
    pub fn key_at(&self, i: usize) -> (r: &String)
        requires
            i < self@.len(),
        ensures
            r@ == self@[i as int].0,
    {
        &self.entries[i].0
    }

    /// The value of the entry at position `i`.
    pub fn val_at(&self, i: usize) -> (r: &V)
        requires
            i < self@.len(),
        ensures
            *r == self@[i as int].1,
    {
        &self.entries[i].1
    }

    /// Look a key up.
    pub fn get(&self, k: &str) -> (r: Option<&V>)
        requires
            self.wf(),
        ensures
            match r {
                Some(v) => has_key(self@, k@) && *v == get_val(self@, k@),
                None => !has_key(self@, k@),
            },
    {
        let n: usize = self.entries.len();
        let mut i: usize = 0;
        while i < n
            invariant
                0 <= i <= n,
                n == self@.len(),
                self.wf(),
                forall|j: int| 0 <= j < i ==> (#[trigger] self@[j]).0 != k@,
            decreases n - i,
        {
            if str_eq(self.entries[i].0.as_str(), k) {
                proof {
                    assert(self@[i as int] == (self.entries@[i as int].0@, self.entries@[
                        i as int
                    ].1));
                    assert(self@[i as int].0 == k@);
                    lemma_key_idx(self@, k@);
                    assert(key_idx(self@, k@) == i as int);
                }
                return Some(&self.entries[i].1);
            }
            proof {
                assert(self@[i as int] == (self.entries@[i as int].0@, self.entries@[
                    i as int
                ].1));
            }
            i = i + 1;
        }
        None
    }

    /// Whether a key is present.
    pub fn contains_key(&self, k: &str) -> (r: bool)
        requires
            self.wf(),
        ensures
            r == has_key(self@, k@),
    {
        match self.get(k) {
            Some(_) => true,
            None => false,
        }
    }

    /// Insert an association, replacing any existing entry for the key and
    /// keeping the entries sorted.
    pub fn insert(&mut self, k: String, v: V)
        requires
            old(self).wf(),
        ensures
            final(self).wf(),
            has_key(final(self)@, k@),
            get_val(final(self)@, k@) == v,
            forall|key: Seq<char>|
                key != k@ ==> #[trigger] has_key(final(self)@, key) == has_key(old(self)@, key),
            forall|key: Seq<char>|
                key != k@ && has_key(old(self)@, key) ==> #[trigger] get_val(final(self)@, key)
                    == get_val(old(self)@, key),
            final(self)@.len() == old(self)@.len() + (if has_key(old(self)@, k@) {
                0int
            } else {
                1int
            }),
    {
        let ghost s0 = self@;
        proof {
            assert forall|j: int| 0 <= j < s0.len() implies s0[j] == (
                self.entries@[j].0@,
                self.entries@[j].1,
            ) by {}
        }
        let n: usize = self.entries.len();
        let mut i: usize = 0;
        while i < n
            invariant
                0 <= i <= n,
                n == self@.len(),
                self == old(self),
                self@ == s0,
                forall|j: int| 0 <= j < i ==> lex_lt((#[trigger] s0[j]).0, k@),
            ensures
                0 <= i <= n,
                self == old(self),
                self@ == s0,
                forall|j: int| 0 <= j < i ==> lex_lt((#[trigger] s0[j]).0, k@),
                i < n ==> !lex_lt(s0[i as int].0, k@),
            decreases n - i,
        {
            proof {
                assert(s0[i as int] == (self.entries@[i as int].0@, self.entries@[i as int].1));
            }
            let c = str_cmp(self.entries[i].0.as_str(), k.as_str());
            if c >= 0 {
                break ;
            }
            i = i + 1;
        }
        proof {
            lemma_wf_unique(s0);
            if i < n {
                assert(s0[i as int] == (self.entries@[i as int].0@, self.entries@[i as int].1));
            }
        }
        if i < n && str_eq(self.entries[i].0.as_str(), k.as_str()) {
            proof {
                assert(s0[i as int].0 == k@);
            }
            self.entries.remove(i);
            self.entries.insert(i, (k, v));
            proof {
                assert forall|j: int| 0 <= j < self@.len() implies self@[j] == (
                    self.entries@[j].0@,
                    self.entries@[j].1,
                ) by {}
                assert forall|j: int| 0 <= j < self@.len() && j != i implies self@[j] == s0[j] by {
                    assert(self.entries@[j] == old(self).entries@[j]);
                }
                assert(self@[i as int].0 == k@);
                assert(self@[i as int].1 == v);
                assert(self@.len() == s0.len());
                assert forall|a: int, b: int| 0 <= a < b < self@.len() implies lex_lt(
                    (#[trigger] self@[a]).0,
                    (#[trigger] self@[b]).0,
                ) by {
                    assert(self@[a].0 == s0[a].0);
                    assert(self@[b].0 == s0[b].0);
                }
                assert(self.wf());
                lemma_wf_unique(self@);
                assert(has_key(self@, k@)) by {
                    assert(self@[i as int].0 == k@);
                }
                lemma_key_idx(self@, k@);
                assert(get_val(self@, k@) == v);
                assert forall|key: Seq<char>| key != k@ implies #[trigger] has_key(self@, key)
                    == has_key(s0, key) by {
                    if has_key(self@, key) {
                        let w = choose|w: int|
                            0 <= w < self@.len() && (#[trigger] self@[w]).0 == key;
                        assert(s0[w].0 == key);
                    }
                    if has_key(s0, key) {
                        let w = choose|w: int| 0 <= w < s0.len() && (#[trigger] s0[w]).0 == key;
                        assert(self@[w].0 == key);
                    }
                }
                assert forall|key: Seq<char>| key != k@ && has_key(s0, key) implies #[trigger]
                    get_val(self@, key) == get_val(s0, key) by {
                    lemma_key_idx(s0, key);
                    let w = key_idx(s0, key);
                    assert(self@[w].0 == key);
                    lemma_key_idx(self@, key);
                    assert(key_idx(self@, key) == w);
                }
            }
        } else {
            proof {
                if i < n {
                    lemma_lex_total(self@[i as int].0, k@);
                }
            }
            self.entries.insert(i, (k, v));
            proof {
                let s1 = self@;
                assert forall|j: int| 0 <= j < s1.len() implies s1[j] == (
                    self.entries@[j].0@,
                    self.entries@[j].1,
                ) by {}
                assert(s1.len() == s0.len() + 1);
                assert forall|j: int| 0 <= j < i implies s1[j] == s0[j] by {
                    assert(self.entries@[j] == old(self).entries@[j]);
                }
                assert(s1[i as int].0 == k@ && s1[i as int].1 == v);
                assert forall|j: int| i < j < s1.len() implies s1[j] == s0[j - 1] by {
                    assert(self.entries@[j] == old(self).entries@[j - 1]);
                }
                // the new entry orders after the prefix and before the suffix
                assert forall|a: int, b: int| 0 <= a < b < s1.len() implies lex_lt(
                    (#[trigger] s1[a]).0,
                    (#[trigger] s1[b]).0,
                ) by {
                    if a == i {
                        if b > i {
                            assert(lex_lt(k@, s0[i as int].0));
                            if b > i + 1 {
                                lemma_lex_trans(k@, s0[i as int].0, s0[b - 1].0);
                            }
                        }
                    } else if b == i {
                        assert(lex_lt(s0[a].0, k@));
                    } else if a < i && b > i {
                        assert(lex_lt(s0[a].0, k@));
                        assert(lex_lt(k@, s0[i as int].0));
                        if b > i + 1 {
                            lemma_lex_trans(k@, s0[i as int].0, s0[b - 1].0);
                        }
                        lemma_lex_trans(s0[a].0, k@, s0[b - 1].0);
                    }
                }
                assert(self.wf());
                lemma_wf_unique(s1);
                assert(has_key(s1, k@)) by {
                    assert(s1[i as int].0 == k@);
                }
                lemma_key_idx(s1, k@);
                assert(get_val(s1, k@) == v);
                assert(!has_key(s0, k@)) by {
                    if has_key(s0, k@) {
                        let w = choose|w: int| 0 <= w < s0.len() && (#[trigger] s0[w]).0 == k@;
                        if w < i {
                            assert(lex_lt(s0[w].0, k@));
                            lemma_lex_irrefl(k@);
                        } else if w == i {
                            assert(!lex_lt(s0[i as int].0, k@));
                            assert(s0[i as int].0 != k@);
                        } else {
                            assert(lex_lt(s0[i as int].0, s0[w].0));
                            assert(lex_lt(k@, s0[i as int].0) || s0[i as int].0 == k@);
                            lemma_lex_irrefl(k@);
                            if s0[i as int].0 == k@ {
                            } else {
                                lemma_lex_trans(k@, s0[i as int].0, s0[w].0);
                                lemma_lex_irrefl(k@);
                            }
                        }
                    }
                }
                assert forall|key: Seq<char>| key != k@ implies #[trigger] has_key(s1, key)
                    == has_key(s0, key) by {
                    if has_key(s1, key) {
                        let w = choose|w: int| 0 <= w < s1.len() && (#[trigger] s1[w]).0 == key;
                        if w < i {
                            assert(s0[w].0 == key);
                        } else {
                            assert(w > i);
                            assert(s0[w - 1].0 == key);
                        }
                    }
                    if has_key(s0, key) {
                        let w = choose|w: int| 0 <= w < s0.len() && (#[trigger] s0[w]).0 == key;
                        if w < i {
                            assert(s1[w].0 == key);
                        } else {
                            assert(s1[w + 1].0 == key);
                        }
                    }
                }
                assert forall|key: Seq<char>| key != k@ && has_key(s0, key) implies #[trigger]
                    get_val(s1, key) == get_val(s0, key) by {
                    lemma_key_idx(s0, key);
                    let w = key_idx(s0, key);
                    if w < i {
                        assert(s1[w].0 == key && s1[w].1 == s0[w].1);
                        lemma_key_idx(s1, key);
                        assert(key_idx(s1, key) == w);
                    } else {
                        assert(s1[w + 1].0 == key && s1[w + 1].1 == s0[w].1);
                        lemma_key_idx(s1, key);
                        assert(key_idx(s1, key) == w + 1);
                    }
                }
            }
        }
    }
}

impl<V: Copy> SMap<V> {
    /// An identical copy; the keys are re-allocated.
    pub fn duplicate(&self) -> (r: SMap<V>)
        ensures
            r@ == self@,
    {
        let n: usize = self.entries.len();
        let mut e: Vec<(String, V)> = Vec::new();
        let mut i: usize = 0;
        while i < n
            invariant
                0 <= i <= n,
                n == self.entries@.len(),
                e@.len() == i,
                forall|j: int| 0 <= j < i ==> e@[j] == self.entries@[j],
            decreases n - i,
        {
            let key = self.entries[i].0.clone();
            let val = self.entries[i].1;
            e.push((key, val));
            i = i + 1;
        }
        let r = SMap { entries: e };
        proof {
            assert(r@ =~= self@);
        }
        r
    }

    /// Merge a batch of changes in: every association of `other` is inserted,
    /// overwriting what was there.
    pub fn extend(&mut self, other: &SMap<V>)
        requires
            old(self).wf(),
            other.wf(),
        ensures
            final(self).wf(),
            map_extended(final(self)@, old(self)@, other@),
    {
        let m: usize = other.len();
        let mut i: usize = 0;
        while i < m
            invariant
                0 <= i <= m,
                m == other@.len(),
                other.wf(),
                self.wf(),
                forall|key: Seq<char>|
                    #[trigger] has_key(self@, key) == (has_key(old(self)@, key) || has_key(
                        other@.subrange(0, i as int),
                        key,
                    )),
                forall|key: Seq<char>|
                    has_key(other@.subrange(0, i as int), key) ==> #[trigger] get_val(self@, key)
                        == get_val(other@, key),
                forall|key: Seq<char>|
                    !has_key(other@.subrange(0, i as int), key) && has_key(old(self)@, key)
                        ==> #[trigger] get_val(self@, key) == get_val(old(self)@, key),
            decreases m - i,
        {
            let ghost subi = other@.subrange(0, i as int);
            let key = other.key_at(i);
            let val = *other.val_at(i);
            let k = key.clone();
            proof {
                lemma_wf_unique(other@);
                lemma_key_idx(other@, other@[i as int].0);
                assert(get_val(other@, other@[i as int].0) == other@[i as int].1);
            }
            self.insert(k, val);
            proof {
                let subi1 = other@.subrange(0, i + 1);
                assert(subi1.drop_last() =~= subi);
                assert(subi1.last() == other@[i as int]);
                assert forall|key: Seq<char>| #[trigger]
                    has_key(subi1, key) == (has_key(subi, key) || key == other@[i as int].0) by {
                    if has_key(subi1, key) {
                        let w = choose|w: int|
                            0 <= w < subi1.len() && (#[trigger] subi1[w]).0 == key;
                        if w < i {
                            assert(subi[w].0 == key);
                        }
                    }
                    if has_key(subi, key) {
                        let w = choose|w: int| 0 <= w < subi.len() && (#[trigger] subi[w]).0 == key;
                        assert(subi1[w].0 == key);
                    }
                    if key == other@[i as int].0 {
                        assert(subi1[i as int].0 == key);
                    }
                }
            }
            i = i + 1;
        }
        proof {
            assert(other@.subrange(0, m as int) =~= other@);
        }
    }
}

} // verus!
