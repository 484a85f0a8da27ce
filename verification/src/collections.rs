//! Ordered string collections: a set of strings and a map keyed by strings,
//! both kept in ascending lexicographic order without repeated keys (the
//! order in which `BTreeSet<String>` and `BTreeMap<String, _>` walk).
//!
//! vstd's specifications of `BTreeSet` and `BTreeMap` hold only for keys
//! whose `Ord` it models, and it models none for `String`, so these
//! collections keep their items in a `Vec` with the order as a type invariant.

use vstd::prelude::*;
use crate::text::{lex_lt, lemma_lex_asymmetric, lemma_lex_irreflexive, lemma_lex_total, lemma_lex_transitive, str_eq, str_less};

verus! {

/// No text occurs twice and every text sorts before the ones after it.
pub open spec fn strictly_sorted(s: Seq<Seq<char>>) -> bool {
    forall|i: int, j: int| 0 <= i < j < s.len() ==> lex_lt(#[trigger] s[i], #[trigger] s[j])
}

/// `v` lists the texts of `set` in ascending order, each once.
pub open spec fn sorted_listing(v: Seq<Seq<char>>, set: Set<Seq<char>>) -> bool {
    strictly_sorted(v) && v.to_set() == set
}

pub open spec fn views(v: Seq<String>) -> Seq<Seq<char>> {
    v.map_values(|s: String| s@)
}

pub proof fn lemma_push_to_set<A>(s: Seq<A>, x: A)
    ensures
        s.push(x).to_set() == s.to_set().insert(x),
{
    let t = s.push(x);
    assert forall|y: A| t.to_set().contains(y) <==> s.to_set().insert(x).contains(y) by {
        if t.to_set().contains(y) {
            let k = choose|k: int| 0 <= k < t.len() && t[k] == y;
            if k < s.len() {
                assert(s[k] == y);
            }
        }
        if s.to_set().contains(y) {
            let k = choose|k: int| 0 <= k < s.len() && s[k] == y;
            assert(t[k] == y);
        }
        if y == x {
            assert(t[s.len() as int] == x);
        }
    }
    assert(t.to_set() =~= s.to_set().insert(x));
}

pub proof fn lemma_empty_to_set<A>(s: Seq<A>)
    requires
        s.len() == 0,
    ensures
        s.to_set() == Set::<A>::empty(),
{
    assert(s.to_set() =~= Set::<A>::empty());
}

/// Two ascending listings of the same set are the same sequence.
pub proof fn lemma_sorted_listing_unique(a: Seq<Seq<char>>, b: Seq<Seq<char>>)
    requires
        strictly_sorted(a),
        strictly_sorted(b),
        a.to_set() == b.to_set(),
    ensures
        a == b,
    decreases a.len(),
{
    if a.len() == 0 {
        if b.len() > 0 {
            assert(b.to_set().contains(b[0]));
        }
        assert(a =~= b);
    } else if b.len() == 0 {
        assert(a.to_set().contains(a[0]));
    } else {
        // the smallest elements agree
        assert(a.to_set().contains(a[0]));
        assert(b.to_set().contains(b[0]));
        let ia = choose|i: int| 0 <= i < a.len() && a[i] == b[0];
        let ib = choose|i: int| 0 <= i < b.len() && b[i] == a[0];
        if a[0] != b[0] {
            if ia > 0 {
                assert(lex_lt(a[0], a[ia]));
            }
            if ib > 0 {
                assert(lex_lt(b[0], b[ib]));
            }
            lemma_lex_asymmetric(a[0], b[0]);
        }
        let ra = a.drop_first();
        let rb = b.drop_first();
        assert forall|x: Seq<char>| ra.to_set().contains(x) implies rb.to_set().contains(x) by {
            let i = choose|i: int| 0 <= i < ra.len() && ra[i] == x;
            assert(a[i + 1] == x);
            assert(lex_lt(a[0], x));
            assert(a.to_set().contains(x));
            let j = choose|j: int| 0 <= j < b.len() && b[j] == x;
            if j == 0 {
                lemma_lex_irreflexive(x);
            }
            assert(rb[j - 1] == x);
        }
        assert forall|x: Seq<char>| rb.to_set().contains(x) implies ra.to_set().contains(x) by {
            let i = choose|i: int| 0 <= i < rb.len() && rb[i] == x;
            assert(b[i + 1] == x);
            assert(lex_lt(b[0], x));
            assert(b.to_set().contains(x));
            let j = choose|j: int| 0 <= j < a.len() && a[j] == x;
            if j == 0 {
                lemma_lex_irreflexive(x);
            }
            assert(ra[j - 1] == x);
        }
        assert(ra.to_set() =~= rb.to_set());
        lemma_sorted_listing_unique(ra, rb);
        assert(a =~= seq![a[0]] + ra);
        assert(b =~= seq![b[0]] + rb);
    }
}

/// Inserting `x` at `pos` keeps a strictly sorted listing sorted when every
/// text before `pos` sorts below `x` and every text from `pos` on sorts above.
proof fn lemma_insert_sorted(s: Seq<Seq<char>>, pos: int, x: Seq<char>)
    requires
        strictly_sorted(s),
        0 <= pos <= s.len(),
        forall|i: int| 0 <= i < pos ==> lex_lt(#[trigger] s[i], x),
        forall|i: int| pos <= i < s.len() ==> lex_lt(x, #[trigger] s[i]),
    ensures
        strictly_sorted(s.insert(pos, x)),
        s.insert(pos, x).to_set() == s.to_set().insert(x),
{
    let t = s.insert(pos, x);
    assert forall|i: int, j: int| 0 <= i < j < t.len() implies lex_lt(#[trigger] t[i], #[trigger] t[j]) by {
        if i < pos && j == pos {
        } else if i < pos && j > pos {
            assert(t[j] == s[j - 1]);
        } else if i == pos {
            assert(t[j] == s[j - 1]);
        } else if i > pos {
            assert(t[i] == s[i - 1]);
            assert(t[j] == s[j - 1]);
        }
    }
    assert forall|y: Seq<char>| t.to_set().contains(y) <==> s.to_set().insert(x).contains(y) by {
        if t.to_set().contains(y) {
            let k = choose|k: int| 0 <= k < t.len() && t[k] == y;
            if k < pos {
                assert(s[k] == y);
            } else if k > pos {
                assert(s[k - 1] == y);
            }
        }
        if s.to_set().contains(y) {
            let k = choose|k: int| 0 <= k < s.len() && s[k] == y;
            if k < pos {
                assert(t[k] == y);
            } else {
                assert(t[k + 1] == y);
            }
        }
        if y == x {
            assert(t[pos] == x);
        }
    }
    assert(t.to_set() =~= s.to_set().insert(x));
}

proof fn lemma_remove_sorted(s: Seq<Seq<char>>, pos: int)
    requires
        strictly_sorted(s),
        0 <= pos < s.len(),
    ensures
        strictly_sorted(s.remove(pos)),
        s.remove(pos).to_set() == s.to_set().remove(s[pos]),
{
    let t = s.remove(pos);
    assert forall|i: int, j: int| 0 <= i < j < t.len() implies lex_lt(#[trigger] t[i], #[trigger] t[j]) by {
        if j < pos {
        } else if i < pos {
            assert(t[j] == s[j + 1]);
        } else {
            assert(t[i] == s[i + 1]);
            assert(t[j] == s[j + 1]);
        }
    }
    assert forall|y: Seq<char>| t.to_set().contains(y) <==> s.to_set().remove(s[pos]).contains(y) by {
        if t.to_set().contains(y) {
            let k = choose|k: int| 0 <= k < t.len() && t[k] == y;
            if k < pos {
                assert(s[k] == y);
                assert(lex_lt(s[k], s[pos]));
                lemma_lex_irreflexive(y);
            } else {
                assert(s[k + 1] == y);
                assert(lex_lt(s[pos], s[k + 1]));
                lemma_lex_irreflexive(y);
            }
        }
        if s.to_set().remove(s[pos]).contains(y) {
            let k = choose|k: int| 0 <= k < s.len() && s[k] == y;
            if k < pos {
                assert(t[k] == y);
            } else {
                assert(k != pos);
                assert(t[k - 1] == y);
            }
        }
    }
    assert(t.to_set() =~= s.to_set().remove(s[pos]));
}

/// A set of strings walked in ascending order (`BTreeSet<String>`).
pub struct StringSet {
    items: Vec<String>,
}

impl View for StringSet {
    type V = Seq<Seq<char>>;

    closed spec fn view(&self) -> Seq<Seq<char>> {
        views(self.items@)
    }
}

impl StringSet {
    #[verifier::type_invariant]
    closed spec fn inv(self) -> bool {
        strictly_sorted(views(self.items@))
    }

    /// The members of the set.
    pub open spec fn set(&self) -> Set<Seq<char>> {
        self@.to_set()
    }

    pub fn new() -> (r: Self)
        ensures
            r@ == Seq::<Seq<char>>::empty(),
    {
        let r = StringSet { items: Vec::new() };
        assert(views(r.items@) =~= Seq::<Seq<char>>::empty());
        r
    }

    pub fn len(&self) -> (r: usize)
        ensures
            r == self@.len(),
    {
        self.items.len()
    }

    /// The number of members that sort below `key`, and whether `key` is a member.
    fn locate(&self, key: &str) -> (r: (usize, bool))
        ensures
            r.0 <= self@.len(),
            forall|i: int| 0 <= i < r.0 ==> lex_lt(#[trigger] self@[i], key@),
            r.1 ==> r.0 < self@.len() && self@[r.0 as int] == key@,
            !r.1 ==> forall|i: int| r.0 <= i < self@.len() ==> lex_lt(key@, #[trigger] self@[i]),
    {
        proof {
            use_type_invariant(self);
        }
        let mut lo: usize = 0;
        let mut hi: usize = self.items.len();
        while lo < hi
            invariant
                lo <= hi <= self@.len(),
                self@.len() == self.items@.len(),
                strictly_sorted(self@),
                forall|i: int| 0 <= i < lo ==> lex_lt(#[trigger] self@[i], key@),
                forall|i: int| hi <= i < self@.len() ==> !lex_lt(#[trigger] self@[i], key@),
            decreases hi - lo,
        {
            let mid = lo + (hi - lo) / 2;
            assert(self@[mid as int] == self.items@[mid as int]@);
            if str_less(self.items[mid].as_str(), key) {
                assert forall|i: int| 0 <= i <= mid implies lex_lt(#[trigger] self@[i], key@) by {
                    if i < mid {
                        lemma_lex_transitive(self@[i], self@[mid as int], key@);
                    }
                }
                lo = mid + 1;
            } else {
                assert forall|i: int| mid <= i < self@.len() implies !lex_lt(#[trigger] self@[i], key@) by {
                    if i > mid {
                        if lex_lt(self@[i], key@) {
                            lemma_lex_transitive(self@[mid as int], self@[i], key@);
                        }
                    }
                }
                hi = mid;
            }
        }
        if lo < self.items.len() {
            assert(self@[lo as int] == self.items@[lo as int]@);
            if str_eq(self.items[lo].as_str(), key) {
                return (lo, true);
            }
            assert forall|i: int| lo <= i < self@.len() implies lex_lt(key@, #[trigger] self@[i]) by {
                lemma_lex_total(key@, self@[lo as int]);
                if i > lo {
                    lemma_lex_transitive(key@, self@[lo as int], self@[i]);
                }
            }
        }
        (lo, false)
    }

    pub fn contains(&self, key: &str) -> (r: bool)
        ensures
            r == self.set().contains(key@),
    {
        let (pos, found) = self.locate(key);
        proof {
            use_type_invariant(self);
            if !found && self.set().contains(key@) {
                let k = choose|k: int| 0 <= k < self@.len() && self@[k] == key@;
                lemma_lex_irreflexive(key@);
            }
        }
        found
    }

    pub fn insert(&mut self, value: String)
        ensures
            final(self).set() == old(self).set().insert(value@),
    {
        proof {
            use_type_invariant(&*self);
        }
        let (pos, found) = self.locate(value.as_str());
        if !found {
            let ghost before = self.items@;
            proof {
                lemma_insert_sorted(views(before), pos as int, value@);
            }
            let mut items: Vec<String> = Vec::new();
            std::mem::swap(&mut items, &mut self.items);
            items.insert(pos, value);
            proof {
                assert(views(items@) =~= views(before).insert(pos as int, value@));
            }
            self.items = items;
        } else {
            proof {
                assert(self@.to_set().contains(value@));
                assert(self@.to_set().insert(value@) =~= self@.to_set());
            }
        }
    }

    pub fn remove(&mut self, key: &str)
        ensures
            final(self).set() == old(self).set().remove(key@),
    {
        proof {
            use_type_invariant(&*self);
        }
        let (pos, found) = self.locate(key);
        if found {
            let ghost before = self.items@;
            proof {
                lemma_remove_sorted(views(before), pos as int);
            }
            let mut items: Vec<String> = Vec::new();
            std::mem::swap(&mut items, &mut self.items);
            items.remove(pos);
            proof {
                assert(views(items@) =~= views(before).remove(pos as int));
            }
            self.items = items;
        } else {
            proof {
                if self@.to_set().contains(key@) {
                    let k = choose|k: int| 0 <= k < self@.len() && self@[k] == key@;
                    if k < pos {
                        lemma_lex_irreflexive(key@);
                    } else {
                        lemma_lex_irreflexive(key@);
                    }
                }
                assert(self@.to_set().remove(key@) =~= self@.to_set());
            }
        }
    }

    /// The members in ascending order.
    pub fn into_vec(self) -> (r: Vec<String>)
        ensures
            views(r@) == self@,
            sorted_listing(views(r@), self.set()),
    {
        proof {
            use_type_invariant(&self);
        }
        self.items
    }

    pub fn clear(&mut self)
        ensures
            final(self)@ == Seq::<Seq<char>>::empty(),
    {
        self.items = Vec::new();
        assert(views(self.items@) =~= Seq::<Seq<char>>::empty());
    }
}

pub open spec fn entry_keys<V>(e: Seq<(String, V)>) -> Seq<Seq<char>> {
    e.map_values(|p: (String, V)| p.0@)
}

/// A map keyed by strings, walked in ascending key order (`BTreeMap<String, V>`).
pub struct StringMap<V> {
    entries: Vec<(String, V)>,
    model: Ghost<Map<Seq<char>, V>>,
}

impl<V> View for StringMap<V> {
    type V = Map<Seq<char>, V>;

    closed spec fn view(&self) -> Map<Seq<char>, V> {
        self.model@
    }
}

impl<V> StringMap<V> {
    #[verifier::type_invariant]
    closed spec fn inv(self) -> bool {
        &&& strictly_sorted(entry_keys(self.entries@))
        &&& forall|k: Seq<char>| #[trigger]
            self.model@.dom().contains(k) <==> entry_keys(self.entries@).contains(k)
        &&& forall|i: int|
            0 <= i < self.entries@.len() ==> self.model@[#[trigger] self.entries@[i].0@]
                == self.entries@[i].1
    }

    /// The keys in ascending order.
    pub closed spec fn keys(&self) -> Seq<Seq<char>> {
        entry_keys(self.entries@)
    }

    pub fn new() -> (r: Self)
        ensures
            r@ == Map::<Seq<char>, V>::empty(),
            r.keys() == Seq::<Seq<char>>::empty(),
    {
        let r = StringMap { entries: Vec::new(), model: Ghost(Map::empty()) };
        assert(entry_keys(r.entries@) =~= Seq::<Seq<char>>::empty());
        r
    }

    pub fn len(&self) -> (r: usize)
        ensures
            r == self.keys().len(),
            r == self@.dom().len(),
    {
        proof {
            use_type_invariant(self);
            let ks = self.keys();
            assert(ks.no_duplicates()) by {
                assert forall|i: int, j: int| 0 <= i < ks.len() && 0 <= j < ks.len() && i != j implies ks[i] != ks[j] by {
                    if i < j {
                        assert(lex_lt(ks[i], ks[j]));
                    } else {
                        assert(lex_lt(ks[j], ks[i]));
                    }
                    lemma_lex_irreflexive(ks[i]);
                }
            }
            ks.unique_seq_to_set();
            assert(ks.to_set() =~= self@.dom());
        }
        self.entries.len()
    }

    fn locate(&self, key: &str) -> (r: (usize, bool))
        ensures
            r.0 <= self.keys().len(),
            forall|i: int| 0 <= i < r.0 ==> lex_lt(#[trigger] self.keys()[i], key@),
            r.1 ==> r.0 < self.keys().len() && self.keys()[r.0 as int] == key@,
            !r.1 ==> forall|i: int|
                r.0 <= i < self.keys().len() ==> lex_lt(key@, #[trigger] self.keys()[i]),
    {
        proof {
            use_type_invariant(self);
        }
        let ghost ks = self.keys();
        let mut lo: usize = 0;
        let mut hi: usize = self.entries.len();
        while lo < hi
            invariant
                ks == entry_keys(self.entries@),
                lo <= hi <= ks.len(),
                ks.len() == self.entries@.len(),
                strictly_sorted(ks),
                forall|i: int| 0 <= i < lo ==> lex_lt(#[trigger] ks[i], key@),
                forall|i: int| hi <= i < ks.len() ==> !lex_lt(#[trigger] ks[i], key@),
            decreases hi - lo,
        {
            let mid = lo + (hi - lo) / 2;
            assert(ks[mid as int] == self.entries@[mid as int].0@);
            if str_less(self.entries[mid].0.as_str(), key) {
                assert forall|i: int| 0 <= i <= mid implies lex_lt(#[trigger] ks[i], key@) by {
                    if i < mid {
                        lemma_lex_transitive(ks[i], ks[mid as int], key@);
                    }
                }
                lo = mid + 1;
            } else {
                assert forall|i: int| mid <= i < ks.len() implies !lex_lt(#[trigger] ks[i], key@) by {
                    if i > mid {
                        if lex_lt(ks[i], key@) {
                            lemma_lex_transitive(ks[mid as int], ks[i], key@);
                        }
                    }
                }
                hi = mid;
            }
        }
        if lo < self.entries.len() {
            assert(ks[lo as int] == self.entries@[lo as int].0@);
            if str_eq(self.entries[lo].0.as_str(), key) {
                return (lo, true);
            }
            assert forall|i: int| lo <= i < ks.len() implies lex_lt(key@, #[trigger] ks[i]) by {
                lemma_lex_total(key@, ks[lo as int]);
                if i > lo {
                    lemma_lex_transitive(key@, ks[lo as int], ks[i]);
                }
            }
        }
        (lo, false)
    }

    pub fn get(&self, key: &str) -> (r: Option<&V>)
        ensures
            r is Some <==> self@.dom().contains(key@),
            r matches Some(v) ==> *v == self@[key@],
    {
        proof {
            use_type_invariant(self);
        }
        let (pos, found) = self.locate(key);
        if found {
            assert(self.keys()[pos as int] == self.entries@[pos as int].0@);
            Some(&self.entries[pos].1)
        } else {
            proof {
                if self@.dom().contains(key@) {
                    assert(self.keys().contains(key@));
                    let k = choose|k: int| 0 <= k < self.keys().len() && self.keys()[k] == key@;
                    lemma_lex_irreflexive(key@);
                }
            }
            None
        }
    }

    /// Sets the value under `key`, replacing any earlier one.
    pub fn insert(&mut self, key: String, value: V)
        ensures
            final(self)@ == old(self)@.insert(key@, value),
    {
        proof {
            use_type_invariant(&*self);
        }
        let ghost old_model = self.model@;
        let ghost old_keys = self.keys();
        let (pos, found) = self.locate(key.as_str());
        let ghost k = key@;
        let mut taken = StringMap::new();
        std::mem::swap(&mut taken, self);
        let StringMap { mut entries, model: _ } = taken;
        let ghost before = entries@;
        assert(entry_keys(before) == old_keys);
        if found {
            entries.set(pos, (key, value));
            proof {
                assert(entry_keys(entries@) =~= old_keys);
            }
        } else {
            proof {
                lemma_insert_sorted(old_keys, pos as int, k);
            }
            entries.insert(pos, (key, value));
            proof {
                assert(entry_keys(entries@) =~= old_keys.insert(pos as int, k));
            }
        }
        let ghost new_model = old_model.insert(k, value);
        proof {
            assert forall|q: Seq<char>| #[trigger]
                new_model.dom().contains(q) <==> entry_keys(entries@).contains(q) by {
                if q == k {
                    assert(entry_keys(entries@)[pos as int] == k);
                } else {
                    if old_keys.contains(q) {
                        let j = choose|j: int| 0 <= j < old_keys.len() && old_keys[j] == q;
                        if found || j < pos {
                            assert(entry_keys(entries@)[j] == q);
                        } else {
                            assert(entry_keys(entries@)[j + 1] == q);
                        }
                    }
                    if entry_keys(entries@).contains(q) {
                        let j = choose|j: int|
                            0 <= j < entry_keys(entries@).len() && entry_keys(entries@)[j] == q;
                        if found || j < pos {
                            assert(old_keys[j] == q);
                        } else {
                            assert(j != pos);
                            assert(old_keys[j - 1] == q);
                        }
                    }
                }
            }
            assert forall|i: int| 0 <= i < entries@.len() implies new_model[#[trigger] entries@[i].0@]
                == entries@[i].1 by {
                if i == pos {
                } else if found || i < pos {
                    assert(entries@[i] == before[i]);
                    assert(old_keys[i] == before[i].0@);
                    if found {
                        if i < pos {
                            assert(lex_lt(old_keys[i], old_keys[pos as int]));
                        } else {
                            assert(lex_lt(old_keys[pos as int], old_keys[i]));
                        }
                    }
                    lemma_lex_irreflexive(k);
                    assert(old_keys[i] != k);
                } else {
                    assert(entries@[i] == before[i - 1]);
                    assert(old_keys[i - 1] == before[i - 1].0@);
                    assert(old_keys[i - 1] != k) by {
                        lemma_lex_irreflexive(k);
                    }
                }
            }
        }
        *self = StringMap { entries, model: Ghost(new_model) };
    }

    /// Removes and returns the value under `key`.
    pub fn take(&mut self, key: &str) -> (r: Option<V>)
        ensures
            r is Some <==> old(self)@.dom().contains(key@),
            r matches Some(v) ==> v == old(self)@[key@],
            final(self)@ == old(self)@.remove(key@),
    {
        proof {
            use_type_invariant(&*self);
        }
        let ghost old_model = self.model@;
        let ghost old_keys = self.keys();
        let (pos, found) = self.locate(key);
        if !found {
            proof {
                if old_model.dom().contains(key@) {
                    assert(old_keys.contains(key@));
                    let j = choose|j: int| 0 <= j < old_keys.len() && old_keys[j] == key@;
                    lemma_lex_irreflexive(key@);
                }
                assert(old_model.remove(key@) =~= old_model);
            }
            return None;
        }
        let mut taken = StringMap::new();
        std::mem::swap(&mut taken, self);
        let StringMap { mut entries, model: _ } = taken;
        let ghost before = entries@;
        assert(entry_keys(before) == old_keys);
        proof {
            lemma_remove_sorted(old_keys, pos as int);
        }
        let (_k, v) = entries.remove(pos);
        let ghost new_model = old_model.remove(key@);
        proof {
            assert(entry_keys(entries@) =~= old_keys.remove(pos as int));
            assert forall|q: Seq<char>| #[trigger]
                new_model.dom().contains(q) <==> entry_keys(entries@).contains(q) by {
                if entry_keys(entries@).contains(q) {
                    assert(old_keys.remove(pos as int).to_set().contains(q));
                }
                if new_model.dom().contains(q) {
                    assert(old_keys.contains(q));
                    assert(old_keys.to_set().remove(key@).contains(q));
                    assert(old_keys.remove(pos as int).to_set().contains(q));
                }
            }
            assert forall|i: int| 0 <= i < entries@.len() implies new_model[#[trigger] entries@[i].0@]
                == entries@[i].1 by {
                if i < pos {
                    assert(entries@[i] == before[i]);
                    assert(lex_lt(old_keys[i], old_keys[pos as int]));
                    lemma_lex_irreflexive(key@);
                } else {
                    assert(entries@[i] == before[i + 1]);
                    assert(lex_lt(old_keys[pos as int], old_keys[i + 1]));
                    lemma_lex_irreflexive(key@);
                }
            }
            assert(v == before[pos as int].1);
        }
        *self = StringMap { entries, model: Ghost(new_model) };
        Some(v)
    }

    /// The entries in ascending key order.
    pub fn into_entries(self) -> (r: Vec<(String, V)>)
        ensures
            entry_keys(r@) == self.keys(),
            strictly_sorted(self.keys()),
            self.keys().to_set() == self@.dom(),
            forall|i: int| 0 <= i < r@.len() ==> self@[#[trigger] r@[i].0@] == r@[i].1,
    {
        proof {
            use_type_invariant(&self);
            assert(self.keys().to_set() =~= self@.dom());
        }
        self.entries
    }
}

/// Order on pairs of texts: by the first text, then by the second (tuple order).
pub open spec fn pair_lt(p: (Seq<char>, Seq<char>), q: (Seq<char>, Seq<char>)) -> bool {
    lex_lt(p.0, q.0) || (p.0 == q.0 && lex_lt(p.1, q.1))
}

pub proof fn lemma_pair_irreflexive(p: (Seq<char>, Seq<char>))
    ensures
        !pair_lt(p, p),
{
    lemma_lex_irreflexive(p.0);
    lemma_lex_irreflexive(p.1);
}

pub proof fn lemma_pair_transitive(
    p: (Seq<char>, Seq<char>),
    q: (Seq<char>, Seq<char>),
    r: (Seq<char>, Seq<char>),
)
    requires
        pair_lt(p, q),
        pair_lt(q, r),
    ensures
        pair_lt(p, r),
{
    if lex_lt(p.0, q.0) && lex_lt(q.0, r.0) {
        lemma_lex_transitive(p.0, q.0, r.0);
    } else if p.0 == q.0 && q.0 == r.0 {
        lemma_lex_transitive(p.1, q.1, r.1);
    }
}

pub proof fn lemma_pair_total(p: (Seq<char>, Seq<char>), q: (Seq<char>, Seq<char>))
    requires
        p != q,
    ensures
        pair_lt(p, q) || pair_lt(q, p),
{
    if p.0 != q.0 {
        lemma_lex_total(p.0, q.0);
    } else {
        lemma_lex_total(p.1, q.1);
    }
}

pub open spec fn pairs_sorted(s: Seq<(Seq<char>, Seq<char>)>) -> bool {
    forall|i: int, j: int| 0 <= i < j < s.len() ==> pair_lt(#[trigger] s[i], #[trigger] s[j])
}

pub open spec fn pair_views(v: Seq<(String, String)>) -> Seq<(Seq<char>, Seq<char>)> {
    v.map_values(|p: (String, String)| (p.0@, p.1@))
}

proof fn lemma_insert_pairs_sorted(s: Seq<(Seq<char>, Seq<char>)>, pos: int, x: (Seq<char>, Seq<char>))
    requires
        pairs_sorted(s),
        0 <= pos <= s.len(),
        forall|i: int| 0 <= i < pos ==> pair_lt(#[trigger] s[i], x),
        forall|i: int| pos <= i < s.len() ==> pair_lt(x, #[trigger] s[i]),
    ensures
        pairs_sorted(s.insert(pos, x)),
        s.insert(pos, x).to_set() == s.to_set().insert(x),
{
    let t = s.insert(pos, x);
    assert forall|i: int, j: int| 0 <= i < j < t.len() implies pair_lt(#[trigger] t[i], #[trigger] t[j]) by {
        if i < pos && j == pos {
        } else if i < pos && j > pos {
            assert(t[j] == s[j - 1]);
        } else if i == pos {
            assert(t[j] == s[j - 1]);
        } else if i > pos {
            assert(t[i] == s[i - 1]);
            assert(t[j] == s[j - 1]);
        }
    }
    assert forall|y: (Seq<char>, Seq<char>)| t.to_set().contains(y) <==> s.to_set().insert(x).contains(y) by {
        if t.to_set().contains(y) {
            let k = choose|k: int| 0 <= k < t.len() && t[k] == y;
            if k < pos {
                assert(s[k] == y);
            } else if k > pos {
                assert(s[k - 1] == y);
            }
        }
        if s.to_set().contains(y) {
            let k = choose|k: int| 0 <= k < s.len() && s[k] == y;
            if k < pos {
                assert(t[k] == y);
            } else {
                assert(t[k + 1] == y);
            }
        }
        if y == x {
            assert(t[pos] == x);
        }
    }
    assert(t.to_set() =~= s.to_set().insert(x));
}

/// A set of text pairs walked in tuple order (a sorted, deduplicated `Vec<(String, String)>`).
pub struct PairSet {
    items: Vec<(String, String)>,
}

impl View for PairSet {
    type V = Seq<(Seq<char>, Seq<char>)>;

    closed spec fn view(&self) -> Seq<(Seq<char>, Seq<char>)> {
        pair_views(self.items@)
    }
}

impl PairSet {
    #[verifier::type_invariant]
    closed spec fn inv(self) -> bool {
        pairs_sorted(pair_views(self.items@))
    }

    pub open spec fn set(&self) -> Set<(Seq<char>, Seq<char>)> {
        self@.to_set()
    }

    pub fn new() -> (r: Self)
        ensures
            r@ == Seq::<(Seq<char>, Seq<char>)>::empty(),
    {
        let r = PairSet { items: Vec::new() };
        assert(pair_views(r.items@) =~= Seq::<(Seq<char>, Seq<char>)>::empty());
        r
    }

    fn less(a: &(String, String), b: &(String, String)) -> (r: bool)
        ensures
            r == pair_lt((a.0@, a.1@), (b.0@, b.1@)),
    {
        if str_less(a.0.as_str(), b.0.as_str()) {
            true
        } else if str_eq(a.0.as_str(), b.0.as_str()) {
            str_less(a.1.as_str(), b.1.as_str())
        } else {
            false
        }
    }

    fn locate(&self, key: &(String, String)) -> (r: (usize, bool))
        ensures
            r.0 <= self@.len(),
            forall|i: int| 0 <= i < r.0 ==> pair_lt(#[trigger] self@[i], (key.0@, key.1@)),
            r.1 ==> r.0 < self@.len() && self@[r.0 as int] == (key.0@, key.1@),
            !r.1 ==> forall|i: int|
                r.0 <= i < self@.len() ==> pair_lt((key.0@, key.1@), #[trigger] self@[i]),
    {
        proof {
            use_type_invariant(self);
        }
        let ghost k = (key.0@, key.1@);
        let mut lo: usize = 0;
        let mut hi: usize = self.items.len();
        while lo < hi
            invariant
                k == (key.0@, key.1@),
                lo <= hi <= self@.len(),
                self@.len() == self.items@.len(),
                pairs_sorted(self@),
                forall|i: int| 0 <= i < lo ==> pair_lt(#[trigger] self@[i], k),
                forall|i: int| hi <= i < self@.len() ==> !pair_lt(#[trigger] self@[i], k),
            decreases hi - lo,
        {
            let mid = lo + (hi - lo) / 2;
            assert(self@[mid as int] == (self.items@[mid as int].0@, self.items@[mid as int].1@));
            if Self::less(&self.items[mid], key) {
                assert forall|i: int| 0 <= i <= mid implies pair_lt(#[trigger] self@[i], k) by {
                    if i < mid {
                        lemma_pair_transitive(self@[i], self@[mid as int], k);
                    }
                }
                lo = mid + 1;
            } else {
                assert forall|i: int| mid <= i < self@.len() implies !pair_lt(#[trigger] self@[i], k) by {
                    if i > mid {
                        if pair_lt(self@[i], k) {
                            lemma_pair_transitive(self@[mid as int], self@[i], k);
                        }
                    }
                }
                hi = mid;
            }
        }
        if lo < self.items.len() {
            assert(self@[lo as int] == (self.items@[lo as int].0@, self.items@[lo as int].1@));
            if str_eq(self.items[lo].0.as_str(), key.0.as_str()) && str_eq(
                self.items[lo].1.as_str(),
                key.1.as_str(),
            ) {
                return (lo, true);
            }
            assert forall|i: int| lo <= i < self@.len() implies pair_lt(k, #[trigger] self@[i]) by {
                lemma_pair_total(k, self@[lo as int]);
                if i > lo {
                    lemma_pair_transitive(k, self@[lo as int], self@[i]);
                }
            }
        }
        (lo, false)
    }

    pub fn insert(&mut self, value: (String, String))
        ensures
            final(self).set() == old(self).set().insert((value.0@, value.1@)),
    {
        proof {
            use_type_invariant(&*self);
        }
        let ghost k = (value.0@, value.1@);
        let (pos, found) = self.locate(&value);
        if !found {
            let ghost before = self.items@;
            proof {
                lemma_insert_pairs_sorted(pair_views(before), pos as int, k);
            }
            let mut items: Vec<(String, String)> = Vec::new();
            std::mem::swap(&mut items, &mut self.items);
            items.insert(pos, value);
            proof {
                assert(pair_views(items@) =~= pair_views(before).insert(pos as int, k));
            }
            self.items = items;
        } else {
            proof {
                assert(self@.to_set().contains(k));
                assert(self@.to_set().insert(k) =~= self@.to_set());
            }
        }
    }

    pub fn into_vec(self) -> (r: Vec<(String, String)>)
        ensures
            pair_views(r@) == self@,
            pairs_sorted(self@),
    {
        proof {
            use_type_invariant(&self);
        }
        self.items
    }
}

/// Two sorted listings of the same set of pairs are the same sequence.
pub proof fn lemma_pairs_listing_unique(a: Seq<(Seq<char>, Seq<char>)>, b: Seq<(Seq<char>, Seq<char>)>)
    requires
        pairs_sorted(a),
        pairs_sorted(b),
        a.to_set() == b.to_set(),
    ensures
        a == b,
    decreases a.len(),
{
    if a.len() == 0 {
        if b.len() > 0 {
            assert(b.to_set().contains(b[0]));
        }
        assert(a =~= b);
    } else if b.len() == 0 {
        assert(a.to_set().contains(a[0]));
    } else {
        assert(a.to_set().contains(a[0]));
        assert(b.to_set().contains(b[0]));
        let ia = choose|i: int| 0 <= i < a.len() && a[i] == b[0];
        let ib = choose|i: int| 0 <= i < b.len() && b[i] == a[0];
        if a[0] != b[0] {
            if ia > 0 {
                assert(pair_lt(a[0], a[ia]));
            }
            if ib > 0 {
                assert(pair_lt(b[0], b[ib]));
            }
            if pair_lt(a[0], b[0]) && pair_lt(b[0], a[0]) {
                lemma_pair_transitive(a[0], b[0], a[0]);
                lemma_pair_irreflexive(a[0]);
            }
        }
        let ra = a.drop_first();
        let rb = b.drop_first();
        assert forall|x: (Seq<char>, Seq<char>)| ra.to_set().contains(x) implies rb.to_set().contains(x) by {
            let i = choose|i: int| 0 <= i < ra.len() && ra[i] == x;
            assert(a[i + 1] == x);
            assert(pair_lt(a[0], x));
            assert(a.to_set().contains(x));
            let j = choose|j: int| 0 <= j < b.len() && b[j] == x;
            if j == 0 {
                lemma_pair_irreflexive(x);
            }
            assert(rb[j - 1] == x);
        }
        assert forall|x: (Seq<char>, Seq<char>)| rb.to_set().contains(x) implies ra.to_set().contains(x) by {
            let i = choose|i: int| 0 <= i < rb.len() && rb[i] == x;
            assert(b[i + 1] == x);
            assert(pair_lt(b[0], x));
            assert(b.to_set().contains(x));
            let j = choose|j: int| 0 <= j < a.len() && a[j] == x;
            if j == 0 {
                lemma_pair_irreflexive(x);
            }
            assert(ra[j - 1] == x);
        }
        assert(ra.to_set() =~= rb.to_set());
        lemma_pairs_listing_unique(ra, rb);
        assert(a =~= seq![a[0]] + ra);
        assert(b =~= seq![b[0]] + rb);
    }
}

/// Applies `Map::insert` for each pair in order: later pairs win.
pub open spec fn insert_pairs(m: Map<Seq<char>, Seq<char>>, pairs: Seq<(Seq<char>, Seq<char>)>) -> Map<Seq<char>, Seq<char>>
    decreases pairs.len(),
{
    if pairs.len() == 0 {
        m
    } else {
        insert_pairs(m, pairs.drop_last()).insert(pairs.last().0, pairs.last().1)
    }
}

/// The view of a map with string values.
pub open spec fn text_map(m: Map<Seq<char>, String>) -> Map<Seq<char>, Seq<char>> {
    m.map_values(|v: String| v@)
}

/// The members of a set of texts in ascending order (`BTreeSet` iteration).
pub open spec fn set_listing(s: Set<Seq<char>>) -> Seq<Seq<char>> {
    choose|v: Seq<Seq<char>>| sorted_listing(v, s)
}

pub proof fn lemma_set_listing(v: Seq<Seq<char>>, s: Set<Seq<char>>)
    requires
        sorted_listing(v, s),
    ensures
        set_listing(s) == v,
{
    let w = set_listing(s);
    assert(sorted_listing(w, s));
    lemma_sorted_listing_unique(v, w);
}

/// A finite, non-empty set of texts has a least member.
proof fn lemma_least_member(s: Set<Seq<char>>) -> (m: Seq<char>)
    requires
        s.finite(),
        s.len() > 0,
    ensures
        s.contains(m),
        forall|x: Seq<char>| #[trigger] s.contains(x) && x != m ==> lex_lt(m, x),
    decreases s.len(),
{
    let x = s.choose();
    let rest = s.remove(x);
    if rest.len() == 0 {
        assert forall|y: Seq<char>| #[trigger] s.contains(y) && y != x implies lex_lt(x, y) by {
            assert(rest.contains(y));
        }
        x
    } else {
        let m = lemma_least_member(rest);
        lemma_lex_total(x, m);
        if lex_lt(x, m) {
            assert forall|y: Seq<char>| #[trigger] s.contains(y) && y != x implies lex_lt(x, y) by {
                if y != m {
                    assert(rest.contains(y));
                    lemma_lex_transitive(x, m, y);
                }
            }
            x
        } else {
            assert forall|y: Seq<char>| #[trigger] s.contains(y) && y != m implies lex_lt(m, y) by {
                if y != x {
                    assert(rest.contains(y));
                }
            }
            m
        }
    }
}

/// Every finite set of texts has an ascending listing.
proof fn lemma_listing_exists(s: Set<Seq<char>>) -> (v: Seq<Seq<char>>)
    requires
        s.finite(),
    ensures
        sorted_listing(v, s),
    decreases s.len(),
{
    if s.len() == 0 {
        assert(s =~= Set::<Seq<char>>::empty());
        lemma_empty_to_set(Seq::<Seq<char>>::empty());
        Seq::empty()
    } else {
        let m = lemma_least_member(s);
        let w = lemma_listing_exists(s.remove(m));
        let v = seq![m] + w;
        assert forall|i: int, j: int| 0 <= i < j < v.len() implies lex_lt(#[trigger] v[i], #[trigger] v[j]) by {
            if i == 0 {
                assert(v[j] == w[j - 1]);
                assert(w.to_set().contains(w[j - 1]));
            } else {
                assert(v[i] == w[i - 1] && v[j] == w[j - 1]);
            }
        }
        assert forall|x: Seq<char>| v.to_set().contains(x) <==> s.contains(x) by {
            if v.to_set().contains(x) {
                let k = choose|k: int| 0 <= k < v.len() && v[k] == x;
                if k > 0 {
                    assert(w[k - 1] == x);
                    assert(w.to_set().contains(x));
                }
            }
            if s.contains(x) {
                if x == m {
                    assert(v[0] == x);
                } else {
                    assert(s.remove(m).contains(x));
                    let k = choose|k: int| 0 <= k < w.len() && w[k] == x;
                    assert(v[k + 1] == x);
                }
            }
        }
        assert(v.to_set() =~= s);
        v
    }
}

/// The ascending listing of a finite set lists exactly its members.
pub proof fn lemma_finite_set_listing(s: Set<Seq<char>>)
    requires
        s.finite(),
    ensures
        sorted_listing(set_listing(s), s),
        forall|x: Seq<char>| #[trigger] set_listing(s).contains(x) <==> s.contains(x),
{
    let v = lemma_listing_exists(s);
    lemma_set_listing(v, s);
    assert forall|x: Seq<char>| #[trigger] set_listing(s).contains(x) <==> s.contains(x) by {
        if set_listing(s).contains(x) {
            let k = choose|k: int| 0 <= k < v.len() && v[k] == x;
            assert(v.to_set().contains(x));
        }
        if s.contains(x) {
            assert(v.to_set().contains(x));
        }
    }
}

impl StringSet {
    /// The members in ascending order.
    pub fn into_listing(self) -> (r: Vec<String>)
        ensures
            views(r@) == set_listing(self.set()),
            sorted_listing(views(r@), self.set()),
    {
        let ghost s = self.set();
        let r = self.into_vec();
        proof {
            lemma_set_listing(views(r@), s);
        }
        r
    }
}

} // verus!
