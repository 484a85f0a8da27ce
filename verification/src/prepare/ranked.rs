//! Ranked candidates: every lookup key to the casings it may restore, best
//! first.

use vstd::prelude::*;
use crate::collections::{StringMap, pair_views};
use crate::lexicon::{Candidate, RecordModel, Score, ScoreModel, SourceRecord, record_views};
use crate::prepare::normalize::{lookup_entries, sorted_lookup_entries};
use crate::text::{lemma_lex_irreflexive, lemma_lex_total, lemma_lex_transitive, lex_lt, str_eq, str_less};

verus! {

broadcast use vstd::seq_lib::group_to_multiset_ensures;

/// A candidate as plain values: score in hundredths, then value.
pub open spec fn cand_view(c: Candidate) -> (nat, Seq<char>) {
    (c.score as nat, c.value@)
}

pub open spec fn cand_views(v: Seq<Candidate>) -> Seq<(nat, Seq<char>)> {
    v.map_values(|c: Candidate| cand_view(c))
}

/// `x` ranks before `y`: a higher score, or the same score and a lower value.
pub open spec fn ranks_before(x: (nat, Seq<char>), y: (nat, Seq<char>)) -> bool {
    x.0 > y.0 || (x.0 == y.0 && lex_lt(x.1, y.1))
}

/// No candidate ranks before one listed earlier.
pub open spec fn in_rank_order(s: Seq<(nat, Seq<char>)>) -> bool {
    forall|i: int, j: int| 0 <= i < j < s.len() ==> !ranks_before(#[trigger] s[j], #[trigger] s[i])
}

/// The candidates in rank order (a sorted rearrangement of `s`).
pub open spec fn rank_sorted(s: Seq<(nat, Seq<char>)>) -> Seq<(nat, Seq<char>)> {
    choose|t: Seq<(nat, Seq<char>)>| in_rank_order(t) && t.to_multiset() == s.to_multiset()
}

/// Drops every candidate whose value equals the one listed just before it.
pub open spec fn dedup_values(s: Seq<(nat, Seq<char>)>) -> Seq<(nat, Seq<char>)>
    decreases s.len(),
{
    if s.len() <= 1 {
        s
    } else {
        let d = dedup_values(s.drop_last());
        if s.last().1 == s[s.len() - 2].1 {
            d
        } else {
            d.push(s.last())
        }
    }
}

/// A key's final candidate list: sorted by rank, consecutive repeats of a
/// value dropped.
pub open spec fn rank_list(s: Seq<(nat, Seq<char>)>) -> Seq<(nat, Seq<char>)> {
    dedup_values(rank_sorted(s))
}

pub open spec fn hundredths(s: ScoreModel) -> nat {
    match s {
        ScoreModel::Hundredths(n) => n,
        _ => 0,
    }
}

/// Appends `(score, value)` to the list of each pair's key, pair by pair.
pub open spec fn add_candidates(
    m: Map<Seq<char>, Seq<(nat, Seq<char>)>>,
    pairs: Seq<(Seq<char>, Seq<char>)>,
    score: nat,
) -> Map<Seq<char>, Seq<(nat, Seq<char>)>>
    decreases pairs.len(),
{
    if pairs.len() == 0 {
        m
    } else {
        let prev = add_candidates(m, pairs.drop_last(), score);
        let k = pairs.last().0;
        let list = if prev.dom().contains(k) {
            prev[k]
        } else {
            Seq::empty()
        };
        prev.insert(k, list.push((score, pairs.last().1)))
    }
}

/// Every key's candidates, in the order the records give them.
pub open spec fn candidate_lists(records: Seq<RecordModel>) -> Map<Seq<char>, Seq<(nat, Seq<char>)>>
    decreases records.len(),
{
    if records.len() == 0 {
        Map::empty()
    } else {
        add_candidates(
            candidate_lists(records.drop_last()),
            sorted_lookup_entries(records.last()),
            hundredths(records.last().score),
        )
    }
}

/// The ranked-candidates table of the records.
pub open spec fn ranked_of(records: Seq<RecordModel>) -> Map<Seq<char>, Seq<(nat, Seq<char>)>> {
    candidate_lists(records).map_values(|l: Seq<(nat, Seq<char>)>| rank_list(l))
}

pub open spec fn candidate_map(m: Map<Seq<char>, Vec<Candidate>>) -> Map<Seq<char>, Seq<(nat, Seq<char>)>> {
    m.map_values(|l: Vec<Candidate>| cand_views(l@))
}

pub open spec fn fixed_score(r: RecordModel) -> bool {
    r.score is Hundredths
}

proof fn lemma_rank_transitive(x: (nat, Seq<char>), y: (nat, Seq<char>), z: (nat, Seq<char>))
    requires
        ranks_before(x, y),
        ranks_before(y, z),
    ensures
        ranks_before(x, z),
{
    if x.0 == y.0 && y.0 == z.0 {
        lemma_lex_transitive(x.1, y.1, z.1);
    }
}

proof fn lemma_rank_irreflexive(x: (nat, Seq<char>))
    ensures
        !ranks_before(x, x),
{
    lemma_lex_irreflexive(x.1);
}

proof fn lemma_rank_total(x: (nat, Seq<char>), y: (nat, Seq<char>))
    requires
        x != y,
    ensures
        ranks_before(x, y) || ranks_before(y, x),
{
    if x.0 == y.0 {
        lemma_lex_total(x.1, y.1);
    }
}

proof fn lemma_rank_order_unique(a: Seq<(nat, Seq<char>)>, b: Seq<(nat, Seq<char>)>)
    requires
        in_rank_order(a),
        in_rank_order(b),
        a.to_multiset() == b.to_multiset(),
    ensures
        a == b,
    decreases a.len(),
{
    assert(a.to_multiset().len() == a.len());
    assert(b.to_multiset().len() == b.len());
    if a.len() == 0 {
        assert(b.len() == 0);
        assert(a =~= b);
    } else {
        assert(b.len() == a.len());
        assert(a.contains(a[0]));
        assert(b.to_multiset().count(a[0]) > 0);
        assert(b.contains(a[0]));
        assert(a.to_multiset().count(b[0]) > 0);
        assert(a.contains(b[0]));
        let i = choose|i: int| 0 <= i < b.len() && b[i] == a[0];
        let j = choose|j: int| 0 <= j < a.len() && a[j] == b[0];
        if a[0] != b[0] {
            assert(i > 0 && j > 0);
            assert(!ranks_before(b[i], b[0]));
            assert(!ranks_before(a[j], a[0]));
            lemma_rank_total(a[0], b[0]);
        }
        assert(a.remove(0) =~= a.drop_first());
        assert(b.remove(0) =~= b.drop_first());
        assert(a.drop_first().to_multiset() =~= a.to_multiset().remove(a[0]));
        assert(b.drop_first().to_multiset() =~= b.to_multiset().remove(b[0]));
        lemma_rank_order_unique(a.drop_first(), b.drop_first());
        assert(a =~= seq![a[0]] + a.drop_first());
        assert(b =~= seq![b[0]] + b.drop_first());
    }
}

/// No two neighbouring candidates share a value.
pub open spec fn distinct_neighbours(s: Seq<(nat, Seq<char>)>) -> bool {
    forall|i: int| 0 <= i < s.len() - 1 ==> #[trigger] s[i].1 != s[i + 1].1
}

proof fn lemma_dedup_from(s: Seq<(nat, Seq<char>)>)
    ensures
        forall|i: int| 0 <= i < dedup_values(s).len() ==> s.contains(#[trigger] dedup_values(s)[i]),
        s.len() > 0 ==> dedup_values(s).len() > 0 && dedup_values(s).last().1 == s.last().1,
    decreases s.len(),
{
    if s.len() > 1 {
        let t = s.drop_last();
        lemma_dedup_from(t);
        let d = dedup_values(t);
        assert forall|i: int| 0 <= i < dedup_values(s).len() implies s.contains(#[trigger] dedup_values(s)[i]) by {
            if i < d.len() {
                assert(dedup_values(s)[i] == d[i]);
                let j = choose|j: int| 0 <= j < t.len() && t[j] == d[i];
                assert(s[j] == t[j]);
            } else {
                assert(dedup_values(s)[i] == s.last());
                assert(s[s.len() - 1] == s.last());
            }
        }
        assert(t.last() == s[s.len() - 2]);
    } else if s.len() == 1 {
        assert(s[0] == s.last());
    }
}

/// Dropping repeated neighbours keeps a rank-ordered list in rank order and
/// leaves no two neighbours with one value.
proof fn lemma_dedup_ranked(s: Seq<(nat, Seq<char>)>)
    requires
        in_rank_order(s),
    ensures
        in_rank_order(dedup_values(s)),
        distinct_neighbours(dedup_values(s)),
    decreases s.len(),
{
    if s.len() > 1 {
        let t = s.drop_last();
        assert(in_rank_order(t)) by {
            assert forall|i: int, j: int| 0 <= i < j < t.len() implies !ranks_before(#[trigger] t[j], #[trigger] t[i]) by {
                assert(t[i] == s[i] && t[j] == s[j]);
            }
        }
        lemma_dedup_ranked(t);
        lemma_dedup_from(t);
        let d = dedup_values(t);
        if s.last().1 != s[s.len() - 2].1 {
            let x = s.last();
            let e = d.push(x);
            assert(dedup_values(s) == e);
            assert forall|i: int, j: int| 0 <= i < j < e.len() implies !ranks_before(#[trigger] e[j], #[trigger] e[i]) by {
                if j < d.len() {
                    assert(e[i] == d[i] && e[j] == d[j]);
                } else {
                    assert(e[j] == x);
                    assert(e[i] == d[i]);
                    assert(t.contains(d[i]));
                    let k = choose|k: int| 0 <= k < t.len() && t[k] == d[i];
                    assert(s[k] == t[k]);
                    assert(s[s.len() - 1] == x);
                }
            }
            assert forall|i: int| 0 <= i < e.len() - 1 implies #[trigger] e[i].1 != e[i + 1].1 by {
                if i < d.len() - 1 {
                    assert(e[i] == d[i] && e[i + 1] == d[i + 1]);
                } else {
                    assert(e[i] == d.last());
                    assert(t.last() == s[s.len() - 2]);
                }
            }
        }
    }
}

fn ranks_before_exec(x: &Candidate, y: &Candidate) -> (r: bool)
    ensures
        r == ranks_before(cand_view(*x), cand_view(*y)),
{
    x.score > y.score || (x.score == y.score && str_less(x.value.as_str(), y.value.as_str()))
}

/// The candidates sorted by rank.
fn sort_candidates(list: Vec<Candidate>) -> (r: Vec<Candidate>)
    ensures
        in_rank_order(cand_views(r@)),
        cand_views(r@).to_multiset() == cand_views(list@).to_multiset(),
{
    let mut input = list;
    let ghost orig = cand_views(input@);
    let mut out: Vec<Candidate> = Vec::new();
    let ghost taken: Seq<(nat, Seq<char>)> = Seq::empty();
    assert(cand_views(out@) =~= Seq::<(nat, Seq<char>)>::empty());
    while input.len() > 0
        invariant
            in_rank_order(cand_views(out@)),
            cand_views(out@).to_multiset().add(cand_views(input@).to_multiset()) == orig.to_multiset(),
        decreases input.len(),
    {
        let ghost before_in = cand_views(input@);
        let x = input.pop().unwrap();
        proof {
            assert(before_in =~= cand_views(input@).push(cand_view(x)));
        }
        let ghost xv = cand_view(x);
        let ghost cur = cand_views(out@);
        let mut pos: usize = 0;
        while pos < out.len() && !ranks_before_exec(&x, &out[pos])
            invariant
                cur == cand_views(out@),
                xv == cand_view(x),
                pos <= out.len(),
                forall|k: int| 0 <= k < pos ==> !ranks_before(xv, #[trigger] cur[k]),
            decreases out.len() - pos,
        {
            pos = pos + 1;
        }
        proof {
            let t = cur.insert(pos as int, xv);
            assert forall|i: int, j: int| 0 <= i < j < t.len() implies !ranks_before(#[trigger] t[j], #[trigger] t[i]) by {
                if j < pos {
                    assert(t[i] == cur[i] && t[j] == cur[j]);
                } else if j == pos {
                    assert(t[i] == cur[i]);
                } else if i == pos {
                    assert(t[j] == cur[j - 1]);
                    assert(ranks_before(xv, cur[pos as int]));
                    if j - 1 > pos {
                        assert(!ranks_before(cur[j - 1], cur[pos as int]));
                        if cur[j - 1] != cur[pos as int] {
                            lemma_rank_total(cur[j - 1], cur[pos as int]);
                            lemma_rank_transitive(xv, cur[pos as int], cur[j - 1]);
                        }
                    }
                    if ranks_before(cur[j - 1], xv) {
                        if ranks_before(xv, cur[j - 1]) {
                            lemma_rank_transitive(xv, cur[j - 1], xv);
                            lemma_rank_irreflexive(xv);
                        }
                    }
                } else if i < pos {
                    assert(t[i] == cur[i]);
                    assert(t[j] == cur[j - 1]);
                    if j - 1 >= pos {
                    }
                } else {
                    assert(t[i] == cur[i - 1]);
                    assert(t[j] == cur[j - 1]);
                }
            }
        }
        out.insert(pos, x);
        proof {
            assert(cand_views(out@) =~= cur.insert(pos as int, xv));
            assert(cur.insert(pos as int, xv).to_multiset() =~= cur.to_multiset().insert(xv));
            assert(before_in.to_multiset() =~= cand_views(input@).to_multiset().insert(xv));
            assert(cand_views(out@).to_multiset().add(cand_views(input@).to_multiset()) =~= orig.to_multiset());
        }
    }
    proof {
        assert(cand_views(input@).to_multiset() =~= vstd::multiset::Multiset::empty());
        assert(cand_views(out@).to_multiset() =~= orig.to_multiset());
    }
    out
}

fn copy_candidate(c: &Candidate) -> (r: Candidate)
    ensures
        cand_view(r) == cand_view(*c),
{
    Candidate { value: c.value.clone(), score: c.score }
}

/// Drops every candidate whose value equals the previous one's.
fn dedup_by_value(list: &Vec<Candidate>) -> (r: Vec<Candidate>)
    ensures
        cand_views(r@) == dedup_values(cand_views(list@)),
{
    let ghost s = cand_views(list@);
    let mut out: Vec<Candidate> = Vec::new();
    for i in 0..list.len()
        invariant
            s == cand_views(list@),
            cand_views(out@) == dedup_values(s.take(i as int)),
    {
        proof {
            assert(s.take(i + 1).drop_last() =~= s.take(i as int));
            assert(s.take(i + 1).last() == s[i as int]);
            if i > 0 {
                assert(s.take(i + 1)[i - 1] == s[i - 1]);
            }
        }
        if i == 0 || !str_eq(list[i].value.as_str(), list[i - 1].value.as_str()) {
            let c = copy_candidate(&list[i]);
            out.push(c);
            proof {
                if i == 0 {
                    assert(s.take(1) =~= seq![s[0]]);
                    assert(cand_views(out@) =~= seq![s[0]]);
                } else {
                    assert(cand_views(out@) =~= dedup_values(s.take(i as int)).push(s[i as int]));
                }
            }
        }
    }
    proof {
        assert(s.take(list.len() as int) =~= s);
    }
    out
}

/// A key's final list: ranked, consecutive repeats of a value dropped.
fn rank_candidates(list: Vec<Candidate>) -> (r: Vec<Candidate>)
    ensures
        cand_views(r@) == rank_list(cand_views(list@)),
        in_rank_order(cand_views(r@)),
        distinct_neighbours(cand_views(r@)),
{
    let ghost s = cand_views(list@);
    let sorted = sort_candidates(list);
    proof {
        let t = rank_sorted(s);
        assert(in_rank_order(cand_views(sorted@)) && cand_views(sorted@).to_multiset() == s.to_multiset());
        assert(in_rank_order(t) && t.to_multiset() == s.to_multiset());
        lemma_rank_order_unique(cand_views(sorted@), t);
        lemma_dedup_ranked(t);
    }
    dedup_by_value(&sorted)
}

pub fn build(records: &[SourceRecord]) -> (r: StringMap<Vec<Candidate>>)
    requires
        forall|i: int| 0 <= i < records@.len() ==> fixed_score(#[trigger] records@[i]@),
    ensures
        candidate_map(r@) == ranked_of(record_views(records@)),
        forall|k: Seq<char>| #[trigger] r@.dom().contains(k) ==> in_rank_order(candidate_map(r@)[k])
            && distinct_neighbours(candidate_map(r@)[k]),
        forall|k: Seq<char>, i: int, j: int|
            r@.dom().contains(k) && 0 <= i < j < r@[k]@.len() ==> #[trigger] r@[k]@[i].score >= #[trigger] r@[k]@[j].score
                && (r@[k]@[i].score == r@[k]@[j].score ==> !lex_lt(r@[k]@[j].value@, r@[k]@[i].value@)),
{
    let mut raw: StringMap<Vec<Candidate>> = StringMap::new();
    let ghost rv = record_views(records@);
    assert(candidate_map(raw@) =~= Map::<Seq<char>, Seq<(nat, Seq<char>)>>::empty());
    for i in 0..records.len()
        invariant
            rv == record_views(records@),
            candidate_map(raw@) == candidate_lists(rv.take(i as int)),
    {
        let record = &records[i];
        // An inflected form keeps its own casing as the candidate value
        // ("probleme" recases to "Probleme"), rather than being replaced by
        // the lemma ("Problem"), via the lookup-entry rewrite guard.
        let entries = lookup_entries(record);
        let score: u32 = match record.score {
            Score::Hundredths(n) => n,
            _ => 0,
        };
        let ghost prev = candidate_lists(rv.take(i as int));
        let ghost pv = pair_views(entries@);
        assert(rv[i as int] == record@);
        assert(score as nat == hundredths(record@.score));
        for j in 0..entries.len()
            invariant
                pv == pair_views(entries@),
                candidate_map(raw@) == add_candidates(prev, pv.take(j as int), score as nat),
        {
            let ghost before = raw@;
            let key = entries[j].0.clone();
            let mut list = match raw.take(key.as_str()) {
                Some(l) => l,
                None => Vec::new(),
            };
            let ghost old_list = cand_views(list@);
            list.push(Candidate { value: entries[j].1.clone(), score });
            proof {
                assert(pv[j as int] == (entries@[j as int].0@, entries@[j as int].1@));
                assert(cand_views(list@) =~= old_list.push((score as nat, pv[j as int].1)));
            }
            raw.insert(key, list);
            proof {
                assert(pv.take(j + 1).drop_last() =~= pv.take(j as int));
                let prevm = add_candidates(prev, pv.take(j as int), score as nat);
                assert(candidate_map(before) == prevm);
                if before.dom().contains(pv[j as int].0) {
                    assert(prevm.dom().contains(pv[j as int].0));
                    assert(old_list == prevm[pv[j as int].0]);
                } else {
                    assert(!prevm.dom().contains(pv[j as int].0));
                    assert(old_list =~= Seq::<(nat, Seq<char>)>::empty());
                }
                assert(candidate_map(raw@) =~= add_candidates(prev, pv.take(j + 1), score as nat));
            }
        }
        proof {
            assert(pv.take(entries.len() as int) =~= pv);
            assert(rv.take(i + 1).drop_last() =~= rv.take(i as int));
        }
    }
    proof {
        assert(rv.take(records.len() as int) =~= rv);
    }
    let ghost lists = candidate_map(raw@);
    let ghost keys = raw.keys();
    let ghost rawm = raw@;
    let mut entries = raw.into_entries();
    let mut out: StringMap<Vec<Candidate>> = StringMap::new();
    proof {
        assert forall|t: int, u: int| 0 <= t < u < keys.len() implies keys[t] != keys[u] by {
            assert(lex_lt(keys[t], keys[u]));
            lemma_lex_irreflexive(keys[t]);
        }
    }
    while entries.len() > 0
        invariant
            keys.to_set() == rawm.dom(),
            lists == candidate_map(rawm),
            entries@.len() <= keys.len(),
            forall|t: int| 0 <= t < entries@.len() ==> (#[trigger] entries@[t]).0@ == keys[t],
            forall|t: int| 0 <= t < entries@.len() ==> rawm[(#[trigger] entries@[t]).0@] == entries@[t].1,
            forall|t: int, u: int| 0 <= t < u < keys.len() ==> keys[t] != keys[u],
            forall|k: Seq<char>| #[trigger] out@.dom().contains(k) <==> exists|t: int|
                entries@.len() <= t < keys.len() && keys[t] == k,
            forall|k: Seq<char>| #[trigger] out@.dom().contains(k) ==> cand_views(out@[k]@) == rank_list(lists[k]),
            forall|k: Seq<char>| #[trigger] out@.dom().contains(k) ==> in_rank_order(cand_views(out@[k]@))
                && distinct_neighbours(cand_views(out@[k]@)),
        decreases entries.len(),
    {
        let ghost n = entries@.len();
        let (key, list) = entries.pop().unwrap();
        let ghost k = key@;
        proof {
            assert(k == keys[n - 1]);
            assert(rawm[k] == list);
            assert(keys.to_set().contains(k));
            assert(lists[k] == cand_views(list@));
        }
        let ranked = rank_candidates(list);
        let ghost before = out@;
        out.insert(key, ranked);
        proof {
            assert forall|q: Seq<char>| #[trigger] out@.dom().contains(q) <==> exists|t: int|
                entries@.len() <= t < keys.len() && keys[t] == q by {
                if q == k {
                    assert(keys[n - 1] == q);
                } else if before.dom().contains(q) {
                    let t = choose|t: int| n <= t < keys.len() && keys[t] == q;
                    assert(entries@.len() <= t);
                } else {
                    if exists|t: int| entries@.len() <= t < keys.len() && keys[t] == q {
                        let t = choose|t: int| entries@.len() <= t < keys.len() && keys[t] == q;
                        assert(t != n - 1);
                        assert(n <= t);
                    }
                }
            }
        }
    }
    proof {
        assert forall|k: Seq<char>| out@.dom().contains(k) <==> rawm.dom().contains(k) by {
            if rawm.dom().contains(k) {
                assert(keys.to_set().contains(k));
                let t = choose|t: int| 0 <= t < keys.len() && keys[t] == k;
            }
            if out@.dom().contains(k) {
                let t = choose|t: int| 0 <= t < keys.len() && keys[t] == k;
                assert(keys.to_set().contains(k));
            }
        }
        assert(candidate_map(out@) =~= ranked_of(rv));
        assert forall|k: Seq<char>, i: int, j: int|
            out@.dom().contains(k) && 0 <= i < j < out@[k]@.len() implies #[trigger] out@[k]@[i].score
            >= #[trigger] out@[k]@[j].score && (out@[k]@[i].score == out@[k]@[j].score ==> !lex_lt(
            out@[k]@[j].value@,
            out@[k]@[i].value@,
        )) by {
            let c = candidate_map(out@)[k];
            assert(c[i] == cand_view(out@[k]@[i]) && c[j] == cand_view(out@[k]@[j]));
            assert(!ranks_before(c[j], c[i]));
        }
    }
    out
}

} // verus!
