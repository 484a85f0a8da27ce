//! Pieces shared by the JSON source parsers.

use vstd::prelude::*;
use crate::collections::{StringSet, set_listing, strictly_sorted};
use crate::collections::views;
use crate::json::{as_str, get, get_member, get_str, item_views, str_opt};
use crate::text::str_eq;
use crate::lexicon::{Score, SourceRecord, record_model};

verus! {

/// The texts among JSON items (`filter_map(Value::as_str)`).
pub open spec fn str_items(items: Seq<Seq<u8>>) -> Seq<Seq<char>>
    decreases items.len(),
{
    if items.len() == 0 {
        Seq::empty()
    } else {
        let prev = str_items(items.drop_last());
        match as_str(items.last()) {
            Some(s) => prev.push(s),
            None => prev,
        }
    }
}

/// The texts among JSON items.
pub fn str_items_exec(items: &Vec<Vec<u8>>) -> (r: Vec<String>)
    ensures
        views(r@) == str_items(item_views(items@)),
{
    let ghost iv = item_views(items@);
    let mut out: Vec<String> = Vec::new();
    assert(views(out@) =~= str_items(iv.take(0)));
    for i in 0..items.len()
        invariant
            iv == item_views(items@),
            views(out@) == str_items(iv.take(i as int)),
    {
        proof {
            assert(iv.take(i + 1).drop_last() =~= iv.take(i as int));
            assert(iv.take(i + 1).last() == iv[i as int]);
        }
        match get_str(items[i].as_slice()) {
            Some(s) => {
                let ghost ov = views(out@);
                out.push(s);
                assert(views(out@) =~= ov.push(s@));
            },
            None => {},
        }
    }
    assert(iv.take(items.len() as int) =~= iv);
    out
}

/// Whether a list of texts holds `t`.
pub fn contains_text(v: &Vec<String>, t: &str) -> (r: bool)
    ensures
        r == views(v@).contains(t@),
{
    for i in 0..v.len()
        invariant
            forall|k: int| 0 <= k < i ==> views(v@)[k] != t@,
    {
        if str_eq(v[i].as_str(), t) {
            assert(views(v@)[i as int] == t@);
            return true;
        }
    }
    false
}


/// The texts of the member `key` of each item, where it is a string.
pub open spec fn member_texts(items: Seq<Seq<u8>>, key: Seq<char>) -> Set<Seq<char>>
    decreases items.len(),
{
    if items.len() == 0 {
        Set::empty()
    } else {
        let prev = member_texts(items.drop_last(), key);
        match str_opt(get(items.last(), key)) {
            Some(t) => prev.insert(t),
            None => prev,
        }
    }
}

/// A text that an item's member `key` holds is among the member texts.
pub proof fn lemma_member_texts(items: Seq<Seq<u8>>, key: Seq<char>, i: int, t: Seq<char>)
    requires
        0 <= i < items.len(),
        str_opt(get(items[i], key)) == Some(t),
    ensures
        member_texts(items, key).contains(t),
    decreases items.len(),
{
    if i < items.len() - 1 {
        assert(items.drop_last()[i] == items[i]);
        lemma_member_texts(items.drop_last(), key, i, t);
    }
}

/// The member texts of a list of items are finitely many.
pub proof fn lemma_member_texts_finite(items: Seq<Seq<u8>>, key: Seq<char>)
    ensures
        member_texts(items, key).finite(),
    decreases items.len(),
{
    if items.len() > 0 {
        lemma_member_texts_finite(items.drop_last(), key);
    }
}

/// Adds the text of the member `key` of each item, where it is a string.
pub fn add_member_texts(items: &Vec<Vec<u8>>, key: &str, set: &mut StringSet)
    ensures
        final(set).set() == old(set).set().union(member_texts(item_views(items@), key@)),
{
    let ghost iv = item_views(items@);
    let ghost start = set.set();
    assert(start.union(member_texts(iv.take(0), key@)) =~= start);
    for i in 0..items.len()
        invariant
            iv == item_views(items@),
            set.set() == start.union(member_texts(iv.take(i as int), key@)),
    {
        proof {
            assert(iv.take(i + 1).drop_last() =~= iv.take(i as int));
            assert(iv.take(i + 1).last() == iv[i as int]);
        }
        let text = match get_member(items[i].as_slice(), key) {
            Some(b) => get_str(b.as_slice()),
            None => None,
        };
        match text {
            Some(t) => {
                set.insert(t);
            },
            None => {},
        }
        assert(set.set() =~= start.union(member_texts(iv.take(i + 1), key@)));
    }
    assert(iv.take(items.len() as int) =~= iv);
}

/// A record whose aliases are the members of a set, in ascending order.
pub fn make_record(canonical: String, aliases: StringSet, score: Score) -> (r: SourceRecord)
    ensures
        r@ == record_model(canonical@, set_listing(aliases.set()), score@),
        strictly_sorted(r@.aliases),
        !aliases.set().contains(canonical@) ==> !r@.aliases.contains(r@.canonical),
{
    let ghost s = aliases.set();
    let listed = aliases.into_listing();
    proof {
        if views(listed@).contains(canonical@) {
            assert(views(listed@).to_set().contains(canonical@));
        }
    }
    SourceRecord { canonical, aliases: listed, score }
}

/// The text of the member `key` of the first item that has one (`find_map`).
pub open spec fn first_member_text(items: Seq<Seq<u8>>, key: Seq<char>) -> Option<Seq<char>>
    decreases items.len(),
{
    if items.len() == 0 {
        None
    } else {
        match str_opt(get(items[0], key)) {
            Some(t) => Some(t),
            None => first_member_text(items.drop_first(), key),
        }
    }
}

pub fn first_member_text_exec(items: &Vec<Vec<u8>>, key: &str) -> (r: Option<String>)
    ensures
        match r {
            Some(t) => first_member_text(item_views(items@), key@) == Some(t@),
            None => first_member_text(item_views(items@), key@) is None,
        },
{
    let ghost iv = item_views(items@);
    assert(iv.skip(0) =~= iv);
    for i in 0..items.len()
        invariant
            iv == item_views(items@),
            first_member_text(iv, key@) == first_member_text(iv.skip(i as int), key@),
    {
        proof {
            assert(iv.skip(i as int)[0] == iv[i as int]);
            assert(iv.skip(i as int).drop_first() =~= iv.skip(i + 1));
        }
        let text = match get_member(items[i].as_slice(), key) {
            Some(b) => get_str(b.as_slice()),
            None => None,
        };
        if text.is_some() {
            return text;
        }
    }
    proof {
        assert(iv.skip(items.len() as int).len() == 0);
    }
    None
}

} // verus!
