//! ORCID public API personal details, as JSON or as XML.
//!
//! The XML reader follows element names by their local part. Where the
//! event reading finds no names, a plain text scan for `:given-names`,
//! `:family-name` and `:content` elements supplies them.

use vstd::prelude::*;
use vstd::string::*;
use crate::collections::{StringSet, lemma_finite_set_listing, set_listing, views};
use crate::json::{
    as_array, as_object, as_str, decode_json, find_member, find_member_exec, get, get_array,
    get_member, get_object, get_str, json_decode, member_views, object_opt, str_opt,
};
use crate::lexicon::{RecordModel, Score, ScoreModel, SourceRecord, record_model, record_views, record_tidy, aliases_tidy};
use crate::sources::common::{add_member_texts, lemma_member_texts, lemma_member_texts_finite, make_record, member_texts};
use crate::text::{
    chars_of, char_is_whitespace, decode_utf8, encode_utf8, is_whitespace, occurs_at, matches_at,
    string_of, trim, trim_chars, trim_start, utf8_decode, utf8_encode,
};
use crate::xml::{XmlEvent, XmlEventModel, bytes_eq, next_event, open_xml, remaining_events, unescape_text, xml_tokens, xml_text};

verus! {

// ---------------------------------------------------------------------------
// Names
// ---------------------------------------------------------------------------

/// The part after the last `c` (`rsplit(c).next()`): the whole sequence
/// where there is no `c`.
pub open spec fn after_last<A>(s: Seq<A>, c: A) -> Seq<A>
    decreases s.len(),
{
    if s.len() == 0 {
        s
    } else if s.last() == c {
        Seq::empty()
    } else {
        after_last(s.drop_last(), c).push(s.last())
    }
}

/// The local part of an element name: after its last `:`.
pub fn local_name(name: &[u8]) -> (r: Vec<u8>)
    ensures
        r@ == after_last(name@, 58u8),
{
    let n = name.len();
    let mut k = n;
    assert(name@.take(n as int) =~= name@);
    assert(name@.subrange(n as int, n as int) =~= Seq::<u8>::empty());
    while k > 0 && name[k - 1] != 58u8
        invariant
            n == name@.len(),
            k <= n,
            after_last(name@, 58u8) == after_last(name@.take(k as int), 58u8) + name@.subrange(k as int, n as int),
        decreases k,
    {
        proof {
            assert(name@.take(k as int).drop_last() =~= name@.take(k - 1));
            assert(name@.take(k as int).last() == name@[k - 1]);
            assert(name@.subrange(k - 1, n as int) =~= seq![name@[k - 1]] + name@.subrange(k as int, n as int));
            assert(after_last(name@.take(k - 1), 58u8).push(name@[k - 1]) + name@.subrange(k as int, n as int)
                =~= after_last(name@.take(k - 1), 58u8) + name@.subrange(k - 1, n as int));
        }
        k = k - 1;
    }
    proof {
        if k == 0 {
            assert(name@.take(0) =~= Seq::<u8>::empty());
        } else {
            assert(name@.take(k as int).last() == 58u8);
        }
        assert(after_last(name@.take(k as int), 58u8) =~= Seq::<u8>::empty());
    }
    let mut out: Vec<u8> = Vec::new();
    let mut j = k;
    while j < n
        invariant
            n == name@.len(),
            k <= j <= n,
            out@ == name@.subrange(k as int, j as int),
        decreases n - j,
    {
        out.push(name[j]);
        assert(out@ =~= name@.subrange(k as int, j + 1));
        j = j + 1;
    }
    assert(after_last(name@, 58u8) =~= out@);
    out
}

fn after_last_char(s: &[char], c: char) -> (r: Vec<char>)
    ensures
        r@ == after_last(s@, c),
{
    let n = s.len();
    let mut k = n;
    assert(s@.take(n as int) =~= s@);
    assert(s@.subrange(n as int, n as int) =~= Seq::<char>::empty());
    while k > 0 && s[k - 1] != c
        invariant
            n == s@.len(),
            k <= n,
            after_last(s@, c) == after_last(s@.take(k as int), c) + s@.subrange(k as int, n as int),
        decreases k,
    {
        proof {
            assert(s@.take(k as int).drop_last() =~= s@.take(k - 1));
            assert(s@.take(k as int).last() == s@[k - 1]);
            assert(s@.subrange(k - 1, n as int) =~= seq![s@[k - 1]] + s@.subrange(k as int, n as int));
            assert(after_last(s@.take(k - 1), c).push(s@[k - 1]) + s@.subrange(k as int, n as int)
                =~= after_last(s@.take(k - 1), c) + s@.subrange(k - 1, n as int));
        }
        k = k - 1;
    }
    proof {
        if k == 0 {
            assert(s@.take(0) =~= Seq::<char>::empty());
        } else {
            assert(s@.take(k as int).last() == c);
        }
        assert(after_last(s@.take(k as int), c) =~= Seq::<char>::empty());
    }
    let mut out: Vec<char> = Vec::new();
    let mut j = k;
    while j < n
        invariant
            n == s@.len(),
            k <= j <= n,
            out@ == s@.subrange(k as int, j as int),
        decreases n - j,
    {
        out.push(s[j]);
        assert(out@ =~= s@.subrange(k as int, j + 1));
        j = j + 1;
    }
    assert(after_last(s@, c) =~= out@);
    out
}

// ---------------------------------------------------------------------------
// The text scan
// ---------------------------------------------------------------------------

/// Where a non-empty pattern next occurs at or after `from`, as an offset
/// from `from` (`s[from..].find(pat)`).
pub open spec fn find_offset(s: Seq<char>, pat: Seq<char>, from: int) -> Option<nat>
    decreases s.len() - from,
{
    if from < 0 || pat.len() == 0 || from + pat.len() > s.len() {
        None
    } else if occurs_at(s, pat, from) {
        Some(0)
    } else {
        match find_offset(s, pat, from + 1) {
            Some(k) => Some(k + 1),
            None => None,
        }
    }
}

pub proof fn lemma_find_offset_occurs(s: Seq<char>, pat: Seq<char>, from: int)
    requires
        find_offset(s, pat, from) is Some,
    ensures
        occurs_at(s, pat, from + find_offset(s, pat, from)->0),
        forall|j: int| from <= j < from + find_offset(s, pat, from)->0 ==> !occurs_at(s, pat, j),
    decreases s.len() - from,
{
    if !occurs_at(s, pat, from) {
        lemma_find_offset_occurs(s, pat, from + 1);
    }
}

pub open spec fn shift(o: Option<nat>, d: nat) -> Option<nat> {
    match o {
        Some(k) => Some(k + d),
        None => None,
    }
}

fn find_offset_exec(s: &[char], pat: &[char], from: usize) -> (r: Option<usize>)
    requires
        pat@.len() > 0,
    ensures
        match r {
            Some(k) => find_offset(s@, pat@, from as int) == Some(k as nat) && from + k + pat@.len() <= s@.len(),
            None => find_offset(s@, pat@, from as int) is None,
        },
{
    if from > s.len() || pat.len() > s.len() - from {
        return None;
    }
    let last = s.len() - pat.len();
    let mut i = from;
    while i <= last
        invariant
            from <= i,
            last + 1 <= s.len(),
            last + pat@.len() == s@.len(),
            pat@.len() > 0,
            find_offset(s@, pat@, from as int) == shift(find_offset(s@, pat@, i as int), (i - from) as nat),
        decreases last + 1 - i,
    {
        if matches_at(s, pat, i) {
            return Some(i - from);
        }
        i = i + 1;
    }
    None
}

/// The last `c` before position `p` (`s[..p].rfind(c)`).
pub open spec fn rfind_before(s: Seq<char>, c: char, p: int) -> Option<int>
    decreases p,
{
    if p <= 0 || p > s.len() {
        None
    } else if s[p - 1] == c {
        Some(p - 1)
    } else {
        rfind_before(s, c, p - 1)
    }
}

fn rfind_before_exec(s: &[char], c: char, p: usize) -> (r: Option<usize>)
    requires
        p <= s@.len(),
    ensures
        match r {
            Some(q) => rfind_before(s@, c, p as int) == Some(q as int) && q < p,
            None => rfind_before(s@, c, p as int) is None,
        },
{
    let mut k = p;
    while k > 0
        invariant
            k <= p <= s@.len(),
            rfind_before(s@, c, p as int) == rfind_before(s@, c, k as int),
        decreases k,
    {
        if s[k - 1] == c {
            return Some(k - 1);
        }
        k = k - 1;
    }
    None
}

/// The length of the run of non-whitespace characters a text starts with.
pub open spec fn token_len(t: Seq<char>) -> nat
    decreases t.len(),
{
    if t.len() > 0 && !is_whitespace(t[0]) {
        1 + token_len(t.drop_first())
    } else {
        0
    }
}

/// The first whitespace-separated word (`split_whitespace().next()`), or
/// nothing.
pub open spec fn first_token(t: Seq<char>) -> Seq<char> {
    let u = trim_start(t);
    u.take(token_len(u) as int)
}

fn first_token_exec(t: &[char]) -> (r: Vec<char>)
    ensures
        r@ == first_token(t@),
{
    let n = t.len();
    let mut i: usize = 0;
    assert(t@.skip(0) =~= t@);
    while i < n && char_is_whitespace(t[i])
        invariant
            n == t@.len(),
            i <= n,
            trim_start(t@) == trim_start(t@.skip(i as int)),
        decreases n - i,
    {
        assert(t@.skip(i as int).drop_first() =~= t@.skip(i + 1));
        i = i + 1;
    }
    let ghost u = t@.skip(i as int);
    assert(trim_start(u) == u);
    let mut out: Vec<char> = Vec::new();
    let mut j = i;
    assert(u.skip(0) =~= u);
    while j < n && !char_is_whitespace(t[j])
        invariant
            n == t@.len(),
            i <= j <= n,
            u == t@.skip(i as int),
            out@ == u.take((j - i) as int),
            token_len(u) == (j - i) + token_len(t@.skip(j as int)),
        decreases n - j,
    {
        assert(t@.skip(j as int).drop_first() =~= t@.skip(j + 1));
        out.push(t[j]);
        assert(out@ =~= u.take((j + 1 - i) as int));
        j = j + 1;
    }
    out
}

pub open spec fn needle(tag: Seq<char>) -> Seq<char> {
    seq![':'] + tag
}

/// The first closing tag at or after `from` whose local name is `tag`: the
/// offsets `(a, b)` of its `</` (at `from + a`) and of its `>` (`b` further
/// on). Nothing where the scan runs out of closing tags first.
pub open spec fn close_match(xml: Seq<char>, tag: Seq<char>, from: int) -> Option<(nat, nat)>
    decreases xml.len() - from,
{
    if from < 0 || from > xml.len() {
        None
    } else {
        match find_offset(xml, "</"@, from) {
            None => None,
            Some(a) => match find_offset(xml, ">"@, from + a) {
                None => None,
                Some(b) => {
                    let cs = from + a;
                    let ce = cs + b;
                    proof {
                        lemma_find_offset_occurs(xml, ">"@, from + a);
                    }
                    if after_last(xml.subrange(cs + 2, ce), ':') == tag {
                        Some((a, b))
                    } else {
                        match close_match(xml, tag, ce + 1) {
                            Some((a2, b2)) => Some(((a + b + 1 + a2) as nat, b2)),
                            None => None,
                        }
                    }
                },
            },
        }
    }
}

pub proof fn lemma_close_match_bound(xml: Seq<char>, tag: Seq<char>, from: int)
    requires
        close_match(xml, tag, from) is Some,
    ensures
        from + close_match(xml, tag, from).unwrap().0 + close_match(xml, tag, from).unwrap().1 < xml.len(),
    decreases xml.len() - from,
{
    let a = find_offset(xml, "</"@, from)->0;
    lemma_find_offset_occurs(xml, ">"@, from + a);
    let b = find_offset(xml, ">"@, from + a)->0;
    if after_last(xml.subrange(from + a + 2, from + a + b), ':') != tag {
        lemma_close_match_bound(xml, tag, from + a + b + 1);
    }
}

/// The trimmed, non-empty contents of the `tag` elements, found by text
/// search from position `from`: each `:tag` occurrence inside a start tag
/// whose local name is `tag` opens an element that the next closing tag with
/// that local name ends. The scan stops where no such closing tag follows an
/// opening one (going on from there would find the same opening forever).
pub open spec fn scan_values(xml: Seq<char>, tag: Seq<char>, sf: int) -> Seq<Seq<char>>
    decreases xml.len() - sf,
{
    if sf < 0 || sf > xml.len() {
        Seq::empty()
    } else {
        match find_offset(xml, needle(tag), sf) {
            None => Seq::empty(),
            Some(k) => {
                let p = sf + k;
                proof {
                    lemma_find_offset_occurs(xml, needle(tag), sf);
                    assert(needle(tag).len() == tag.len() + 1);
                }
                match rfind_before(xml, '<', p) {
                    None => scan_values(xml, tag, p + needle(tag).len()),
                    Some(q) => match find_offset(xml, ">"@, p) {
                        None => Seq::empty(),
                        Some(k2) => {
                            let oe = p + k2;
                            proof {
                                lemma_find_offset_occurs(xml, ">"@, p);
                            }
                            if after_last(first_token(xml.subrange(q + 1, oe)), ':') != tag {
                                scan_values(xml, tag, oe + 1)
                            } else {
                                match close_match(xml, tag, oe + 1) {
                                    None => Seq::empty(),
                                    Some((a, b)) => {
                                        let cs = oe + 1 + a;
                                        let ce = cs + b;
                                        proof {
                                            lemma_close_match_bound(xml, tag, oe + 1);
                                        }
                                        let v = trim(xml.subrange(oe + 1, cs));
                                        let rest = scan_values(xml, tag, ce + 1);
                                        if v.len() > 0 {
                                            seq![v] + rest
                                        } else {
                                            rest
                                        }
                                    },
                                }
                            }
                        },
                    },
                }
            },
        }
    }
}

fn subrange_chars(s: &[char], lo: usize, hi: usize) -> (r: Vec<char>)
    requires
        lo <= hi <= s@.len(),
    ensures
        r@ == s@.subrange(lo as int, hi as int),
{
    let mut out: Vec<char> = Vec::new();
    let mut j = lo;
    while j < hi
        invariant
            lo <= j <= hi <= s@.len(),
            out@ == s@.subrange(lo as int, j as int),
        decreases hi - j,
    {
        out.push(s[j]);
        assert(out@ =~= s@.subrange(lo as int, j + 1));
        j = j + 1;
    }
    out
}

fn close_match_exec(xml: &[char], tag: &[char], from: usize) -> (r: Option<(usize, usize)>)
    requires
        from <= xml@.len(),
    ensures
        match r {
            Some((a, b)) => close_match(xml@, tag@, from as int) == Some((a as nat, b as nat))
                && from + a + b < xml@.len() && 2 <= b,
            None => close_match(xml@, tag@, from as int) is None,
        },
{
    let open_close = chars_of("</");
    let gt = chars_of(">");
    proof {
        reveal_strlit("</");
        reveal_strlit(">");
        assert(open_close@ =~= seq!['<', '/']);
        assert(gt@ =~= seq!['>']);
    }
    let mut c = from;
    let mut skipped: usize = 0;
    while c <= xml.len()
        invariant
            from <= c <= xml@.len() + 1,
            c == from + skipped,
            open_close@ == "</"@,
            gt@ == ">"@,
            open_close@ == seq!['<', '/'],
            gt@ == seq!['>'],
            c <= xml@.len() ==> close_match(xml@, tag@, from as int) == match close_match(xml@, tag@, c as int) {
                Some((a2, b2)) => Some(((skipped + a2) as nat, b2)),
                None => None,
            },
            c > xml@.len() ==> close_match(xml@, tag@, from as int) is None,
        decreases xml@.len() + 1 - c,
    {
        let a = match find_offset_exec(xml, open_close.as_slice(), c) {
            Some(a) => a,
            None => return None,
        };
        let cs = c + a;
        let b = match find_offset_exec(xml, gt.as_slice(), cs) {
            Some(b) => b,
            None => return None,
        };
        proof {
            lemma_find_offset_occurs(xml@, "</"@, c as int);
            lemma_find_offset_occurs(xml@, ">"@, cs as int);
            assert(xml@.subrange(cs as int, cs + 2) == seq!['<', '/']);
            assert(xml@.subrange(cs as int, cs + 2)[0] == xml@[cs as int]);
            assert(xml@.subrange(cs as int, cs + 2)[1] == xml@[cs + 1]);
            if b == 0 {
                assert(xml@.subrange(cs as int, cs + 1) == seq!['>']);
                assert(xml@.subrange(cs as int, cs + 1)[0] == xml@[cs as int]);
            }
            if b == 1 {
                assert(xml@.subrange(cs + 1, cs + 2) == seq!['>']);
                assert(xml@.subrange(cs + 1, cs + 2)[0] == xml@[cs + 1]);
            }
        }
        let ce = cs + b;
        let name = subrange_chars(xml, cs + 2, ce);
        let local = after_last_char(name.as_slice(), ':');
        if chars_equal(local.as_slice(), tag) {
            return Some((skipped + a, b));
        }
        skipped = skipped + a + b + 1;
        c = ce + 1;
    }
    None
}

fn chars_equal(a: &[char], b: &[char]) -> (r: bool)
    ensures
        r == (a@ == b@),
{
    if a.len() != b.len() {
        return false;
    }
    for i in 0..a.len()
        invariant
            a@.len() == b@.len(),
            forall|k: int| 0 <= k < i ==> a@[k] == b@[k],
    {
        if a[i] != b[i] {
            return false;
        }
    }
    assert(a@ =~= b@);
    true
}

/// The trimmed, non-empty contents of the elements whose local name is
/// `tag`, in document order, found by a plain text search.
pub fn extract_tag_values(xml: &str, tag: &str) -> (r: Vec<String>)
    ensures
        views(r@) == scan_values(xml@, tag@, 0),
{
    let x = chars_of(xml);
    let t = chars_of(tag);
    let mut nd: Vec<char> = Vec::new();
    nd.push(':');
    let mut t2 = chars_of(tag);
    nd.append(&mut t2);
    assert(nd@ =~= needle(tag@));
    let gt = chars_of(">");
    proof {
        reveal_strlit(">");
        assert(gt@ =~= seq!['>']);
    }
    let mut values: Vec<String> = Vec::new();
    let mut sf: usize = 0;
    assert(views(values@) + scan_values(x@, t@, 0) =~= scan_values(x@, t@, 0));
    while sf <= x.len()
        invariant
            x@ == xml@,
            t@ == tag@,
            nd@ == needle(tag@),
            nd@.len() == tag@.len() + 1,
            gt@ == ">"@,
            gt@ == seq!['>'],
            sf <= x@.len() + 1,
            sf <= x@.len() ==> views(values@) + scan_values(x@, t@, sf as int) == scan_values(x@, t@, 0),
            sf > x@.len() ==> views(values@) == scan_values(x@, t@, 0),
        decreases x@.len() + 1 - sf,
    {
        let ghost before = views(values@);
        let k = match find_offset_exec(x.as_slice(), nd.as_slice(), sf) {
            Some(k) => k,
            None => {
                assert(before =~= before + Seq::<Seq<char>>::empty());
                return values;
            },
        };
        let p = sf + k;
        let q = match rfind_before_exec(x.as_slice(), '<', p) {
            Some(q) => q,
            None => {
                sf = p + nd.len();
                if sf > x.len() {
                    assert(scan_values(x@, t@, sf as int) =~= Seq::<Seq<char>>::empty());
                    assert(before =~= before + Seq::<Seq<char>>::empty());
                }
                continue;
            },
        };
        let k2 = match find_offset_exec(x.as_slice(), gt.as_slice(), p) {
            Some(k2) => k2,
            None => {
                assert(before =~= before + Seq::<Seq<char>>::empty());
                return values;
            },
        };
        let oe = p + k2;
        let start_tag = subrange_chars(x.as_slice(), q + 1, oe);
        let token = first_token_exec(start_tag.as_slice());
        let local = after_last_char(token.as_slice(), ':');
        if !chars_equal(local.as_slice(), t.as_slice()) {
            sf = oe + 1;
            continue;
        }
        let (a, b) = match close_match_exec(x.as_slice(), t.as_slice(), oe + 1) {
            Some(m) => m,
            None => {
                assert(before =~= before + Seq::<Seq<char>>::empty());
                return values;
            },
        };
        let cs = oe + 1 + a;
        let ce = cs + b;
        let inner = subrange_chars(x.as_slice(), oe + 1, cs);
        let v = trim_chars(inner.as_slice());
        if v.len() > 0 {
            values.push(string_of(v.as_slice()));
            proof {
                assert(views(values@) =~= before.push(v@));
                assert(views(values@) + scan_values(x@, t@, ce + 1) =~= before + (seq![v@] + scan_values(x@, t@, ce + 1)));
            }
        }
        sf = ce + 1;
    }
    values
}

/// The first value that the text scan finds for `tag`.
pub fn extract_first_tag_value(xml: &str, tag: &str) -> (r: Option<String>)
    ensures
        match r {
            Some(v) => scan_values(xml@, tag@, 0).len() > 0 && v@ == scan_values(xml@, tag@, 0)[0],
            None => scan_values(xml@, tag@, 0).len() == 0,
        },
{
    let values = extract_tag_values(xml, tag);
    if values.len() > 0 {
        Some(values[0].clone())
    } else {
        None
    }
}

// ---------------------------------------------------------------------------
// JSON documents
// ---------------------------------------------------------------------------

/// The `value` of a name part (`{"value": ...}`) of the `name` object.
pub open spec fn name_part(name: Seq<(Seq<char>, Seq<u8>)>, key: Seq<char>) -> Option<Seq<char>> {
    match find_member(name, key) {
        Some(b) => match as_object(b) {
            Some(part) => match find_member(part, "value"@) {
                Some(v) => as_str(v),
                None => None,
            },
            None => None,
        },
        None => None,
    }
}

/// The `content` texts of `other-names.other-name`.
pub open spec fn other_names(bytes: Seq<u8>) -> Set<Seq<char>> {
    let list = match object_opt(get(bytes, "other-names"@)) {
        Some(o) => match find_member(o, "other-name"@) {
            Some(b) => as_array(b),
            None => None,
        },
        None => None,
    };
    match list {
        Some(items) => member_texts(items, "content"@),
        None => Set::empty(),
    }
}

pub open spec fn missing_name_message() -> Seq<char> {
    "ORCID JSON payload is missing a name object"@
}

pub open spec fn missing_given_message() -> Seq<char> {
    "ORCID JSON payload is missing given-names"@
}

pub open spec fn missing_family_message() -> Seq<char> {
    "ORCID JSON payload is missing family-name"@
}

pub open spec fn person_record(given: Seq<char>, family: Seq<char>, aliases: Set<Seq<char>>) -> RecordModel {
    let c = given + " "@ + family;
    record_model(c, set_listing(aliases.remove(c)), ScoreModel::Hundredths(150))
}

/// A JSON personal-details document: one record named "given family".
pub open spec fn orcid_json(bytes: Seq<u8>) -> Result<Seq<RecordModel>, Seq<char>> {
    match json_decode(bytes) {
        Err(e) => Err(e),
        Ok(_) => match object_opt(get(bytes, "name"@)) {
            None => Err(missing_name_message()),
            Some(name) => match name_part(name, "given-names"@) {
                None => Err(missing_given_message()),
                Some(g) => match name_part(name, "family-name"@) {
                    None => Err(missing_family_message()),
                    Some(f) => Ok(seq![person_record(g, f, other_names(bytes))]),
                },
            },
        },
    }
}

/// A JSON document whose `name` has a given-names and a family-name value
/// makes one record named "given family", with every `other-names` content
/// other than that name among its aliases.
pub proof fn lemma_json_person(bytes: Seq<u8>, name: Seq<(Seq<char>, Seq<u8>)>, g: Seq<char>, f: Seq<char>, a: Seq<char>)
    requires
        json_decode(bytes) is Ok,
        object_opt(get(bytes, "name"@)) == Some(name),
        name_part(name, "given-names"@) == Some(g),
        name_part(name, "family-name"@) == Some(f),
    ensures
        orcid_json(bytes) matches Ok(rs) && rs.len() == 1 && rs[0].canonical == g + " "@ + f,
        (object_opt(get(bytes, "other-names"@)) matches Some(o) && find_member(o, "other-name"@) matches Some(b)
            && as_array(b) matches Some(items) && exists|i: int|
            0 <= i < items.len() && str_opt(get(#[trigger] items[i], "content"@)) == Some(a)) && a != g + " "@ + f
            ==> (orcid_json(bytes) matches Ok(rs) && rs[0].aliases.contains(a)),
{
    let c = g + " "@ + f;
    if let Some(o) = object_opt(get(bytes, "other-names"@)) {
        if let Some(b) = find_member(o, "other-name"@) {
            if let Some(items) = as_array(b) {
                lemma_member_texts_finite(items, "content"@);
                if exists|i: int| 0 <= i < items.len() && str_opt(get(#[trigger] items[i], "content"@)) == Some(a) {
                    let i = choose|i: int| 0 <= i < items.len() && str_opt(get(#[trigger] items[i], "content"@)) == Some(a);
                    lemma_member_texts(items, "content"@, i, a);
                }
            }
        }
    }
    let names = other_names(bytes);
    if names.finite() {
        lemma_finite_set_listing(names.remove(c));
    }
}

fn name_part_exec(name: &Vec<(String, Vec<u8>)>, key: &str) -> (r: Option<String>)
    ensures
        match r {
            Some(t) => name_part(member_views(name@), key@) == Some(t@),
            None => name_part(member_views(name@), key@) is None,
        },
{
    let part = match find_member_exec(name, key) {
        Some(b) => get_object(b.as_slice()),
        None => None,
    };
    match part {
        Some(p) => match find_member_exec(&p, "value") {
            Some(v) => get_str(v.as_slice()),
            None => None,
        },
        None => None,
    }
}

fn person_record_exec(given: &str, family: &str, aliases: StringSet) -> (r: SourceRecord)
    ensures
        r@ == person_record(given@, family@, aliases.set()),
        record_tidy(r@),
{
    let mut canonical = String::from_str(given);
    canonical.append(" ");
    canonical.append(family);
    let mut aliases = aliases;
    aliases.remove(canonical.as_str());
    make_record(canonical, aliases, Score::Hundredths(150))
}

fn parse_json(bytes: &[u8]) -> (r: Result<Vec<SourceRecord>, String>)
    ensures
        match r {
            Ok(records) => orcid_json(bytes@) == Ok::<Seq<RecordModel>, Seq<char>>(record_views(records@)),
            Err(e) => orcid_json(bytes@) == Err::<Seq<RecordModel>, Seq<char>>(e@),
        },
        r matches Ok(records) ==> aliases_tidy(record_views(records@)),
{
    match decode_json(bytes) {
        Ok(_) => {},
        Err(e) => return Err(e),
    }
    let name = match get_member(bytes, "name") {
        Some(b) => get_object(b.as_slice()),
        None => None,
    };
    let name = match name {
        Some(n) => n,
        None => return Err(String::from_str("ORCID JSON payload is missing a name object")),
    };
    let given = match name_part_exec(&name, "given-names") {
        Some(g) => g,
        None => return Err(String::from_str("ORCID JSON payload is missing given-names")),
    };
    let family = match name_part_exec(&name, "family-name") {
        Some(f) => f,
        None => return Err(String::from_str("ORCID JSON payload is missing family-name")),
    };
    let mut aliases = StringSet::new();
    assert(aliases.set() =~= Set::<Seq<char>>::empty());
    let list = match get_member(bytes, "other-names") {
        Some(b) => match get_object(b.as_slice()) {
            Some(o) => match find_member_exec(&o, "other-name") {
                Some(l) => get_array(l.as_slice()),
                None => None,
            },
            None => None,
        },
        None => None,
    };
    match list {
        Some(items) => add_member_texts(&items, "content", &mut aliases),
        None => {},
    }
    assert(aliases.set() =~= other_names(bytes@));
    let rec = person_record_exec(given.as_str(), family.as_str(), aliases);
    let mut records: Vec<SourceRecord> = Vec::new();
    records.push(rec);
    assert(record_views(records@) =~= seq![rec@]);
    Ok(records)
}

// ---------------------------------------------------------------------------
// XML documents
// ---------------------------------------------------------------------------

/// The reader's state between events: the local name of the element whose
/// text comes next, whether it is inside an `other-name` element, and what
/// it found so far.
pub struct OrcidState {
    pub current: Seq<u8>,
    pub inside_other_name: bool,
    pub given: Option<Seq<char>>,
    pub family: Option<Seq<char>>,
    pub aliases: Set<Seq<char>>,
}

pub open spec fn orcid_step(st: Result<OrcidState, Seq<char>>, ev: XmlEventModel) -> Result<OrcidState, Seq<char>> {
    match st {
        Err(e) => Err(e),
        Ok(s) => match ev {
            XmlEventModel::Start(name, _) => {
                let current = after_last(name, 58u8);
                Ok(OrcidState {
                    current,
                    inside_other_name: s.inside_other_name || current == "other-name".spec_bytes(),
                    ..s
                })
            },
            XmlEventModel::End(name) => Ok(OrcidState {
                current: Seq::empty(),
                inside_other_name: if after_last(name, 58u8) == "other-name".spec_bytes() {
                    false
                } else {
                    s.inside_other_name
                },
                ..s
            }),
            XmlEventModel::Text(raw) => match xml_text(raw) {
                Err(e) => Err(e),
                Ok(t) => if s.current == "given-names".spec_bytes() {
                    Ok(OrcidState { given: Some(t), ..s })
                } else if s.current == "family-name".spec_bytes() {
                    Ok(OrcidState { family: Some(t), ..s })
                } else if s.current == "content".spec_bytes() && s.inside_other_name {
                    Ok(OrcidState { aliases: s.aliases.insert(t), ..s })
                } else {
                    Ok(s)
                },
            },
            XmlEventModel::Other => Ok(s),
        },
    }
}

proof fn lemma_orcid_tags()
    ensures
        "given-names".spec_bytes().len() == 11 && "given-names".spec_bytes()[0] == 103u8,
        "family-name".spec_bytes().len() == 11 && "family-name".spec_bytes()[0] == 102u8,
        "content".spec_bytes().len() == 7,
        "other-name".spec_bytes().len() == 10,
{
    reveal_strlit("given-names");
    reveal_strlit("family-name");
    reveal_strlit("content");
    reveal_strlit("other-name");
    vstd::string::is_ascii_spec_bytes("given-names");
    vstd::string::is_ascii_spec_bytes("family-name");
    vstd::string::is_ascii_spec_bytes("content");
    vstd::string::is_ascii_spec_bytes("other-name");
}

/// The text of a `given-names` element is the given name, that of a
/// `family-name` element the family name, and that of a `content` element
/// inside an `other-name` is an alias; a `content` outside one is ignored.
pub proof fn lemma_name_elements(s: OrcidState, name: Seq<u8>, attr: Result<Option<Seq<u8>>, Seq<char>>, raw: Seq<u8>, t: Seq<char>)
    requires
        xml_text(raw) == Ok::<Seq<char>, Seq<char>>(t),
    ensures
        ({
            let after = orcid_step(orcid_step(Ok(s), XmlEventModel::Start(name, attr)), XmlEventModel::Text(raw));
            &&& after_last(name, 58u8) == "given-names".spec_bytes() ==> (after matches Ok(n) && n.given == Some(t)
                && n.family == s.family && n.aliases == s.aliases)
            &&& after_last(name, 58u8) == "family-name".spec_bytes() ==> (after matches Ok(n) && n.family == Some(t)
                && n.given == s.given && n.aliases == s.aliases)
            &&& after_last(name, 58u8) == "content".spec_bytes() ==> (after matches Ok(n) && n.given == s.given
                && n.family == s.family && n.aliases == (if s.inside_other_name {
                s.aliases.insert(t)
            } else {
                s.aliases
            }))
        }),
{
    lemma_orcid_tags();
}

pub open spec fn orcid_fold(events: Seq<XmlEventModel>) -> Result<OrcidState, Seq<char>>
    decreases events.len(),
{
    if events.len() == 0 {
        Ok(OrcidState {
            current: Seq::empty(),
            inside_other_name: false,
            given: None,
            family: None,
            aliases: Set::empty(),
        })
    } else {
        orcid_step(orcid_fold(events.drop_last()), events.last())
    }
}

proof fn lemma_orcid_error_sticks(evs: Seq<XmlEventModel>, i: int, e: Seq<char>)
    requires
        0 <= i <= evs.len(),
        orcid_fold(evs.take(i)) == Err::<OrcidState, Seq<char>>(e),
    ensures
        orcid_fold(evs) == Err::<OrcidState, Seq<char>>(e),
    decreases evs.len() - i,
{
    if i < evs.len() {
        assert(evs.take(i + 1).drop_last() =~= evs.take(i));
        lemma_orcid_error_sticks(evs, i + 1, e);
    } else {
        assert(evs.take(i) =~= evs);
    }
}

pub open spec fn first_of(values: Seq<Seq<char>>) -> Option<Seq<char>> {
    if values.len() > 0 {
        Some(values[0])
    } else {
        None
    }
}

pub open spec fn no_public_name_message() -> Seq<char> {
    "ORCID payload did not contain a public name"@
}

/// An XML personal-details document. Names the events did not give are taken
/// from the text scan; so are the aliases, where the events found none.
pub open spec fn orcid_xml(bytes: Seq<u8>) -> Result<Seq<RecordModel>, Seq<char>> {
    match utf8_decode(bytes) {
        Err(e) => Err(e),
        Ok(xml) => {
            let (evs, read_error) = xml_tokens(bytes);
            match orcid_fold(evs) {
                Err(e) => Err(e),
                Ok(s) => if read_error is Some {
                    Err(read_error->0)
                } else {
                    let given = if s.given is Some {
                        s.given
                    } else {
                        first_of(scan_values(xml, "given-names"@, 0))
                    };
                    let family = if s.family is Some {
                        s.family
                    } else {
                        first_of(scan_values(xml, "family-name"@, 0))
                    };
                    let aliases = if s.aliases == Set::<Seq<char>>::empty() {
                        scan_values(xml, "content"@, 0).to_set()
                    } else {
                        s.aliases
                    };
                    match (given, family) {
                        (Some(g), Some(f)) => if g.len() > 0 && f.len() > 0 {
                            Ok(seq![person_record(g, f, aliases)])
                        } else {
                            Err(no_public_name_message())
                        },
                        _ => Err(no_public_name_message()),
                    }
                },
            }
        },
    }
}

fn parse_xml(bytes: &[u8]) -> (r: Result<Vec<SourceRecord>, String>)
    ensures
        match r {
            Ok(records) => orcid_xml(bytes@) == Ok::<Seq<RecordModel>, Seq<char>>(record_views(records@)),
            Err(e) => orcid_xml(bytes@) == Err::<Seq<RecordModel>, Seq<char>>(e@),
        },
        r matches Ok(records) ==> aliases_tidy(record_views(records@)),
{
    let xml = match decode_utf8(bytes) {
        Ok(x) => x,
        Err(e) => return Err(e),
    };
    let mut reader = open_xml(bytes);
    let ghost evs = xml_tokens(bytes@).0;
    let ghost end = xml_tokens(bytes@).1;
    let ghost mut i: int = 0;
    let mut finished = false;
    let mut current: Vec<u8> = Vec::new();
    let mut inside_other_name = false;
    let mut given: Option<String> = None;
    let mut family: Option<String> = None;
    let mut aliases = StringSet::new();
    proof {
        assert(evs.take(0) =~= Seq::<XmlEventModel>::empty());
        assert(evs.skip(0) =~= evs);
        assert(aliases.set() =~= Set::<Seq<char>>::empty());
        assert(current@ =~= Seq::<u8>::empty());
    }
    while !finished
        invariant
            xml_tokens(bytes@) == (evs, end),
            0 <= i <= evs.len(),
            !finished ==> remaining_events(reader) == (evs.skip(i), end),
            finished ==> i == evs.len() && end is None,
            utf8_decode(bytes@) == Ok::<Seq<char>, Seq<char>>(xml@),
            orcid_fold(evs.take(i)) == Ok::<OrcidState, Seq<char>>(OrcidState {
                current: current@,
                inside_other_name,
                given: crate::lexicon::opt_view(given),
                family: crate::lexicon::opt_view(family),
                aliases: aliases.set(),
            }),
        decreases evs.len() - i + if finished { 0int } else { 1int },
    {
        let event = match next_event(&mut reader) {
            Ok(Some(ev)) => ev,
            Ok(None) => {
                finished = true;
                continue;
            },
            Err(e) => {
                assert(evs.take(i) =~= evs);
                return Err(e);
            },
        };
        proof {
            assert(evs.skip(i)[0] == evs[i]);
            assert(evs.skip(i).drop_first() =~= evs.skip(i + 1));
            assert(evs.take(i + 1).drop_last() =~= evs.take(i));
            assert(evs.take(i + 1).last() == event@);
        }
        match &event {
            XmlEvent::Start(name, _) => {
                current = local_name(name.as_slice());
                if bytes_eq(current.as_slice(), "other-name".as_bytes()) {
                    inside_other_name = true;
                }
            },
            XmlEvent::End(name) => {
                let local = local_name(name.as_slice());
                if bytes_eq(local.as_slice(), "other-name".as_bytes()) {
                    inside_other_name = false;
                }
                current = Vec::new();
                assert(current@ =~= Seq::<u8>::empty());
            },
            XmlEvent::Text(raw) => {
                let text = match unescape_text(raw.as_slice()) {
                    Ok(t) => t,
                    Err(e) => {
                        proof {
                            lemma_orcid_error_sticks(evs, i + 1, e@);
                        }
                        return Err(e);
                    },
                };
                if bytes_eq(current.as_slice(), "given-names".as_bytes()) {
                    given = Some(text);
                } else if bytes_eq(current.as_slice(), "family-name".as_bytes()) {
                    family = Some(text);
                } else if bytes_eq(current.as_slice(), "content".as_bytes()) && inside_other_name {
                    aliases.insert(text);
                }
            },
            XmlEvent::Other => {},
        }
        proof {
            i = i + 1;
        }
    }
    assert(evs.take(i) =~= evs);
    let given = match given {
        Some(g) => Some(g),
        None => extract_first_tag_value(xml.as_str(), "given-names"),
    };
    let family = match family {
        Some(f) => Some(f),
        None => extract_first_tag_value(xml.as_str(), "family-name"),
    };
    let ghost from_events = aliases.set();
    if aliases.len() == 0 {
        assert(from_events =~= Set::<Seq<char>>::empty());
        aliases.clear();
        assert(aliases.set() =~= views(Seq::<String>::empty()).take(0).to_set());
        let values = extract_tag_values(xml.as_str(), "content");
        for k in 0..values.len()
            invariant
                aliases.set() == views(values@).take(k as int).to_set(),
        {
            let v = values[k].clone();
            aliases.insert(v);
            proof {
                assert(views(values@).take(k + 1) =~= views(values@).take(k as int).push(v@));
                crate::collections::lemma_push_to_set(views(values@).take(k as int), v@);
            }
        }
        assert(views(values@).take(values.len() as int) =~= views(values@));
    } else {
        assert(from_events.contains(aliases@[0]));
    }
    let g = match given {
        Some(g) => g,
        None => return Err(String::from_str("ORCID payload did not contain a public name")),
    };
    let f = match family {
        Some(f) => f,
        None => return Err(String::from_str("ORCID payload did not contain a public name")),
    };
    if chars_of(g.as_str()).len() == 0 || chars_of(f.as_str()).len() == 0 {
        return Err(String::from_str("ORCID payload did not contain a public name"));
    }
    let rec = person_record_exec(g.as_str(), f.as_str(), aliases);
    let mut records: Vec<SourceRecord> = Vec::new();
    records.push(rec);
    assert(record_views(records@) =~= seq![rec@]);
    Ok(records)
}

// ---------------------------------------------------------------------------
// Either form
// ---------------------------------------------------------------------------

/// `u8::is_ascii_whitespace`.
pub open spec fn ascii_space(b: u8) -> bool {
    b == 32u8 || b == 9u8 || b == 10u8 || b == 12u8 || b == 13u8
}

/// The first byte that is not ASCII whitespace.
pub open spec fn first_non_space(bytes: Seq<u8>) -> Option<u8>
    decreases bytes.len(),
{
    if bytes.len() == 0 {
        None
    } else if !ascii_space(bytes[0]) {
        Some(bytes[0])
    } else {
        first_non_space(bytes.drop_first())
    }
}

/// A document that starts (after whitespace) with `{` is JSON, anything else
/// XML.
pub open spec fn orcid_parse(bytes: Seq<u8>) -> Result<Seq<RecordModel>, Seq<char>> {
    if first_non_space(bytes) == Some(123u8) {
        orcid_json(bytes)
    } else {
        orcid_xml(bytes)
    }
}

fn first_non_space_exec(bytes: &[u8]) -> (r: Option<u8>)
    ensures
        r == first_non_space(bytes@),
{
    assert(bytes@.skip(0) =~= bytes@);
    for i in 0..bytes.len()
        invariant
            first_non_space(bytes@) == first_non_space(bytes@.skip(i as int)),
    {
        assert(bytes@.skip(i as int)[0] == bytes@[i as int]);
        assert(bytes@.skip(i as int).drop_first() =~= bytes@.skip(i + 1));
        let b = bytes[i];
        if !(b == 32u8 || b == 9u8 || b == 10u8 || b == 12u8 || b == 13u8) {
            return Some(b);
        }
    }
    None
}

/// Parses ORCID personal details (JSON or XML) into one record.
pub fn parse(bytes: &[u8]) -> (r: Result<Vec<SourceRecord>, String>)
    ensures
        match r {
            Ok(records) => orcid_parse(bytes@) == Ok::<Seq<RecordModel>, Seq<char>>(record_views(records@)),
            Err(e) => orcid_parse(bytes@) == Err::<Seq<RecordModel>, Seq<char>>(e@),
        },
        r matches Ok(records) ==> aliases_tidy(record_views(records@)),
{
    if first_non_space_exec(bytes) == Some(123u8) {
        parse_json(bytes)
    } else {
        parse_xml(bytes)
    }
}

pub open spec fn sample_head() -> Seq<char> {
    "<?xml version=\"1.0\" encoding=\"UTF-8\" standalone=\"yes\"?>\n<personal-details:personal-details xmlns:common=\"http://www.orcid.org/ns/common\" xmlns:personal-details=\"http://www.orcid.org/ns/personal-details\" xmlns:other-name=\"http://www.orcid.org/ns/other-name\">\n  <personal-details:name>\n    <personal-details:given-names>Ada</personal-details:given-names>\n    <personal-details:family-name>Lovelace</personal-details:family-name>\n  </personal-details:name>\n  <other-name:other-names>\n    <other-name:other-name>\n      <other-name:content xml:lang=\""@
}

pub open spec fn sample_tail() -> Seq<char> {
    "\">Augusta Ada Lovelace</other-name:content>\n    </other-name:other-name>\n  </other-name:other-names>\n</personal-details:personal-details>"@
}

/// Ada Lovelace's personal details, with the alias's `xml:lang` set to
/// `locale` (English by default) as given.
pub fn sample(locale: Option<&str>) -> (r: Vec<u8>)
    ensures
        r@ == utf8_encode(sample_head() + crate::json::text_or(crate::json::opt_text(locale), "en"@) + sample_tail()),
{
    let mut text = String::from_str("<?xml version=\"1.0\" encoding=\"UTF-8\" standalone=\"yes\"?>\n<personal-details:personal-details xmlns:common=\"http://www.orcid.org/ns/common\" xmlns:personal-details=\"http://www.orcid.org/ns/personal-details\" xmlns:other-name=\"http://www.orcid.org/ns/other-name\">\n  <personal-details:name>\n    <personal-details:given-names>Ada</personal-details:given-names>\n    <personal-details:family-name>Lovelace</personal-details:family-name>\n  </personal-details:name>\n  <other-name:other-names>\n    <other-name:other-name>\n      <other-name:content xml:lang=\"");
    text.append(crate::json::str_or(locale, "en"));
    text.append("\">Augusta Ada Lovelace</other-name:content>\n    </other-name:other-name>\n  </other-name:other-names>\n</personal-details:personal-details>");
    encode_utf8(text.as_str())
}

} // verus!
