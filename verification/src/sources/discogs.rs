//! Discogs monthly data dumps (artists, labels, masters, or releases).
//!
//! Records are only created for top-level entries: names under `members`,
//! `groups`, or `sublabels` belong to entities that appear as their own
//! top-level records elsewhere in the dump. A gzipped dump (as distributed)
//! is decompressed first; a plain XML payload is read as it is.

use vstd::prelude::*;
use vstd::string::*;
use crate::archive::{gzip_magic, is_gzip};
use crate::collections::{StringSet, set_listing};
use crate::sources::common::make_record;
use crate::lexicon::{RecordModel, Score, ScoreModel, SourceRecord, opt_view, record_model, record_views, aliases_tidy};
use crate::text::{
    chars_of, encode_utf8, is_mixed_case, matches_at, mixed_case, occurs_at, string_of, trim,
    trim_chars, utf8_encode,
};
use crate::xml::{
    XmlEvent, XmlEventModel, bytes_eq, qname_local, qname_local_name, unescape_text,
    gzip_xml_tokens, next_event, open_gzip_xml, open_xml, remaining_events, xml_tokens, xml_text,
};

verus! {

/// What a text node is to the record it belongs to.
#[derive(Clone, Copy, Debug, PartialEq, Eq, Structural)]
pub enum NameRole {
    Canonical,
    Alias,
    Ignored,
}

pub open spec fn record_tag(n: Seq<u8>) -> bool {
    n == "artist".spec_bytes() || n == "label".spec_bytes() || n == "master".spec_bytes() || n
        == "release".spec_bytes()
}

/// A record is a direct child of the dump root: `artists/artist`,
/// `labels/label`, `masters/master`, or `releases/release`.
pub open spec fn is_record_path(path: Seq<Seq<u8>>) -> bool {
    path.len() == 2 && record_tag(path[1])
}

/// `<name>` or `<title>` directly under the record is its canonical name,
/// `<realname>` an alias; so is `<name>` inside the record's `namevariations`
/// or `aliases`.
pub open spec fn spec_name_role(path: Seq<Seq<u8>>) -> NameRole {
    if path.len() == 3 && is_record_path(path.take(2)) {
        if path[2] == "name".spec_bytes() || path[2] == "title".spec_bytes() {
            NameRole::Canonical
        } else if path[2] == "realname".spec_bytes() {
            NameRole::Alias
        } else {
            NameRole::Ignored
        }
    } else if path.len() == 4 && is_record_path(path.take(2)) && (path[2]
        == "namevariations".spec_bytes() || path[2] == "aliases".spec_bytes()) && path[3]
        == "name".spec_bytes() {
        NameRole::Alias
    } else {
        NameRole::Ignored
    }
}

pub open spec fn path_views(p: Seq<Vec<u8>>) -> Seq<Seq<u8>> {
    p.map_values(|v: Vec<u8>| v@)
}

fn is_record_tag(n: &[u8]) -> (r: bool)
    ensures
        r == record_tag(n@),
{
    bytes_eq(n, "artist".as_bytes()) || bytes_eq(n, "label".as_bytes()) || bytes_eq(
        n,
        "master".as_bytes(),
    ) || bytes_eq(n, "release".as_bytes())
}

pub fn is_record_element(path: &[Vec<u8>]) -> (r: bool)
    ensures
        r == is_record_path(path_views(path@)),
{
    path.len() == 2 && is_record_tag(path[1].as_slice())
}

pub fn name_role(path: &[Vec<u8>]) -> (r: NameRole)
    ensures
        r == spec_name_role(path_views(path@)),
{
    let ghost pv = path_views(path@);
    if path.len() >= 2 {
        assert(path_views(path@.take(2)) =~= pv.take(2));
    }
    if path.len() == 3 && path.len() >= 2 && is_record_tag(path[1].as_slice()) {
        assert(is_record_path(pv.take(2)));
        if bytes_eq(path[2].as_slice(), "name".as_bytes()) || bytes_eq(path[2].as_slice(), "title".as_bytes()) {
            return NameRole::Canonical;
        }
        if bytes_eq(path[2].as_slice(), "realname".as_bytes()) {
            return NameRole::Alias;
        }
        return NameRole::Ignored;
    }
    if path.len() == 4 && is_record_tag(path[1].as_slice()) && (bytes_eq(
        path[2].as_slice(),
        "namevariations".as_bytes(),
    ) || bytes_eq(path[2].as_slice(), "aliases".as_bytes())) && bytes_eq(
        path[3].as_slice(),
        "name".as_bytes(),
    ) {
        assert(is_record_path(pv.take(2)));
        return NameRole::Alias;
    }
    proof {
        if path.len() == 3 || path.len() == 4 {
            assert(pv.take(2)[1] == pv[1]);
        }
    }
    NameRole::Ignored
}

/// The last position where `pat` occurs in `s` at or before `i`.
pub open spec fn rfind_at_or_before(s: Seq<char>, pat: Seq<char>, i: int) -> Option<int>
    decreases i + 1,
{
    if i < 0 {
        None
    } else if occurs_at(s, pat, i) {
        Some(i)
    } else {
        rfind_at_or_before(s, pat, i - 1)
    }
}

/// `str::rfind`: the last position where `pat` occurs in `s`.
pub open spec fn rfind(s: Seq<char>, pat: Seq<char>) -> Option<int> {
    rfind_at_or_before(s, pat, s.len() - pat.len())
}

proof fn lemma_rfind_occurs(s: Seq<char>, pat: Seq<char>, i: int)
    ensures
        rfind_at_or_before(s, pat, i) matches Some(j) ==> occurs_at(s, pat, j) && j <= i,
    decreases i + 1,
{
    if i >= 0 && !occurs_at(s, pat, i) {
        lemma_rfind_occurs(s, pat, i - 1);
    }
}

pub open spec fn all_ascii_digits(s: Seq<char>) -> bool {
    forall|k: int| 0 <= k < s.len() ==> '0' <= #[trigger] s[k] && s[k] <= '9'
}

pub open spec fn space_paren() -> Seq<char> {
    seq![' ', '(']
}

/// Removes the Discogs disambiguation suffix: "Aphex Twin (2)" becomes "Aphex Twin".
pub open spec fn spec_strip_disambiguation(name: Seq<char>) -> Seq<char> {
    match rfind(name, space_paren()) {
        Some(start) => {
            if name.len() > 0 && name.last() == ')' {
                let digits = name.subrange(start + 2, name.len() - 1);
                if digits.len() > 0 && all_ascii_digits(digits) {
                    name.take(start)
                } else {
                    name
                }
            } else {
                name
            }
        },
        None => name,
    }
}

proof fn lemma_suffix_found(s: Seq<char>, n: nat, i: int)
    requires
        n + 2 <= s.len(),
        s[n as int] == ' ',
        s[n as int + 1] == '(',
        forall|k: int| n + 1 <= k < s.len() ==> #[trigger] s[k] != ' ',
        n <= i <= s.len() - 2,
    ensures
        rfind_at_or_before(s, space_paren(), i) == Some(n as int),
    decreases i,
{
    if i == n {
        assert(s.subrange(i, i + 2) =~= space_paren());
    } else {
        assert(s.subrange(i, i + 2)[0] == s[i]);
        lemma_suffix_found(s, n, i - 1);
    }
}

/// A name followed by a space and a parenthesized number (Discogs's
/// disambiguation, as in "Aphex Twin (2)") loses exactly that suffix.
pub proof fn lemma_numeric_suffix_stripped(name: Seq<char>, digits: Seq<char>)
    requires
        digits.len() > 0,
        all_ascii_digits(digits),
    ensures
        spec_strip_disambiguation(name + seq![' ', '('] + digits + seq![')']) == name,
{
    let s = name + seq![' ', '('] + digits + seq![')'];
    let n = name.len();
    assert forall|k: int| n + 1 <= k < s.len() implies #[trigger] s[k] != ' ' by {
        if k == n + 1 {
            assert(s[k] == '(');
        } else if k < s.len() - 1 {
            assert(s[k] == digits[k - n - 2]);
        } else {
            assert(s[k] == ')');
        }
    }
    lemma_suffix_found(s, n, s.len() - 2);
    assert(s.subrange(n as int + 2, s.len() - 1) =~= digits);
    assert(s.take(n as int) =~= name);
}

pub fn strip_disambiguation(name: &[char]) -> (r: Vec<char>)
    ensures
        r@ == spec_strip_disambiguation(name@),
{
    let pat: Vec<char> = vec![' ', '('];
    assert(pat@ =~= space_paren());
    let n = name.len();
    let mut found: Option<usize> = None;
    if n >= 2 {
        let mut i: usize = n - 2 + 1;
        // search downwards from the last position a match can start at
        while i > 0 && found.is_none()
            invariant
                pat@ == space_paren(),
                n == name@.len(),
                n >= 2,
                i <= n - 1,
                found is None ==> rfind(name@, space_paren()) == rfind_at_or_before(name@, space_paren(), i - 1),
                found matches Some(s) ==> rfind(name@, space_paren()) == Some(s as int),
            decreases i + (if found is None { 1int } else { 0int }),
        {
            if matches_at(name, pat.as_slice(), i - 1) {
                found = Some(i - 1);
            } else {
                i = i - 1;
            }
        }
        assert(found is None ==> rfind(name@, space_paren()) is None);
    } else {
        assert(rfind(name@, space_paren()) is None) by {
            assert(rfind_at_or_before(name@, space_paren(), n - 2) is None) by {
                if n == 1 {
                    assert(!occurs_at(name@, space_paren(), -1));
                }
            }
        }
    }
    let mut out: Vec<char> = Vec::new();
    match found {
        Some(start) => {
            if n > 0 && name[n - 1] == ')' {
                proof {
                    lemma_rfind_occurs(name@, space_paren(), name@.len() - 2);
                    assert(occurs_at(name@, space_paren(), start as int));
                    assert(name@.subrange(start as int, start + 2)[1] == '(');
                    assert(name@[start + 1] == '(');
                }
                // the digits lie between " (" and the closing ")"
                let mut all_digits = start + 2 < n - 1;
                let mut k = start + 2;
                while k < n - 1
                    invariant
                        start + 2 <= k <= n - 1,
                        n == name@.len(),
                        all_digits == (start + 2 < n - 1 && forall|t: int| start + 2 <= t < k ==> '0' <= #[trigger] name@[t] && name@[t] <= '9'),
                    decreases n - 1 - k,
                {
                    if !('0' <= name[k] && name[k] <= '9') {
                        all_digits = false;
                    }
                    k = k + 1;
                }
                proof {
                    let digits = name@.subrange(start + 2, n - 1);
                    if all_digits {
                        assert forall|q: int| 0 <= q < digits.len() implies '0' <= #[trigger] digits[q] && digits[q] <= '9' by {
                            assert(digits[q] == name@[start + 2 + q]);
                        }
                    }
                    if digits.len() > 0 && all_ascii_digits(digits) {
                        assert forall|t: int| start + 2 <= t < n - 1 implies '0' <= #[trigger] name@[t] && name@[t] <= '9' by {
                            assert(name@[t] == digits[t - (start + 2)]);
                        }
                    }
                }
                if all_digits {
                    for t in 0..start
                        invariant
                            start <= n,
                            n == name@.len(),
                            out@ == name@.take(t as int),
                    {
                        out.push(name[t]);
                        assert(out@ =~= name@.take(t + 1));
                    }
                    return out;
                }
            }
        },
        None => {},
    }
    for t in 0..n
        invariant
            n == name@.len(),
            out@ == name@.take(t as int),
    {
        out.push(name[t]);
        assert(out@ =~= name@.take(t + 1));
    }
    assert(name@.take(n as int) =~= name@);
    out
}

/// The parser's state between events.
pub struct DiscogsState {
    pub path: Seq<Seq<u8>>,
    pub records: Seq<RecordModel>,
    pub canonical: Option<Seq<char>>,
    pub aliases: Set<Seq<char>>,
}

pub open spec fn discogs_score(name: Seq<char>) -> nat {
    if mixed_case(name) {
        200
    } else {
        120
    }
}

pub open spec fn discogs_step(st: Result<DiscogsState, Seq<char>>, ev: XmlEventModel) -> Result<DiscogsState, Seq<char>> {
    match st {
        Err(e) => Err(e),
        Ok(s) => match ev {
            XmlEventModel::Start(name, _) => {
                let path = s.path.push(qname_local(name));
                if is_record_path(path) {
                    Ok(DiscogsState { path, canonical: None, aliases: Set::empty(), ..s })
                } else {
                    Ok(DiscogsState { path, ..s })
                }
            },
            XmlEventModel::End(_) => {
                let popped = if s.path.len() > 0 {
                    s.path.drop_last()
                } else {
                    s.path
                };
                if is_record_path(s.path) && s.canonical is Some {
                    let name = s.canonical->0;
                    let rec = record_model(
                        name,
                        set_listing(s.aliases.remove(name)),
                        ScoreModel::Hundredths(discogs_score(name)),
                    );
                    Ok(DiscogsState { path: popped, records: s.records.push(rec), canonical: None, aliases: Set::empty() })
                } else {
                    Ok(DiscogsState { path: popped, ..s })
                }
            },
            XmlEventModel::Text(raw) => {
                let role = spec_name_role(s.path);
                if role == NameRole::Ignored {
                    Ok(s)
                } else {
                    match xml_text(raw) {
                        Err(e) => Err(e),
                        Ok(t) => {
                            let text = spec_strip_disambiguation(trim(t));
                            if text.len() == 0 {
                                Ok(s)
                            } else if role == NameRole::Canonical && s.canonical is None {
                                Ok(DiscogsState { canonical: Some(text), ..s })
                            } else {
                                Ok(DiscogsState { aliases: s.aliases.insert(text), ..s })
                            }
                        },
                    }
                }
            },
            XmlEventModel::Other => Ok(s),
        },
    }
}

proof fn lemma_role_tag_lengths()
    ensures
        "name".spec_bytes().len() == 4,
        "title".spec_bytes().len() == 5,
        "realname".spec_bytes().len() == 8,
{
    reveal_strlit("name");
    reveal_strlit("title");
    reveal_strlit("realname");
    vstd::string::is_ascii_spec_bytes("name");
    vstd::string::is_ascii_spec_bytes("title");
    vstd::string::is_ascii_spec_bytes("realname");
}

/// Under any record element (an `artist`, `label`, `master` or `release`
/// directly under the root), `name` and `title` name the record, `realname`
/// is an alias, and so is a `name` inside `namevariations` or `aliases`.
pub proof fn lemma_name_roles(root: Seq<u8>, tag: Seq<u8>, leaf: Seq<u8>, list: Seq<u8>)
    requires
        tag == "artist".spec_bytes() || tag == "label".spec_bytes() || tag == "master".spec_bytes() || tag
            == "release".spec_bytes(),
    ensures
        (leaf == "name".spec_bytes() || leaf == "title".spec_bytes()) ==> spec_name_role(seq![root, tag, leaf])
            == NameRole::Canonical,
        leaf == "realname".spec_bytes() ==> spec_name_role(seq![root, tag, leaf]) == NameRole::Alias,
        (list == "namevariations".spec_bytes() || list == "aliases".spec_bytes()) ==> spec_name_role(
            seq![root, tag, list, "name".spec_bytes()],
        ) == NameRole::Alias,
{
    lemma_role_tag_lengths();
    assert(seq![root, tag, leaf].take(2) =~= seq![root, tag]);
    assert(seq![root, tag, list, "name".spec_bytes()].take(2) =~= seq![root, tag]);
}

/// A text under a record's `name` names it (stripped of any numeric
/// disambiguation) when it has no name yet; a text under `realname`, or under
/// a `name` in `namevariations` or `aliases`, is added as an alias.
pub proof fn lemma_texts_by_role(s: DiscogsState, raw: Seq<u8>, root: Seq<u8>, tag: Seq<u8>, list: Seq<u8>, x: Seq<char>)
    requires
        tag == "artist".spec_bytes() || tag == "label".spec_bytes() || tag == "master".spec_bytes() || tag
            == "release".spec_bytes(),
        xml_text(raw) == Ok::<Seq<char>, Seq<char>>(x),
        spec_strip_disambiguation(trim(x)).len() > 0,
    ensures
        (s.path == seq![root, tag, "name".spec_bytes()] && s.canonical is None) ==> discogs_step(
            Ok(s),
            XmlEventModel::Text(raw),
        ) == Ok::<DiscogsState, Seq<char>>(DiscogsState { canonical: Some(spec_strip_disambiguation(trim(x))), ..s }),
        (s.path == seq![root, tag, "realname".spec_bytes()] || ((list == "namevariations".spec_bytes() || list
            == "aliases".spec_bytes()) && s.path == seq![root, tag, list, "name".spec_bytes()])) ==> discogs_step(
            Ok(s),
            XmlEventModel::Text(raw),
        ) == Ok::<DiscogsState, Seq<char>>(DiscogsState { aliases: s.aliases.insert(spec_strip_disambiguation(trim(x))), ..s }),
{
    lemma_name_roles(root, tag, "name".spec_bytes(), list);
    lemma_name_roles(root, tag, "realname".spec_bytes(), list);
}

pub open spec fn discogs_fold(events: Seq<XmlEventModel>) -> Result<DiscogsState, Seq<char>>
    decreases events.len(),
{
    if events.len() == 0 {
        Ok(DiscogsState { path: Seq::empty(), records: Seq::empty(), canonical: None, aliases: Set::empty() })
    } else {
        discogs_step(discogs_fold(events.drop_last()), events.last())
    }
}

pub open spec fn no_records_message() -> Seq<char> {
    "Discogs payload did not yield any records"@
}

/// The events of a payload, read through a decompressing reader where it is
/// a gzip stream.
pub open spec fn discogs_tokens(bytes: Seq<u8>) -> (Seq<XmlEventModel>, Option<Seq<char>>) {
    if gzip_magic(bytes) {
        gzip_xml_tokens(bytes)
    } else {
        xml_tokens(bytes)
    }
}

/// The records of a Discogs dump.
pub open spec fn discogs_parse(bytes: Seq<u8>) -> Result<Seq<RecordModel>, Seq<char>> {
    let (events, read_error) = discogs_tokens(bytes);
    match discogs_fold(events) {
        Err(e) => Err(e),
        Ok(s) => match read_error {
            Some(e) => Err(e),
            None => if s.records.len() == 0 {
                Err(no_records_message())
            } else {
                Ok(s.records)
            },
        },
    }
}

proof fn lemma_discogs_error_sticks(evs: Seq<XmlEventModel>, i: int, e: Seq<char>)
    requires
        0 <= i <= evs.len(),
        discogs_fold(evs.take(i)) == Err::<DiscogsState, Seq<char>>(e),
    ensures
        discogs_fold(evs) == Err::<DiscogsState, Seq<char>>(e),
    decreases evs.len() - i,
{
    if i < evs.len() {
        assert(evs.take(i + 1).drop_last() =~= evs.take(i));
        lemma_discogs_error_sticks(evs, i + 1, e);
    } else {
        assert(evs.take(i) =~= evs);
    }
}

fn take_string(s: &mut Option<String>) -> (r: Option<String>)
    ensures
        r == *old(s),
        *final(s) is None,
{
    let mut out: Option<String> = None;
    std::mem::swap(&mut out, s);
    out
}

/// Parses a Discogs dump into one record per top-level entry.
pub fn parse(bytes: &[u8]) -> (r: Result<Vec<SourceRecord>, String>)
    ensures
        match r {
            Ok(records) => discogs_parse(bytes@) == Ok::<Seq<RecordModel>, Seq<char>>(record_views(records@)),
            Err(e) => discogs_parse(bytes@) == Err::<Seq<RecordModel>, Seq<char>>(e@),
        },
        r matches Ok(records) ==> aliases_tidy(record_views(records@)),
{
    let mut reader = if is_gzip(bytes) {
        open_gzip_xml(bytes)
    } else {
        open_xml(bytes)
    };
    let ghost evs = discogs_tokens(bytes@).0;
    let ghost end = discogs_tokens(bytes@).1;
    let ghost mut i: int = 0;
    let mut finished = false;
    let mut path: Vec<Vec<u8>> = Vec::new();
    let mut records: Vec<SourceRecord> = Vec::new();
    let mut canonical: Option<String> = None;
    let mut aliases = StringSet::new();
    proof {
        assert(evs.take(0) =~= Seq::<XmlEventModel>::empty());
        assert(evs.skip(0) =~= evs);
        assert(path_views(path@) =~= Seq::<Seq<u8>>::empty());
        assert(record_views(records@) =~= Seq::<RecordModel>::empty());
        assert(aliases.set() =~= Set::<Seq<char>>::empty());
    }
    while !finished
        invariant
            aliases_tidy(record_views(records@)),
            discogs_tokens(bytes@) == (evs, end),
            0 <= i <= evs.len(),
            !finished ==> remaining_events(reader) == (evs.skip(i), end),
            finished ==> i == evs.len() && end is None,
            discogs_fold(evs.take(i)) == Ok::<DiscogsState, Seq<char>>(DiscogsState {
                path: path_views(path@),
                records: record_views(records@),
                canonical: opt_view(canonical),
                aliases: aliases.set(),
            }),
        decreases evs.len() - i + if finished { 0int } else { 1int },
    {
        let event = match next_event(&mut reader) {
            Ok(Some(ev)) => ev,
            Ok(None) => {
                finished = true;
                continue;
            },
            Err(e) => {
                assert(evs.take(i) =~= evs);
                return Err(e);
            },
        };
        let ghost before = DiscogsState {
            path: path_views(path@),
            records: record_views(records@),
            canonical: opt_view(canonical),
            aliases: aliases.set(),
        };
        proof {
            assert(evs.skip(i)[0] == evs[i]);
            assert(evs.skip(i).drop_first() =~= evs.skip(i + 1));
            assert(evs.take(i + 1).drop_last() =~= evs.take(i));
            assert(evs.take(i + 1).last() == event@);
        }
        match &event {
            XmlEvent::Start(name, _) => {
                let local = qname_local_name(name.as_slice());
                path.push(local);
                assert(path_views(path@) =~= before.path.push(qname_local(name@)));
                if is_record_element(path.as_slice()) {
                    canonical = None;
                    aliases.clear();
                    assert(aliases.set() =~= Set::<Seq<char>>::empty());
                }
            },
            XmlEvent::End(_) => {
                if is_record_element(path.as_slice()) && canonical.is_some() {
                    let name = take_string(&mut canonical).unwrap();
                    aliases.remove(name.as_str());
                    let mut taken = StringSet::new();
                    std::mem::swap(&mut taken, &mut aliases);
                    let score: u32 = if is_mixed_case(name.as_str()) {
                        200
                    } else {
                        120
                    };
                    let rec = make_record(name, taken, Score::Hundredths(score));
                    let ghost rv = record_views(records@);
                    records.push(rec);
                    assert(record_views(records@) =~= rv.push(rec@));
                    assert(aliases.set() =~= Set::<Seq<char>>::empty());
                }
                let ghost pv = path_views(path@);
                if path.len() > 0 {
                    path.pop();
                    assert(path_views(path@) =~= pv.drop_last());
                }
            },
            XmlEvent::Text(raw) => {
                let role = name_role(path.as_slice());
                if role != NameRole::Ignored {
                    let unescaped = match unescape_text(raw.as_slice()) {
                        Ok(t) => t,
                        Err(e) => {
                            proof {
                                assert(discogs_fold(evs.take(i + 1)) == Err::<DiscogsState, Seq<char>>(e@));
                                lemma_discogs_error_sticks(evs, i + 1, e@);
                            }
                            return Err(e);
                        },
                    };
                    let cs = chars_of(unescaped.as_str());
                    let trimmed = trim_chars(cs.as_slice());
                    let stripped = strip_disambiguation(trimmed.as_slice());
                    if stripped.len() > 0 {
                        let text = string_of(stripped.as_slice());
                        if role == NameRole::Canonical && canonical.is_none() {
                            canonical = Some(text);
                        } else {
                            aliases.insert(text);
                        }
                    }
                }
            },
            XmlEvent::Other => {},
        }
        proof {
            i = i + 1;
        }
    }
    proof {
        assert(evs.take(i) =~= evs);
    }
    if records.len() == 0 {
        return Err(String::from_str("Discogs payload did not yield any records"));
    }
    Ok(records)
}

/// Accepts a dump that yields at least one record.
pub fn validate(bytes: &[u8]) -> (r: Result<(), String>)
    ensures
        r is Ok <==> discogs_parse(bytes@) is Ok,
        r matches Err(e) ==> discogs_parse(bytes@) == Err::<Seq<RecordModel>, Seq<char>>(e@),
{
    match parse(bytes) {
        Ok(_) => Ok(()),
        Err(e) => Err(e),
    }
}

pub open spec fn sample_text() -> Seq<char> {
    "<artists>\n  <artist>\n    <id>1289</id>\n    <name>Daft Punk</name>\n    <namevariations><name>Daftpunk</name></namevariations>\n    <aliases><name id=\"2933\">The Third Twin</name></aliases>\n    <members><name id=\"1590\">Thomas Bangalter</name></members>\n  </artist>\n  <artist>\n    <id>5</id>\n    <name>Aphex Twin (2)</name>\n    <realname>Richard David James</realname>\n  </artist>\n</artists>\n"@
}

/// A two-artist excerpt of an artists dump.
pub fn sample(_locale: Option<&str>) -> (r: Vec<u8>)
    ensures
        r@ == utf8_encode(sample_text()),
{
    encode_utf8("<artists>\n  <artist>\n    <id>1289</id>\n    <name>Daft Punk</name>\n    <namevariations><name>Daftpunk</name></namevariations>\n    <aliases><name id=\"2933\">The Third Twin</name></aliases>\n    <members><name id=\"1590\">Thomas Bangalter</name></members>\n  </artist>\n  <artist>\n    <id>5</id>\n    <name>Aphex Twin (2)</name>\n    <realname>Richard David James</realname>\n  </artist>\n</artists>\n")
}

} // verus!
