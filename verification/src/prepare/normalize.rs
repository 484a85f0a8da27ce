//! Lookup entries for a record, guarded against rewriting text.
//!
//! The canonical form and its spelling variants (casing, diacritics,
//! German-style transliteration, punctuation and spacing) map to the
//! canonical. An alias that is a different name (a translation, a previous
//! name, an inflected form) maps to its own casing instead, and is dropped
//! when it carries none: mapping "berlim" to "Berlin" would rewrite the text,
//! not recase it.

use vstd::prelude::*;
use crate::collections::{
    PairSet, lemma_empty_to_set, lemma_pairs_listing_unique, lemma_push_to_set, pair_views,
    pairs_sorted,
};
use crate::lexicon::{RecordModel, SourceRecord};
use crate::text::{
    char_is_alphanumeric, chars_lowercase, chars_of, is_alphanumeric,
    lowercase_chars, str_lowercase, to_lowercase,
};

verus! {

/// The base letters a diacritic letter strips to ("ü" to "u").
pub open spec fn spec_strip_diacritic(c: char) -> Option<Seq<char>> {
    match c {
        'à' | 'á' | 'â' | 'ã' | 'ä' | 'å' | 'ā' | 'ă' | 'ą' => Some("a"@),
        'ç' | 'ć' | 'č' => Some("c"@),
        'ď' | 'đ' | 'ð' => Some("d"@),
        'è' | 'é' | 'ê' | 'ë' | 'ē' | 'ė' | 'ę' | 'ě' => Some("e"@),
        'ğ' | 'ģ' => Some("g"@),
        'ì' | 'í' | 'î' | 'ï' | 'ī' | 'į' | 'ı' => Some("i"@),
        'ķ' => Some("k"@),
        'ł' | 'ļ' | 'ľ' => Some("l"@),
        'ñ' | 'ń' | 'ņ' | 'ň' => Some("n"@),
        'ò' | 'ó' | 'ô' | 'õ' | 'ö' | 'ø' | 'ō' | 'ő' => Some("o"@),
        'ř' => Some("r"@),
        'ś' | 'ş' | 'š' | 'ș' => Some("s"@),
        'ť' | 'ț' => Some("t"@),
        'ù' | 'ú' | 'û' | 'ü' | 'ū' | 'ů' | 'ű' | 'ų' => Some("u"@),
        'ý' | 'ÿ' => Some("y"@),
        'ź' | 'ż' | 'ž' => Some("z"@),
        'ß' => Some("ss"@),
        'æ' => Some("ae"@),
        'œ' => Some("oe"@),
        'þ' => Some("th"@),
        _ => None,
    }
}

/// The Germanic expansion of a letter ("ü" to "ue"), else its stripped form.
pub open spec fn spec_expand_diacritic(c: char) -> Option<Seq<char>> {
    match c {
        'ä' => Some("ae"@),
        'ö' | 'ø' => Some("oe"@),
        'ü' => Some("ue"@),
        'å' => Some("aa"@),
        _ => spec_strip_diacritic(c),
    }
}

pub fn strip_diacritic(ch: char) -> (r: Option<&'static str>)
    ensures
        r is Some <==> spec_strip_diacritic(ch) is Some,
        r matches Some(s) ==> Some(s@) == spec_strip_diacritic(ch),
{
    match ch {
        'à' | 'á' | 'â' | 'ã' | 'ä' | 'å' | 'ā' | 'ă' | 'ą' => Some("a"),
        'ç' | 'ć' | 'č' => Some("c"),
        'ď' | 'đ' | 'ð' => Some("d"),
        'è' | 'é' | 'ê' | 'ë' | 'ē' | 'ė' | 'ę' | 'ě' => Some("e"),
        'ğ' | 'ģ' => Some("g"),
        'ì' | 'í' | 'î' | 'ï' | 'ī' | 'į' | 'ı' => Some("i"),
        'ķ' => Some("k"),
        'ł' | 'ļ' | 'ľ' => Some("l"),
        'ñ' | 'ń' | 'ņ' | 'ň' => Some("n"),
        'ò' | 'ó' | 'ô' | 'õ' | 'ö' | 'ø' | 'ō' | 'ő' => Some("o"),
        'ř' => Some("r"),
        'ś' | 'ş' | 'š' | 'ș' => Some("s"),
        'ť' | 'ț' => Some("t"),
        'ù' | 'ú' | 'û' | 'ü' | 'ū' | 'ů' | 'ű' | 'ų' => Some("u"),
        'ý' | 'ÿ' => Some("y"),
        'ź' | 'ż' | 'ž' => Some("z"),
        'ß' => Some("ss"),
        'æ' => Some("ae"),
        'œ' => Some("oe"),
        'þ' => Some("th"),
        _ => None,
    }
}

pub fn expand_diacritic(ch: char) -> (r: Option<&'static str>)
    ensures
        r is Some <==> spec_expand_diacritic(ch) is Some,
        r matches Some(s) ==> Some(s@) == spec_expand_diacritic(ch),
{
    match ch {
        'ä' => Some("ae"),
        'ö' | 'ø' => Some("oe"),
        'ü' => Some("ue"),
        'å' => Some("aa"),
        _ => strip_diacritic(ch),
    }
}

/// What one lowercase character contributes to a folded form under `table`:
/// nothing for punctuation and spacing, its table entry for a diacritic
/// letter, itself otherwise.
pub open spec fn fold_piece(c: char, expand: bool) -> Seq<char> {
    if !is_alphanumeric(c) {
        Seq::empty()
    } else {
        let t = if expand { spec_expand_diacritic(c) } else { spec_strip_diacritic(c) };
        match t {
            Some(base) => base,
            None => seq![c],
        }
    }
}

pub open spec fn fold_seq(s: Seq<char>, expand: bool) -> Seq<char>
    decreases s.len(),
{
    if s.len() == 0 {
        Seq::empty()
    } else {
        fold_seq(s.drop_last(), expand) + fold_piece(s.last(), expand)
    }
}

/// A name folded two ways, both lowercase with punctuation and whitespace
/// removed: diacritics stripped to base letters, and diacritics expanded
/// Germanic-style.
pub open spec fn folded(s: Seq<char>) -> (Seq<char>, Seq<char>) {
    (fold_seq(chars_lowercase(s), false), fold_seq(chars_lowercase(s), true))
}

/// Whether an alias, given its folded forms, spells the same word sequence as
/// a canonical with the given folded forms, on any of the four
/// cross-comparisons.
pub open spec fn forms_match(a: (Seq<char>, Seq<char>), c: (Seq<char>, Seq<char>)) -> bool {
    a.0 == c.0 || a.0 == c.1 || a.1 == c.0 || a.1 == c.1
}

/// Whether `alias` is a spelling of the same word sequence as `canonical`.
pub open spec fn spelling_variant(alias: Seq<char>, canonical: Seq<char>) -> bool {
    forms_match(folded(alias), folded(canonical))
}

fn push_str_chars(out: &mut Vec<char>, s: &str)
    ensures
        final(out)@ == old(out)@ + s@,
{
    let cs = chars_of(s);
    let ghost before = out@;
    for i in 0..cs.len()
        invariant
            cs@ == s@,
            out@ == before + cs@.take(i as int),
    {
        out.push(cs[i]);
        assert(out@ =~= before + cs@.take(i + 1));
    }
    assert(cs@.take(cs.len() as int) =~= cs@);
}

/// Folds a name two ways (see `folded`).
pub fn folded_forms(input: &str) -> (r: (Vec<char>, Vec<char>))
    ensures
        (r.0@, r.1@) == folded(input@),
{
    let raw = chars_of(input);
    let lower = lowercase_chars(raw.as_slice());
    let mut stripped: Vec<char> = Vec::new();
    let mut transliterated: Vec<char> = Vec::new();
    for i in 0..lower.len()
        invariant
            lower@ == chars_lowercase(input@),
            stripped@ == fold_seq(lower@.take(i as int), false),
            transliterated@ == fold_seq(lower@.take(i as int), true),
    {
        let ch = lower[i];
        proof {
            assert(lower@.take(i + 1).drop_last() =~= lower@.take(i as int));
            assert(lower@.take(i + 1).last() == ch);
        }
        if char_is_alphanumeric(ch) {
            match strip_diacritic(ch) {
                Some(base) => push_str_chars(&mut stripped, base),
                None => stripped.push(ch),
            }
            match expand_diacritic(ch) {
                Some(expanded) => push_str_chars(&mut transliterated, expanded),
                None => transliterated.push(ch),
            }
        }
        proof {
            assert(stripped@ =~= fold_seq(lower@.take(i as int), false) + fold_piece(ch, false));
            assert(transliterated@ =~= fold_seq(lower@.take(i as int), true) + fold_piece(ch, true));
        }
    }
    assert(lower@.take(lower.len() as int) =~= lower@);
    (stripped, transliterated)
}

fn same_chars(a: &Vec<char>, b: &Vec<char>) -> (r: bool)
    ensures
        r == (a@ == b@),
{
    if a.len() != b.len() {
        return false;
    }
    for i in 0..a.len()
        invariant
            a@.len() == b@.len(),
            forall|k: int| 0 <= k < i ==> a@[k] == b@[k],
    {
        if a[i] != b[i] {
            return false;
        }
    }
    assert(a@ =~= b@);
    true
}

/// Whether `alias` spells the same word sequence as the canonical whose
/// folded forms are given.
pub fn matches_folded(alias: &str, canonical: &(Vec<char>, Vec<char>)) -> (r: bool)
    ensures
        r == forms_match(folded(alias@), (canonical.0@, canonical.1@)),
{
    let (alias_stripped, alias_transliterated) = folded_forms(alias);
    same_chars(&alias_stripped, &canonical.0) || same_chars(&alias_stripped, &canonical.1)
        || same_chars(&alias_transliterated, &canonical.0) || same_chars(
        &alias_transliterated,
        &canonical.1,
    )
}

/// The entry an alias contributes, if any.
pub open spec fn alias_entry(alias: Seq<char>, canonical: Seq<char>) -> Option<(Seq<char>, Seq<char>)> {
    if spelling_variant(alias, canonical) {
        Some((str_lowercase(alias), canonical))
    } else if alias != str_lowercase(alias) {
        Some((str_lowercase(alias), alias))
    } else {
        None
    }
}

pub open spec fn alias_entries(aliases: Seq<Seq<char>>, canonical: Seq<char>) -> Seq<(Seq<char>, Seq<char>)>
    decreases aliases.len(),
{
    if aliases.len() == 0 {
        Seq::empty()
    } else {
        let rest = alias_entries(aliases.drop_last(), canonical);
        match alias_entry(aliases.last(), canonical) {
            Some(e) => rest.push(e),
            None => rest,
        }
    }
}

/// The lookup entries of a record, before sorting and deduplication.
pub open spec fn raw_lookup_entries(record: RecordModel) -> Seq<(Seq<char>, Seq<char>)> {
    seq![(str_lowercase(record.canonical), record.canonical)] + alias_entries(
        record.aliases,
        record.canonical,
    )
}

/// The set of lookup entries of a record.
pub open spec fn lookup_entry_set(record: RecordModel) -> Set<(Seq<char>, Seq<char>)> {
    raw_lookup_entries(record).to_set()
}

/// The lookup entries of a record in tuple order, each once.
pub open spec fn sorted_lookup_entries(record: RecordModel) -> Seq<(Seq<char>, Seq<char>)> {
    choose|s: Seq<(Seq<char>, Seq<char>)>| pairs_sorted(s) && s.to_set() == lookup_entry_set(record)
}

/// Lookup entries for a record, sorted and without repeats.
pub fn lookup_entries(record: &SourceRecord) -> (r: Vec<(String, String)>)
    ensures
        pairs_sorted(pair_views(r@)),
        pair_views(r@).to_set() == lookup_entry_set(record@),
        pair_views(r@) == sorted_lookup_entries(record@),
{
    let mut entries = PairSet::new();
    let canonical_key = to_lowercase(record.canonical.as_str());
    entries.insert((canonical_key, record.canonical.clone()));
    let ghost first = (str_lowercase(record.canonical@), record.canonical@);
    proof {
        lemma_empty_to_set(Seq::<(Seq<char>, Seq<char>)>::empty());
        lemma_push_to_set(Seq::<(Seq<char>, Seq<char>)>::empty(), first);
        assert(seq![first] =~= Seq::<(Seq<char>, Seq<char>)>::empty().push(first));
        assert(seq![first] + alias_entries(record@.aliases.take(0), record.canonical@) =~= seq![first]);
    }
    // Fold the canonical once and reuse it for every alias check.
    let canonical_forms = folded_forms(record.canonical.as_str());
    for i in 0..record.aliases.len()
        invariant
            (canonical_forms.0@, canonical_forms.1@) == folded(record.canonical@),
            entries.set() == (seq![first] + alias_entries(
                record@.aliases.take(i as int),
                record.canonical@,
            )).to_set(),
            record@.aliases.len() == record.aliases@.len(),
    {
        let alias = &record.aliases[i];
        let ghost a = alias@;
        let ghost prev = seq![first] + alias_entries(record@.aliases.take(i as int), record.canonical@);
        proof {
            assert(record@.aliases[i as int] == a);
            assert(record@.aliases.take(i + 1).drop_last() =~= record@.aliases.take(i as int));
            assert(record@.aliases.take(i + 1).last() == a);
        }
        let key = to_lowercase(alias.as_str());
        if matches_folded(alias.as_str(), &canonical_forms) {
            entries.insert((key, record.canonical.clone()));
            proof {
                assert(prev.push((str_lowercase(a), record.canonical@)) =~= seq![first]
                    + alias_entries(record@.aliases.take(i + 1), record.canonical@));
                lemma_push_to_set(prev, (str_lowercase(a), record.canonical@));
            }
        } else if !(*alias == key) {
            entries.insert((key, alias.clone()));
            proof {
                assert(prev.push((str_lowercase(a), a)) =~= seq![first]
                    + alias_entries(record@.aliases.take(i + 1), record.canonical@));
                lemma_push_to_set(prev, (str_lowercase(a), a));
            }
        } else {
            proof {
                assert(prev =~= seq![first] + alias_entries(record@.aliases.take(i + 1), record.canonical@));
            }
        }
    }
    proof {
        assert(record@.aliases.take(record.aliases.len() as int) =~= record@.aliases);
    }
    let r = entries.into_vec();
    proof {
        let s = sorted_lookup_entries(record@);
        assert(pairs_sorted(pair_views(r@)) && pair_views(r@).to_set() == lookup_entry_set(record@));
        assert(pairs_sorted(s) && s.to_set() == lookup_entry_set(record@));
        lemma_pairs_listing_unique(pair_views(r@), s);
    }
    r
}

/// The Latin letters with a diacritic, by family, and the plain letters that
/// stripping the diacritic leaves: the a-family (à á â ã ä å ā ă ą) leaves
/// "a", and so on; ß, æ, œ and þ leave two letters.
pub open spec fn diacritic_base(c: char) -> Option<Seq<char>> {
    if "àáâãäåāăą"@.contains(c) {
        Some("a"@)
    } else if "çćč"@.contains(c) {
        Some("c"@)
    } else if "ďđð"@.contains(c) {
        Some("d"@)
    } else if "èéêëēėęě"@.contains(c) {
        Some("e"@)
    } else if "ğģ"@.contains(c) {
        Some("g"@)
    } else if "ìíîïīįı"@.contains(c) {
        Some("i"@)
    } else if "ķ"@.contains(c) {
        Some("k"@)
    } else if "łļľ"@.contains(c) {
        Some("l"@)
    } else if "ñńņň"@.contains(c) {
        Some("n"@)
    } else if "òóôõöøōő"@.contains(c) {
        Some("o"@)
    } else if "ř"@.contains(c) {
        Some("r"@)
    } else if "śşšș"@.contains(c) {
        Some("s"@)
    } else if "ťț"@.contains(c) {
        Some("t"@)
    } else if "ùúûüūůűų"@.contains(c) {
        Some("u"@)
    } else if "ýÿ"@.contains(c) {
        Some("y"@)
    } else if "źżž"@.contains(c) {
        Some("z"@)
    } else if "ß"@.contains(c) {
        Some("ss"@)
    } else if "æ"@.contains(c) {
        Some("ae"@)
    } else if "œ"@.contains(c) {
        Some("oe"@)
    } else if "þ"@.contains(c) {
        Some("th"@)
    } else {
        None
    }
}

proof fn lemma_strip_follows_diacritic_base(c: char)
    ensures
        diacritic_base(c) matches Some(b) ==> spec_strip_diacritic(c) == Some(b),
{
    reveal_strlit("àáâãäåāăą");
    reveal_strlit("çćč");
    reveal_strlit("ďđð");
    reveal_strlit("èéêëēėęě");
    reveal_strlit("ğģ");
    reveal_strlit("ìíîïīįı");
    reveal_strlit("ķ");
    reveal_strlit("łļľ");
    reveal_strlit("ñńņň");
    reveal_strlit("òóôõöøōő");
    reveal_strlit("ř");
    reveal_strlit("śşšș");
    reveal_strlit("ťț");
    reveal_strlit("ùúûüūůűų");
    reveal_strlit("ýÿ");
    reveal_strlit("źżž");
    reveal_strlit("ß");
    reveal_strlit("æ");
    reveal_strlit("œ");
    reveal_strlit("þ");
    reveal_strlit("a");
    reveal_strlit("ae");
    reveal_strlit("c");
    reveal_strlit("d");
    reveal_strlit("e");
    reveal_strlit("g");
    reveal_strlit("i");
    reveal_strlit("k");
    reveal_strlit("l");
    reveal_strlit("n");
    reveal_strlit("o");
    reveal_strlit("oe");
    reveal_strlit("r");
    reveal_strlit("s");
    reveal_strlit("ss");
    reveal_strlit("t");
    reveal_strlit("th");
    reveal_strlit("u");
    reveal_strlit("y");
    reveal_strlit("z");
}

/// Folding distributes over concatenation.
proof fn lemma_fold_concat(a: Seq<char>, b: Seq<char>, expand: bool)
    ensures
        fold_seq(a + b, expand) == fold_seq(a, expand) + fold_seq(b, expand),
    decreases b.len(),
{
    if b.len() == 0 {
        assert(a + b =~= a);
        assert(fold_seq(a, expand) + fold_seq(b, expand) =~= fold_seq(a, expand));
    } else {
        lemma_fold_concat(a, b.drop_last(), expand);
        assert((a + b).drop_last() =~= a + b.drop_last());
        assert((a + b).last() == b.last());
        assert(fold_seq(a, expand) + fold_seq(b.drop_last(), expand) + fold_piece(b.last(), expand) =~= fold_seq(a, expand)
            + (fold_seq(b.drop_last(), expand) + fold_piece(b.last(), expand)));
    }
}

/// Plain ASCII letters fold to themselves.
proof fn lemma_fold_plain(b: Seq<char>)
    requires
        forall|j: int| 0 <= j < b.len() ==> 'a' <= #[trigger] b[j] <= 'z' && is_alphanumeric(b[j]),
    ensures
        fold_seq(b, false) == b,
    decreases b.len(),
{
    if b.len() > 0 {
        lemma_fold_plain(b.drop_last());
        assert(fold_seq(b.drop_last(), false) + seq![b.last()] =~= b);
    }
}

/// Writing a letter with a diacritic as its plain base letters keeps the
/// spelling: an alias whose lowercase differs from the canonical's only there
/// ("Montreal" for "Montréal", "Strasse" for "Straße") is a spelling variant.
/// (`is_alphanumeric` is std's, so that the letters count as letters is given.)
pub proof fn lemma_plain_letters_keep_the_spelling(alias: Seq<char>, canonical: Seq<char>, i: int, base: Seq<char>)
    requires
        0 <= i < chars_lowercase(canonical).len(),
        diacritic_base(chars_lowercase(canonical)[i]) == Some(base),
        chars_lowercase(alias) == chars_lowercase(canonical).take(i) + base + chars_lowercase(canonical).skip(i + 1),
        is_alphanumeric(chars_lowercase(canonical)[i]),
        forall|j: int| 0 <= j < base.len() ==> is_alphanumeric(#[trigger] base[j]),
    ensures
        spelling_variant(alias, canonical),
{
    reveal_strlit("a");
    reveal_strlit("ae");
    reveal_strlit("c");
    reveal_strlit("d");
    reveal_strlit("e");
    reveal_strlit("g");
    reveal_strlit("i");
    reveal_strlit("k");
    reveal_strlit("l");
    reveal_strlit("n");
    reveal_strlit("o");
    reveal_strlit("oe");
    reveal_strlit("r");
    reveal_strlit("s");
    reveal_strlit("ss");
    reveal_strlit("t");
    reveal_strlit("th");
    reveal_strlit("u");
    reveal_strlit("y");
    reveal_strlit("z");
    let t = chars_lowercase(canonical);
    let c = t[i];
    lemma_strip_follows_diacritic_base(c);
    assert forall|j: int| 0 <= j < base.len() implies 'a' <= #[trigger] base[j] <= 'z' && is_alphanumeric(base[j]) by {
        reveal_strlit("àáâãäåāăą");
        reveal_strlit("çćč");
        reveal_strlit("ďđð");
        reveal_strlit("èéêëēėęě");
        reveal_strlit("ğģ");
        reveal_strlit("ìíîïīįı");
        reveal_strlit("ķ");
        reveal_strlit("łļľ");
        reveal_strlit("ñńņň");
        reveal_strlit("òóôõöøōő");
        reveal_strlit("ř");
        reveal_strlit("śşšș");
        reveal_strlit("ťț");
        reveal_strlit("ùúûüūůűų");
        reveal_strlit("ýÿ");
        reveal_strlit("źżž");
        reveal_strlit("ß");
        reveal_strlit("æ");
        reveal_strlit("œ");
        reveal_strlit("þ");
    }
    lemma_fold_plain(base);
    let pre = t.take(i);
    let post = t.skip(i + 1);
    assert(t =~= pre + seq![c] + post);
    lemma_fold_concat(pre + seq![c], post, false);
    lemma_fold_concat(pre, seq![c], false);
    lemma_fold_concat(pre + base, post, false);
    lemma_fold_concat(pre, base, false);
    assert(seq![c].drop_last() =~= Seq::<char>::empty());
    assert(seq![c].last() == c);
    assert(fold_seq(Seq::<char>::empty(), false) =~= Seq::<char>::empty());
    assert(fold_seq(seq![c], false) =~= fold_piece(c, false));
}

/// The Germanic transliterations of umlauts and rings: ä as "ae", ö and ø as
/// "oe", ü as "ue", å as "aa".
pub open spec fn germanic_spelling(c: char) -> Option<Seq<char>> {
    if c == 'ä' {
        Some("ae"@)
    } else if c == 'ö' || c == 'ø' {
        Some("oe"@)
    } else if c == 'ü' {
        Some("ue"@)
    } else if c == 'å' {
        Some("aa"@)
    } else {
        None
    }
}

/// Writing an umlaut or ring Germanic-style keeps the spelling: an alias
/// whose lowercase differs from the canonical's only there ("Muenchen" for
/// "München") is a spelling variant. (That the letters count as letters is
/// std's `is_alphanumeric`, given.)
pub proof fn lemma_germanic_spelling_keeps_the_spelling(alias: Seq<char>, canonical: Seq<char>, i: int, spelled: Seq<char>)
    requires
        0 <= i < chars_lowercase(canonical).len(),
        germanic_spelling(chars_lowercase(canonical)[i]) == Some(spelled),
        chars_lowercase(alias) == chars_lowercase(canonical).take(i) + spelled + chars_lowercase(canonical).skip(i + 1),
        is_alphanumeric(chars_lowercase(canonical)[i]),
        forall|j: int| 0 <= j < spelled.len() ==> is_alphanumeric(#[trigger] spelled[j]),
    ensures
        spelling_variant(alias, canonical),
{
    reveal_strlit("ae");
    reveal_strlit("oe");
    reveal_strlit("ue");
    reveal_strlit("aa");
    let t = chars_lowercase(canonical);
    let c = t[i];
    let pre = t.take(i);
    let post = t.skip(i + 1);
    assert(fold_seq(spelled, true) == spelled) by {
        assert(spelled.len() == 2);
        assert(spelled[0] == 'a' || spelled[0] == 'o' || spelled[0] == 'u');
        assert(spelled[1] == 'e' || spelled[1] == 'a');
        assert(is_alphanumeric(spelled[0]) && is_alphanumeric(spelled[1]));
        assert(fold_piece(spelled[0], true) == seq![spelled[0]]);
        assert(fold_piece(spelled[1], true) == seq![spelled[1]]);
        assert(fold_seq(Seq::<char>::empty(), true) =~= Seq::<char>::empty());
        let d = spelled.drop_last();
        assert(d.drop_last() =~= Seq::<char>::empty());
        assert(d.last() == spelled[0]);
        assert(fold_seq(d, true) == fold_seq(d.drop_last(), true) + fold_piece(d.last(), true));
        assert(spelled.last() == spelled[1]);
        assert(fold_seq(spelled.drop_last(), true) =~= seq![spelled[0]]);
        assert(fold_seq(Seq::<char>::empty(), true) =~= Seq::<char>::empty());
        assert(fold_seq(spelled, true) =~= spelled);
    }
    assert(t =~= pre + seq![c] + post);
    lemma_fold_concat(pre + seq![c], post, true);
    lemma_fold_concat(pre, seq![c], true);
    lemma_fold_concat(pre + spelled, post, true);
    lemma_fold_concat(pre, spelled, true);
    assert(seq![c].drop_last() =~= Seq::<char>::empty());
    assert(seq![c].last() == c);
    assert(fold_seq(Seq::<char>::empty(), true) =~= Seq::<char>::empty());
    assert(fold_seq(seq![c], true) =~= fold_piece(c, true));
}

/// Casing does not change the spelling: names with the same lowercase are
/// spelling variants of each other.
pub proof fn lemma_casing_keeps_the_spelling(alias: Seq<char>, canonical: Seq<char>)
    requires
        chars_lowercase(alias) == chars_lowercase(canonical),
    ensures
        spelling_variant(alias, canonical),
{
}

/// Punctuation and spacing do not change the spelling: an alias whose
/// lowercase has one more character that is not a letter or digit ("New-York"
/// for "New York" or "NewYork") is a spelling variant.
pub proof fn lemma_punctuation_keeps_the_spelling(alias: Seq<char>, canonical: Seq<char>, i: int, p: char)
    requires
        0 <= i <= chars_lowercase(canonical).len(),
        !is_alphanumeric(p),
        chars_lowercase(alias) == chars_lowercase(canonical).take(i) + seq![p] + chars_lowercase(canonical).skip(i),
    ensures
        spelling_variant(alias, canonical),
{
    let t = chars_lowercase(canonical);
    let pre = t.take(i);
    let post = t.skip(i);
    assert(t =~= pre + post);
    assert(seq![p].drop_last() =~= Seq::<char>::empty());
    assert(seq![p].last() == p);
    assert(fold_seq(Seq::<char>::empty(), false) =~= Seq::<char>::empty());
    assert(fold_seq(Seq::<char>::empty(), true) =~= Seq::<char>::empty());
    assert(fold_seq(seq![p], false) =~= Seq::<char>::empty());
    assert(fold_seq(seq![p], true) =~= Seq::<char>::empty());
    lemma_fold_concat(pre + seq![p], post, false);
    lemma_fold_concat(pre, seq![p], false);
    lemma_fold_concat(pre, post, false);
    assert(fold_seq(pre, false) + Seq::<char>::empty() =~= fold_seq(pre, false));
}

proof fn lemma_alias_entries_cover(aliases: Seq<Seq<char>>, canonical: Seq<char>, i: int)
    requires
        0 <= i < aliases.len(),
    ensures
        alias_entry(aliases[i], canonical) matches Some(e) ==> alias_entries(aliases, canonical).contains(e),
    decreases aliases.len(),
{
    let prev = aliases.drop_last();
    let rest = alias_entries(prev, canonical);
    if i < aliases.len() - 1 {
        assert(prev[i] == aliases[i]);
        lemma_alias_entries_cover(prev, canonical, i);
        if let Some(e) = alias_entry(aliases[i], canonical) {
            let k = choose|k: int| 0 <= k < rest.len() && rest[k] == e;
            if let Some(x) = alias_entry(aliases.last(), canonical) {
                assert(rest.push(x)[k] == e);
            }
        }
    } else {
        if let Some(e) = alias_entry(aliases[i], canonical) {
            assert(rest.push(e)[rest.len() as int] == e);
        }
    }
}

/// Every alias gets its entry: one spelled like the canonical maps, under its
/// lowercase, to the canonical; another that carries casing maps to itself.
pub proof fn lemma_every_alias_is_entered(record: RecordModel, i: int)
    requires
        0 <= i < record.aliases.len(),
    ensures
        spelling_variant(record.aliases[i], record.canonical) ==> lookup_entry_set(record).contains(
            (str_lowercase(record.aliases[i]), record.canonical),
        ),
        !spelling_variant(record.aliases[i], record.canonical) && record.aliases[i] != str_lowercase(record.aliases[i])
            ==> lookup_entry_set(record).contains((str_lowercase(record.aliases[i]), record.aliases[i])),
{
    lemma_alias_entries_cover(record.aliases, record.canonical, i);
    let head = seq![(str_lowercase(record.canonical), record.canonical)];
    let rest = alias_entries(record.aliases, record.canonical);
    if let Some(e) = alias_entry(record.aliases[i], record.canonical) {
        let k = choose|k: int| 0 <= k < rest.len() && rest[k] == e;
        assert((head + rest)[k + 1] == e);
        assert(raw_lookup_entries(record).contains(e));
    }
}

/// Being a spelling variant is symmetric: `a` spells `b` exactly when `b`
/// spells `a`.
pub proof fn lemma_spelling_variant_symmetric(a: Seq<char>, b: Seq<char>)
    ensures
        spelling_variant(a, b) == spelling_variant(b, a),
{
}

/// Every name is a spelling variant of itself.
pub proof fn lemma_spelling_variant_reflexive(a: Seq<char>)
    ensures
        spelling_variant(a, a),
{
}

proof fn lemma_alias_entries_origin(aliases: Seq<Seq<char>>, canonical: Seq<char>, e: (Seq<char>, Seq<char>))
    requires
        alias_entries(aliases, canonical).contains(e),
    ensures
        exists|i: int|
            0 <= i < aliases.len() && e.0 == str_lowercase(#[trigger] aliases[i]) && (e.1
                == canonical && spelling_variant(aliases[i], canonical) || e.1 == aliases[i]
                && !spelling_variant(aliases[i], canonical) && aliases[i] != str_lowercase(aliases[i])),
    decreases aliases.len(),
{
    let rest = alias_entries(aliases.drop_last(), canonical);
    if rest.contains(e) {
        lemma_alias_entries_origin(aliases.drop_last(), canonical, e);
        let i = choose|i: int|
            0 <= i < aliases.drop_last().len() && e.0 == str_lowercase(#[trigger] aliases.drop_last()[i])
                && (e.1 == canonical && spelling_variant(aliases.drop_last()[i], canonical) || e.1
                == aliases.drop_last()[i] && !spelling_variant(aliases.drop_last()[i], canonical)
                && aliases.drop_last()[i] != str_lowercase(aliases.drop_last()[i]));
        assert(aliases[i] == aliases.drop_last()[i]);
    } else {
        let k = choose|k: int| 0 <= k < alias_entries(aliases, canonical).len() && alias_entries(aliases, canonical)[k] == e;
        assert(aliases.len() > 0);
        assert(alias_entry(aliases.last(), canonical) is Some);
        assert(e == alias_entry(aliases.last(), canonical)->0);
        assert(aliases[aliases.len() - 1] == aliases.last());
    }
}

/// The entries of a record only recase: the canonical is always looked up
/// under its lowercase, every key is the lowercase of the canonical or of an
/// alias, and a value is either the canonical (for the canonical itself or a
/// spelling variant of it) or an alias looked up under its own lowercase.
pub proof fn lemma_lookup_entries_only_recase(record: RecordModel, e: (Seq<char>, Seq<char>))
    ensures
        lookup_entry_set(record).contains((str_lowercase(record.canonical), record.canonical)),
        lookup_entry_set(record).contains(e) ==> (e == (str_lowercase(record.canonical), record.canonical)
            || exists|i: int|
            0 <= i < record.aliases.len() && e.0 == str_lowercase(#[trigger] record.aliases[i])
                && (e.1 == record.canonical && spelling_variant(record.aliases[i], record.canonical)
                || e.1 == record.aliases[i] && !spelling_variant(record.aliases[i], record.canonical))),
{
    let raw = raw_lookup_entries(record);
    assert(raw[0] == (str_lowercase(record.canonical), record.canonical));
    if lookup_entry_set(record).contains(e) {
        let k = choose|k: int| 0 <= k < raw.len() && raw[k] == e;
        if k > 0 {
            let rest = alias_entries(record.aliases, record.canonical);
            assert(rest[k - 1] == e);
            lemma_alias_entries_origin(record.aliases, record.canonical, e);
        }
    }
}

/// An alias that is neither a spelling variant of the canonical nor carries
/// any casing of its own yields no entry.
pub proof fn lemma_caseless_different_alias_dropped(record: RecordModel, i: int)
    requires
        0 <= i < record.aliases.len(),
        !spelling_variant(record.aliases[i], record.canonical),
        record.aliases[i] == str_lowercase(record.aliases[i]),
    ensures
        alias_entry(record.aliases[i], record.canonical) is None,
{
}

} // verus!
