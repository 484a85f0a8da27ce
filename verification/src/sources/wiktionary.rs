//! Wiktionary extracts (kaikki.org wiktextract JSON lines, optionally
//! gzipped): word forms with part-of-speech ranking hints.

use vstd::prelude::*;
use vstd::string::*;
use crate::archive::{gzip_magic, is_gzip};
use crate::lines::{gzip_text_lines, next_line, open_gzip_lines, open_lines, remaining_lines, text_lines};
use crate::collections::{StringMap, StringSet, set_listing, views};
use crate::json::{
    json_encode, json_string, opt_text, push_bytes, str_or, text_or, JsonModel, JsonNode, copy_bytes_vec, encode_json, member_views, array_opt, as_object, decode_json, get, get_array, get_member, get_str, item_views, json_decode,
    str_opt,
};
use crate::lexicon::{RecordModel, Score, ScoreModel, SourceRecord, record_model, record_views};
use crate::sources::common::{str_items, str_items_exec};
use crate::text::{
    any_char, ascii_lowercase, char_is_uppercase, chars_contain, chars_of, encode_utf8, has_alphanumeric, is_alphanumeric, is_uppercase, str_eq,
    to_ascii_lowercase, trim, trim_str, utf8_encode,
};

verus! {

pub open spec fn kaikki_url(n: Seq<char>) -> Seq<char> {
    "https://kaikki.org/dictionary/downloads/"@ + n + "/"@ + n + "-extract.jsonl.gz"@
}

pub open spec fn english_url() -> Seq<char> {
    "https://kaikki.org/dictionary/English/words/kaikki.org-dictionary-English-words.jsonl.gz"@
}

/// Editions with a raw wiktextract feed.
pub open spec fn raw_edition(n: Seq<char>) -> bool {
    n == "cs"@ || n == "de"@ || n == "es"@ || n == "fr"@ || n == "it"@ || n == "nl"@ || n == "pl"@
        || n == "pt"@ || n == "tr"@
}

pub open spec fn unsupported_message(lang: Seq<char>) -> Seq<char> {
    "wiktionary built-in fetch does not support --lang "@ + lang
        + "; see docs/sources.md#wiktionary for supported editions and URL guidance"@
}

/// The download URL and version of an edition.
pub open spec fn spec_built_in_download(lang: Seq<char>) -> Result<(Seq<char>, Seq<char>), Seq<char>> {
    let n = ascii_lowercase(lang);
    if raw_edition(n) {
        Ok((kaikki_url(n), "kaikki-"@ + n))
    } else if n == "en"@ {
        Ok((english_url(), "kaikki-"@ + n))
    } else {
        Err(unsupported_message(lang))
    }
}

pub fn built_in_download(lang: &str) -> (r: Result<(String, String), String>)
    ensures
        match r {
            Ok((u, v)) => spec_built_in_download(lang@) == Ok::<(Seq<char>, Seq<char>), Seq<char>>((u@, v@)),
            Err(e) => spec_built_in_download(lang@) == Err::<(Seq<char>, Seq<char>), Seq<char>>(e@),
        },
{
    let normalized = to_ascii_lowercase(lang);
    let n = normalized.as_str();
    let raw = str_eq(n, "cs") || str_eq(n, "de") || str_eq(n, "es") || str_eq(n, "fr") || str_eq(n, "it")
        || str_eq(n, "nl") || str_eq(n, "pl") || str_eq(n, "pt") || str_eq(n, "tr");
    let url = if raw {
        // Raw wiktextract feeds for Latin-script editions are the most stable built-in option.
        let mut u = String::from_str("https://kaikki.org/dictionary/downloads/");
        u.append(n);
        u.append("/");
        u.append(n);
        u.append("-extract.jsonl.gz");
        u
    } else if str_eq(n, "en") {
        // English needs the language-specific words feed because the raw extract is
        // the full multilingual enwiktionary dump.
        String::from_str("https://kaikki.org/dictionary/English/words/kaikki.org-dictionary-English-words.jsonl.gz")
    } else {
        let mut m = String::from_str("wiktionary built-in fetch does not support --lang ");
        m.append(lang);
        m.append("; see docs/sources.md#wiktionary for supported editions and URL guidance");
        return Err(m);
    };
    let mut version = String::from_str("kaikki-");
    version.append(n);
    Ok((url, version))
}

/// A surface form is usable when, trimmed, it is not empty, has a letter or
/// digit, and holds no tab or line break.
pub open spec fn usable_surface(s: Seq<char>) -> bool {
    let t = trim(s);
    t.len() > 0 && any_char(t, |c: char| is_alphanumeric(c)) && !t.contains('\t') && !t.contains('\n')
}

pub fn is_usable_surface(value: &str) -> (r: bool)
    ensures
        r == usable_surface(value@),
{
    let trimmed = trim_str(value);
    let cs = chars_of(trimmed.as_str());
    cs.len() > 0 && has_alphanumeric(trimmed.as_str()) && !chars_contain(cs.as_slice(), '\t')
        && !chars_contain(cs.as_slice(), '\n')
}

pub open spec fn excluded_tag(t: Seq<char>) -> bool {
    t == "inflection-template"@ || t == "table-tags"@ || t == "class"@ || t == "romanization"@
}

pub open spec fn any_excluded(tags: Seq<Seq<char>>) -> bool {
    exists|i: int| 0 <= i < tags.len() && excluded_tag(#[trigger] tags[i])
}

/// Whether a form carries a tag that marks it as not a word form.
pub open spec fn has_excluded_tags(form: Seq<u8>) -> bool {
    match array_opt(get(form, "tags"@)) {
        Some(ts) => any_excluded(str_items(ts)),
        None => false,
    }
}

pub open spec fn form_surfaces(forms: Seq<Seq<u8>>) -> Set<Seq<char>>
    decreases forms.len(),
{
    if forms.len() == 0 {
        Set::empty()
    } else {
        let prev = form_surfaces(forms.drop_last());
        let f = forms.last();
        match str_opt(get(f, "form"@)) {
            Some(s) => if !has_excluded_tags(f) && usable_surface(s) {
                prev.insert(s)
            } else {
                prev
            },
            None => prev,
        }
    }
}

/// A form tagged "inflection-template", "table-tags", "class" or
/// "romanization" is no word form: adding it to an entry's forms adds no
/// surface.
pub proof fn lemma_tagged_form_adds_no_surface(forms: Seq<Seq<u8>>, form: Seq<u8>, tags: Seq<Seq<u8>>, k: int)
    requires
        array_opt(get(form, "tags"@)) == Some(tags),
        0 <= k < str_items(tags).len(),
        str_items(tags)[k] == "inflection-template"@ || str_items(tags)[k] == "table-tags"@
            || str_items(tags)[k] == "class"@ || str_items(tags)[k] == "romanization"@,
    ensures
        form_surfaces(forms.push(form)) == form_surfaces(forms),
{
    assert(excluded_tag(str_items(tags)[k]));
    assert(has_excluded_tags(form));
    assert(forms.push(form).drop_last() =~= forms);
}

/// Whether a form carries one of the tags "inflection-template",
/// "table-tags", "class" or "romanization".
pub open spec fn tagged_as_no_word(form: Seq<u8>) -> bool {
    match array_opt(get(form, "tags"@)) {
        Some(tags) => exists|k: int|
            0 <= k < str_items(tags).len() && (#[trigger] str_items(tags)[k] == "inflection-template"@
                || str_items(tags)[k] == "table-tags"@ || str_items(tags)[k] == "class"@
                || str_items(tags)[k] == "romanization"@),
        None => false,
    }
}

proof fn lemma_tagged_forms_give_no_surface(forms: Seq<Seq<u8>>)
    requires
        forall|i: int| 0 <= i < forms.len() ==> tagged_as_no_word(#[trigger] forms[i]),
    ensures
        form_surfaces(forms) == Set::<Seq<char>>::empty(),
    decreases forms.len(),
{
    if forms.len() > 0 {
        let prev = forms.drop_last();
        lemma_tagged_forms_give_no_surface(prev);
        let f = forms.last();
        assert(tagged_as_no_word(f));
        let tags = array_opt(get(f, "tags"@))->0;
        let k = choose|k: int|
            0 <= k < str_items(tags).len() && (#[trigger] str_items(tags)[k] == "inflection-template"@
                || str_items(tags)[k] == "table-tags"@ || str_items(tags)[k] == "class"@
                || str_items(tags)[k] == "romanization"@);
        lemma_tagged_form_adds_no_surface(prev, f, tags, k);
        assert(prev.push(f) =~= forms);
    }
}

/// An entry whose forms all carry such a tag has no surface but its word.
pub proof fn lemma_tagged_forms_leave_only_the_word(entry: Seq<u8>, forms: Seq<Seq<u8>>, s: Seq<char>)
    requires
        array_opt(get(entry, "forms"@)) == Some(forms),
        forall|i: int| 0 <= i < forms.len() ==> tagged_as_no_word(#[trigger] forms[i]),
        surface_set(entry).contains(s),
    ensures
        str_opt(get(entry, "word"@)) == Some(s),
{
    lemma_tagged_forms_give_no_surface(forms);
}

/// The surface forms of an entry: its word and its forms, when usable.
pub open spec fn surface_set(v: Seq<u8>) -> Set<Seq<char>> {
    if as_object(v) is None {
        Set::empty()
    } else {
        let word = match str_opt(get(v, "word"@)) {
            Some(w) => if usable_surface(w) {
                Set::empty().insert(w)
            } else {
                Set::empty()
            },
            None => Set::empty(),
        };
        word.union(match array_opt(get(v, "forms"@)) {
            Some(fs) => form_surfaces(fs),
            None => Set::empty(),
        })
    }
}

proof fn lemma_form_surfaces_cover(forms: Seq<Seq<u8>>, i: int, t: Seq<char>)
    requires
        0 <= i < forms.len(),
        str_opt(get(forms[i], "form"@)) == Some(t),
        usable_surface(t),
        !tagged_as_no_word(forms[i]),
    ensures
        form_surfaces(forms).contains(t),
    decreases forms.len(),
{
    if i < forms.len() - 1 {
        assert(forms.drop_last()[i] == forms[i]);
        lemma_form_surfaces_cover(forms.drop_last(), i, t);
    } else {
        let f = forms.last();
        if has_excluded_tags(f) {
            let tags = array_opt(get(f, "tags"@))->0;
            let k = choose|k: int| 0 <= k < str_items(tags).len() && excluded_tag(#[trigger] str_items(tags)[k]);
            assert(str_items(tags)[k] == "inflection-template"@ || str_items(tags)[k] == "table-tags"@
                || str_items(tags)[k] == "class"@ || str_items(tags)[k] == "romanization"@);
            assert(tagged_as_no_word(f));
        }
    }
}

proof fn lemma_form_surfaces_clean(forms: Seq<Seq<u8>>, t: Seq<char>)
    requires
        form_surfaces(forms).contains(t),
    ensures
        trim(t).len() > 0 && !trim(t).contains('\t') && !trim(t).contains('\n'),
    decreases forms.len(),
{
    if forms.len() > 0 && form_surfaces(forms.drop_last()).contains(t) {
        lemma_form_surfaces_clean(forms.drop_last(), t);
    }
}

/// A surface is never blank and holds no tab or line break (once trimmed).
pub proof fn lemma_surfaces_are_clean(entry: Seq<u8>, t: Seq<char>)
    requires
        surface_set(entry).contains(t),
    ensures
        trim(t).len() > 0 && !trim(t).contains('\t') && !trim(t).contains('\n'),
{
    if let Some(forms) = array_opt(get(entry, "forms"@)) {
        if form_surfaces(forms).contains(t) {
            lemma_form_surfaces_clean(forms, t);
        }
    }
}

/// An entry's usable word is one of its surfaces, and so is every usable
/// form that carries none of the non-word tags.
pub proof fn lemma_word_and_forms_are_surfaces(entry: Seq<u8>, t: Seq<char>)
    requires
        as_object(entry) is Some,
        usable_surface(t),
        str_opt(get(entry, "word"@)) == Some(t) || (array_opt(get(entry, "forms"@)) matches Some(forms) && exists|i: int|
            0 <= i < forms.len() && str_opt(get(#[trigger] forms[i], "form"@)) == Some(t) && !tagged_as_no_word(forms[i])),
    ensures
        surface_set(entry).contains(t),
{
    if let Some(forms) = array_opt(get(entry, "forms"@)) {
        if exists|i: int|
            0 <= i < forms.len() && str_opt(get(#[trigger] forms[i], "form"@)) == Some(t) && !tagged_as_no_word(forms[i]) {
            let i = choose|i: int|
                0 <= i < forms.len() && str_opt(get(#[trigger] forms[i], "form"@)) == Some(t) && !tagged_as_no_word(forms[i]);
            lemma_form_surfaces_cover(forms, i, t);
        }
    }
}

pub open spec fn pos_score(pos: Seq<char>) -> nat {
    if pos == "name"@ || pos == "proper noun"@ || pos == "proper-noun"@ {
        240
    } else if pos == "noun"@ {
        200
    } else if pos == "adj"@ || pos == "adjective"@ {
        160
    } else if pos == "verb"@ {
        150
    } else if pos == "adv"@ || pos == "adverb"@ {
        120
    } else {
        100
    }
}

/// Parts of speech rank names and proper nouns first, then nouns,
/// adjectives, verbs and adverbs; any other part of speech scores 1.0.
pub proof fn lemma_parts_of_speech_rank(other: Seq<char>)
    requires
        other != "name"@ && other != "proper noun"@ && other != "proper-noun"@ && other != "noun"@ && other != "adj"@
            && other != "adjective"@ && other != "verb"@ && other != "adv"@ && other != "adverb"@,
    ensures
        pos_score("name"@) == pos_score("proper noun"@) && pos_score("name"@) == pos_score("proper-noun"@),
        pos_score("name"@) > pos_score("noun"@),
        pos_score("noun"@) > pos_score("adj"@) && pos_score("adj"@) == pos_score("adjective"@),
        pos_score("adj"@) > pos_score("verb"@),
        pos_score("verb"@) > pos_score("adv"@) && pos_score("adv"@) == pos_score("adverb"@),
        pos_score("adv"@) > pos_score(other) && pos_score(other) == 100,
{
    reveal_strlit("name");
    reveal_strlit("proper noun");
    reveal_strlit("proper-noun");
    reveal_strlit("noun");
    reveal_strlit("adj");
    reveal_strlit("adjective");
    reveal_strlit("verb");
    reveal_strlit("adv");
    reveal_strlit("adverb");
    assert("noun"@[1] != "name"@[1]);
    assert("verb"@[0] != "name"@[0] && "verb"@[0] != "noun"@[0]);
    assert("adj"@[2] != "adv"@[2]);
    assert("adverb"@[2] != "adjective"@[2]);
}

pub open spec fn or_empty(o: Option<Seq<char>>) -> Seq<char> {
    match o {
        Some(s) => s,
        None => Seq::empty(),
    }
}

/// An entry's base score in hundredths: by part of speech, plus 0.2 for a
/// capitalized word.
pub open spec fn entry_score(v: Seq<u8>) -> nat {
    let pos = ascii_lowercase(or_empty(str_opt(get(v, "pos"@))));
    let word = or_empty(str_opt(get(v, "word"@)));
    pos_score(pos) + if word.len() > 0 && is_uppercase(word[0]) {
        20nat
    } else {
        0nat
    }
}

pub open spec fn max_nat(a: nat, b: nat) -> nat {
    if a >= b {
        a
    } else {
        b
    }
}

/// Records each surface with its score (the first surface gets 0.15 more),
/// keeping the higher score for a surface seen before.
pub open spec fn add_scores(m: Map<Seq<char>, nat>, surfaces: Seq<Seq<char>>, base: nat) -> Map<Seq<char>, nat>
    decreases surfaces.len(),
{
    if surfaces.len() == 0 {
        m
    } else {
        let prev = add_scores(m, surfaces.drop_last(), base);
        let k = surfaces.last();
        let score = if surfaces.len() == 1 {
            base + 15
        } else {
            base
        };
        prev.insert(
            k,
            if prev.dom().contains(k) {
                max_nat(prev[k], score)
            } else {
                score
            },
        )
    }
}

/// Recording an entry's surfaces keeps every score at least as high as it
/// was, and scores each surface at least the entry's base score (the first
/// at least 0.15 above it).
pub proof fn lemma_scores_keep_the_best(m: Map<Seq<char>, nat>, surfaces: Seq<Seq<char>>, base: nat)
    ensures
        forall|k: Seq<char>| #[trigger] m.dom().contains(k) ==> add_scores(m, surfaces, base).dom().contains(k)
            && add_scores(m, surfaces, base)[k] >= m[k],
        forall|i: int| 0 <= i < surfaces.len() ==> add_scores(m, surfaces, base).dom().contains(#[trigger] surfaces[i])
            && add_scores(m, surfaces, base)[surfaces[i]] >= base + (if i == 0 {
            15nat
        } else {
            0nat
        }),
    decreases surfaces.len(),
{
    if surfaces.len() > 0 {
        let prev = surfaces.drop_last();
        lemma_scores_keep_the_best(m, prev, base);
        assert forall|i: int| 0 <= i < surfaces.len() implies add_scores(m, surfaces, base).dom().contains(
            #[trigger] surfaces[i],
        ) && add_scores(m, surfaces, base)[surfaces[i]] >= base + (if i == 0 {
            15nat
        } else {
            0nat
        }) by {
            if i < surfaces.len() - 1 {
                assert(prev[i] == surfaces[i]);
            }
        }
    }
}

/// Whether an entry's `lang_code` names the target edition, ignoring ASCII case.
pub open spec fn lang_matches(v: Seq<u8>, target: Seq<char>) -> bool {
    match str_opt(get(v, "lang_code"@)) {
        Some(c) => ascii_lowercase(c) == ascii_lowercase(target),
        None => false,
    }
}

pub struct WiktState {
    pub scores: Map<Seq<char>, nat>,
    pub done: bool,
}

/// The state after one more line of the payload.
pub open spec fn wikt_line(
    st: Result<WiktState, Seq<char>>,
    line: Seq<char>,
    target: Option<Seq<char>>,
    limit: Option<nat>,
) -> Result<WiktState, Seq<char>> {
    match st {
        Err(e) => Err(e),
        Ok(s) => if s.done {
            Ok(s)
        } else {
            let t = trim(line);
            if t.len() == 0 {
                Ok(s)
            } else {
                let v = utf8_encode(t);
                match json_decode(v) {
                    Err(e) => Err(e),
                    Ok(_) => if target is Some && !lang_matches(v, target->0) {
                        Ok(s)
                    } else {
                        let surfaces = set_listing(surface_set(v));
                        if surfaces.len() == 0 {
                            Ok(s)
                        } else {
                            let m = add_scores(s.scores, surfaces, entry_score(v));
                            Ok(WiktState { scores: m, done: limit is Some && m.dom().len() >= limit->0 })
                        }
                    },
                }
            }
        },
    }
}

/// With a target edition, an entry whose `lang_code` is another language
/// (ASCII case aside), or that has none, leaves the state as it was; an entry
/// in the target language counts as if there were no target.
pub proof fn lemma_language_filter(st: WiktState, line: Seq<char>, target: Seq<char>, limit: Option<nat>)
    ensures
        ({
            let v = utf8_encode(trim(line));
            json_decode(v) is Ok && match str_opt(get(v, "lang_code"@)) {
                Some(c) => ascii_lowercase(c) != ascii_lowercase(target),
                None => true,
            }
        }) ==> wikt_line(Ok(st), line, Some(target), limit) == Ok::<WiktState, Seq<char>>(st),
        (str_opt(get(utf8_encode(trim(line)), "lang_code"@)) matches Some(c) && ascii_lowercase(c)
            == ascii_lowercase(target)) ==> wikt_line(Ok(st), line, Some(target), limit) == wikt_line(
            Ok(st),
            line,
            None,
            limit,
        ),
{
}

pub open spec fn wikt_lines(lines: Seq<Seq<char>>, target: Option<Seq<char>>, limit: Option<nat>) -> Result<WiktState, Seq<char>>
    decreases lines.len(),
{
    if lines.len() == 0 {
        Ok(WiktState { scores: Map::empty(), done: false })
    } else {
        wikt_line(wikt_lines(lines.drop_last(), target, limit), lines.last(), target, limit)
    }
}

/// The lines of a payload, read through a gzip decoder where it starts with
/// the gzip magic bytes, and the read error that ends them.
pub open spec fn wikt_source(bytes: Seq<u8>) -> (Seq<Seq<char>>, Option<Seq<char>>) {
    if gzip_magic(bytes) {
        gzip_text_lines(bytes)
    } else {
        text_lines(bytes)
    }
}

/// The state after reading a source: its lines folded in order; reading stops
/// once the limit is reached, so a read error after that point goes unseen.
pub open spec fn wikt_run(
    src: (Seq<Seq<char>>, Option<Seq<char>>),
    target: Option<Seq<char>>,
    limit: Option<nat>,
) -> Result<WiktState, Seq<char>> {
    match wikt_lines(src.0, target, limit) {
        Err(e) => Err(e),
        Ok(s) => if !s.done && src.1 is Some {
            Err(src.1->0)
        } else {
            Ok(s)
        },
    }
}

pub open spec fn no_records_message() -> Seq<char> {
    "Wiktionary payload did not yield any lexical records"@
}

pub open spec fn target_of(lang: Option<Seq<char>>) -> Option<Seq<char>> {
    match lang {
        Some(l) => Some(ascii_lowercase(l)),
        None => None,
    }
}

pub open spec fn scored_record(k: Seq<char>, m: Map<Seq<char>, nat>) -> RecordModel {
    record_model(k, Seq::empty(), ScoreModel::Hundredths(m[k]))
}

/// The records of a wiktextract payload: every surface form once, with its
/// best score, in form order; at most about `limit` entries are read.
pub open spec fn wikt_parse(bytes: Seq<u8>, lang: Option<Seq<char>>, limit: Option<nat>) -> Result<Seq<RecordModel>, Seq<char>> {
    match wikt_run(wikt_source(bytes), target_of(lang), limit) {
        Err(e) => Err(e),
        Ok(s) => if s.scores.dom().len() == 0 {
            Err(no_records_message())
        } else {
            Ok(set_listing(s.scores.dom()).map_values(|k: Seq<char>| scored_record(k, s.scores)))
        },
    }
}

fn has_excluded_tags_exec(form: &Vec<u8>) -> (r: bool)
    ensures
        r == has_excluded_tags(form@),
{
    let tags = match get_member(form.as_slice(), "tags") {
        Some(b) => get_array(b.as_slice()),
        None => None,
    };
    match tags {
        Some(ts) => {
            let ghost tv = item_views(ts@);
            assert(array_opt(get(form@, "tags"@)) == Some(tv));
            let texts = str_items_exec(&ts);
            for i in 0..texts.len()
                invariant
                    views(texts@) == str_items(tv),
                    array_opt(get(form@, "tags"@)) == Some(tv),
                    forall|k: int| 0 <= k < i ==> !excluded_tag(#[trigger] views(texts@)[k]),
            {
                let t = texts[i].as_str();
                if str_eq(t, "inflection-template") || str_eq(t, "table-tags") || str_eq(t, "class")
                    || str_eq(t, "romanization") {
                    assert(excluded_tag(views(texts@)[i as int]));
                    assert(excluded_tag(str_items(tv)[i as int]));
                    assert(0 <= i < str_items(tv).len());
                    assert(any_excluded(str_items(tv)));
                    return true;
                }
            }
            false
        },
        None => false,
    }
}

fn surface_set_exec(v: &Vec<u8>) -> (r: StringSet)
    ensures
        r.set() == surface_set(v@),
{
    let mut out = StringSet::new();
    assert(out.set() =~= Set::<Seq<char>>::empty());
    if crate::json::get_object(v.as_slice()).is_none() {
        return out;
    }
    match get_member(v.as_slice(), "word") {
        Some(b) => match get_str(b.as_slice()) {
            Some(w) => {
                if is_usable_surface(w.as_str()) {
                    out.insert(w);
                }
            },
            None => {},
        },
        None => {},
    }
    let ghost word = out.set();
    let forms = match get_member(v.as_slice(), "forms") {
        Some(b) => get_array(b.as_slice()),
        None => None,
    };
    match forms {
        Some(fs) => {
            let ghost fv = item_views(fs@);
            assert(word.union(form_surfaces(fv.take(0))) =~= word);
            for i in 0..fs.len()
                invariant
                    fv == item_views(fs@),
                    out.set() == word.union(form_surfaces(fv.take(i as int))),
            {
                proof {
                    assert(fv.take(i + 1).drop_last() =~= fv.take(i as int));
                    assert(fv.take(i + 1).last() == fv[i as int]);
                }
                let surface = match get_member(fs[i].as_slice(), "form") {
                    Some(b) => get_str(b.as_slice()),
                    None => None,
                };
                match surface {
                    Some(s) => {
                        if !has_excluded_tags_exec(&fs[i]) && is_usable_surface(s.as_str()) {
                            out.insert(s);
                        }
                    },
                    None => {},
                }
                assert(out.set() =~= word.union(form_surfaces(fv.take(i + 1))));
            }
            assert(fv.take(fs.len() as int) =~= fv);
        },
        None => {
            assert(word.union(Set::<Seq<char>>::empty()) =~= word);
        },
    }
    out
}

fn pos_score_exec(pos: &str) -> (r: u32)
    ensures
        r == pos_score(pos@),
{
    if str_eq(pos, "name") || str_eq(pos, "proper noun") || str_eq(pos, "proper-noun") {
        240
    } else if str_eq(pos, "noun") {
        200
    } else if str_eq(pos, "adj") || str_eq(pos, "adjective") {
        160
    } else if str_eq(pos, "verb") {
        150
    } else if str_eq(pos, "adv") || str_eq(pos, "adverb") {
        120
    } else {
        100
    }
}

fn entry_score_exec(v: &Vec<u8>) -> (r: u32)
    ensures
        r == entry_score(v@),
        r <= 260,
{
    let pos = match get_member(v.as_slice(), "pos") {
        Some(b) => get_str(b.as_slice()),
        None => None,
    };
    let pos = match pos {
        Some(p) => to_ascii_lowercase(p.as_str()),
        None => {
            let e = String::new();
            assert(ascii_lowercase(Seq::<char>::empty()) =~= Seq::<char>::empty());
            e
        },
    };
    let word = match get_member(v.as_slice(), "word") {
        Some(b) => get_str(b.as_slice()),
        None => None,
    };
    let word = match word {
        Some(w) => w,
        None => String::new(),
    };
    let wc = chars_of(word.as_str());
    let base = pos_score_exec(pos.as_str());
    if wc.len() > 0 && char_is_uppercase(wc[0]) {
        base + 20
    } else {
        base
    }
}

fn lang_matches_exec(v: &Vec<u8>, target: &str) -> (r: bool)
    ensures
        r == lang_matches(v@, target@),
{
    let code = match get_member(v.as_slice(), "lang_code") {
        Some(b) => get_str(b.as_slice()),
        None => None,
    };
    match code {
        Some(c) => {
            let a = to_ascii_lowercase(c.as_str());
            let b = to_ascii_lowercase(target);
            str_eq(a.as_str(), b.as_str())
        },
        None => false,
    }
}

fn add_scores_exec(scores: &mut StringMap<u32>, surfaces: Vec<String>, base: u32)
    requires
        base <= 260,
        forall|k: Seq<char>| #[trigger] old(scores)@.dom().contains(k) ==> old(scores)@[k] <= 275,
    ensures
        final(scores)@.map_values(|n: u32| n as nat) == add_scores(
            old(scores)@.map_values(|n: u32| n as nat),
            views(surfaces@),
            base as nat,
        ),
        forall|k: Seq<char>| #[trigger] final(scores)@.dom().contains(k) ==> final(scores)@[k] <= 275,
{
    let ghost sv = views(surfaces@);
    let ghost start = old(scores)@.map_values(|n: u32| n as nat);
    assert(scores@.map_values(|n: u32| n as nat) =~= add_scores(start, sv.take(0), base as nat));
    for i in 0..surfaces.len()
        invariant
            sv == views(surfaces@),
            base <= 260,
            scores@.map_values(|n: u32| n as nat) == add_scores(start, sv.take(i as int), base as nat),
            forall|k: Seq<char>| #[trigger] scores@.dom().contains(k) ==> scores@[k] <= 275,
    {
        proof {
            assert(sv.take(i + 1).drop_last() =~= sv.take(i as int));
            assert(sv.take(i + 1).last() == sv[i as int]);
        }
        let score = if i == 0 {
            base + 15
        } else {
            base
        };
        let key = surfaces[i].clone();
        let ghost before = scores@;
        let next = match scores.get(key.as_str()) {
            Some(existing) => if *existing >= score {
                *existing
            } else {
                score
            },
            None => score,
        };
        scores.insert(key, next);
        assert(scores@.map_values(|n: u32| n as nat) =~= add_scores(start, sv.take(i + 1), base as nat));
    }
    assert(sv.take(surfaces.len() as int) =~= sv);
}

proof fn lemma_wikt_error_sticks(ls: Seq<Seq<char>>, t: Option<Seq<char>>, l: Option<nat>, i: int, e: Seq<char>)
    requires
        0 <= i <= ls.len(),
        wikt_lines(ls.take(i), t, l) == Err::<WiktState, Seq<char>>(e),
    ensures
        wikt_lines(ls, t, l) == Err::<WiktState, Seq<char>>(e),
    decreases ls.len() - i,
{
    if i < ls.len() {
        assert(ls.take(i + 1).drop_last() =~= ls.take(i));
        lemma_wikt_error_sticks(ls, t, l, i + 1, e);
    } else {
        assert(ls.take(i) =~= ls);
    }
}

proof fn lemma_wikt_done_sticks(ls: Seq<Seq<char>>, t: Option<Seq<char>>, l: Option<nat>, i: int, s: WiktState)
    requires
        0 <= i <= ls.len(),
        wikt_lines(ls.take(i), t, l) == Ok::<WiktState, Seq<char>>(s),
        s.done,
    ensures
        wikt_lines(ls, t, l) == Ok::<WiktState, Seq<char>>(s),
    decreases ls.len() - i,
{
    if i < ls.len() {
        assert(ls.take(i + 1).drop_last() =~= ls.take(i));
        lemma_wikt_done_sticks(ls, t, l, i + 1, s);
    } else {
        assert(ls.take(i) =~= ls);
    }
}

pub open spec fn opt_str(o: Option<&str>) -> Option<Seq<char>> {
    match o {
        Some(s) => Some(s@),
        None => None,
    }
}

pub open spec fn opt_nat(o: Option<usize>) -> Option<nat> {
    match o {
        Some(n) => Some(n as nat),
        None => None,
    }
}

fn parse_impl(bytes: &[u8], lang: Option<&str>, limit: Option<usize>) -> (r: Result<Vec<SourceRecord>, String>)
    ensures
        match r {
            Ok(records) => wikt_parse(bytes@, opt_str(lang), opt_nat(limit)) == Ok::<Seq<RecordModel>, Seq<char>>(record_views(records@)),
            Err(e) => wikt_parse(bytes@, opt_str(lang), opt_nat(limit)) == Err::<Seq<RecordModel>, Seq<char>>(e@),
        },        r matches Ok(records) ==> forall|i: int| 0 <= i < records@.len() ==> (#[trigger] records@[i])@.score is Hundredths,
{
    let mut reader = if is_gzip(bytes) {
        open_gzip_lines(bytes)
    } else {
        open_lines(bytes)
    };
    let ghost src = wikt_source(bytes@);
    let ghost lv = src.0;
    let target: Option<String> = match lang {
        Some(l) => Some(to_ascii_lowercase(l)),
        None => None,
    };
    let ghost t = target_of(opt_str(lang));
    let ghost lim = opt_nat(limit);
    assert(match target {
        Some(x) => t == Some(x@),
        None => t is None,
    });
    let mut scores: StringMap<u32> = StringMap::new();
    let mut done = false;
    let mut finished = false;
    let ghost mut i: int = 0;
    assert(scores@.map_values(|n: u32| n as nat) =~= Map::<Seq<char>, nat>::empty());
    assert(lv.take(0) =~= Seq::<Seq<char>>::empty());
    assert(lv.skip(0) =~= lv);
    while !finished && !done
        invariant
            src == wikt_source(bytes@),
            lv == src.0,
            0 <= i <= lv.len(),
            !finished ==> remaining_lines(reader) == (lv.skip(i), src.1),
            finished ==> i == lv.len() && src.1 is None,
            match target {
                Some(x) => t == Some(x@),
                None => t is None,
            },
            wikt_lines(lv.take(i), t, lim) == Ok::<WiktState, Seq<char>>(WiktState {
                scores: scores@.map_values(|n: u32| n as nat),
                done,
            }),
            forall|k: Seq<char>| #[trigger] scores@.dom().contains(k) ==> scores@[k] <= 275,
            lim == opt_nat(limit),
            t == target_of(opt_str(lang)),
        decreases lv.len() - i + if finished { 0int } else { 1int },
    {
        let line = match next_line(&mut reader) {
            Ok(x) => x,
            Err(e) => {
                assert(lv.take(i) =~= lv);
                return Err(e);
            },
        };
        if line.as_str().is_empty() {
            finished = true;
            continue;
        }
        proof {
            assert(lv.skip(i)[0] == lv[i]);
            assert(lv.skip(i).drop_first() =~= lv.skip(i + 1));
            assert(lv.take(i + 1).drop_last() =~= lv.take(i));
            assert(lv.take(i + 1).last() == line@);
        }
        let ghost st = WiktState { scores: scores@.map_values(|n: u32| n as nat), done };
        let trimmed = trim_str(line.as_str());
        if chars_of(trimmed.as_str()).len() > 0 {
            let v = encode_utf8(trimmed.as_str());
            match decode_json(v.as_slice()) {
                Ok(_) => {},
                Err(e) => {
                    proof {
                        assert(wikt_line(Ok(st), line@, t, lim) == Err::<WiktState, Seq<char>>(e@));
                        lemma_wikt_error_sticks(lv, t, lim, i + 1, e@);
                    }
                    return Err(e);
                },
            }
            let skip = match &target {
                Some(x) => !lang_matches_exec(&v, x.as_str()),
                None => false,
            };
            assert(skip == (t is Some && !lang_matches(v@, t->0)));
            if !skip {
                let surfaces = surface_set_exec(&v);
                let listed = surfaces.into_listing();
                if listed.len() > 0 {
                    let base = entry_score_exec(&v);
                    add_scores_exec(&mut scores, listed, base);
                    let n = scores.len();
                    proof {
                        assert(scores@.map_values(|n: u32| n as nat).dom() =~= scores@.dom());
                    }
                    done = match limit {
                        Some(l) => n >= l,
                        None => false,
                    };
                } else {
                    assert(views(listed@).len() == 0);
                }
            }
        }
        assert(wikt_line(Ok(st), line@, t, lim) == Ok::<WiktState, Seq<char>>(WiktState {
            scores: scores@.map_values(|n: u32| n as nat),
            done,
        }));
        proof {
            i = i + 1;
        }
    }
    proof {
        if done {
            lemma_wikt_done_sticks(lv, t, lim, i, WiktState { scores: scores@.map_values(|n: u32| n as nat), done });
        } else {
            assert(lv.take(i) =~= lv);
        }
    }
    let ghost fm = scores@.map_values(|n: u32| n as nat);
    if scores.len() == 0 {
        assert(fm.dom() =~= scores@.dom());
        return Err(String::from_str("Wiktionary payload did not yield any lexical records"));
    }
    let ghost keys = scores.keys();
    let ghost model = scores@;
    let entries = scores.into_entries();
    let mut records: Vec<SourceRecord> = Vec::new();
    proof {
        assert(fm.dom() =~= model.dom());
        crate::collections::lemma_set_listing(keys, fm.dom());
    }
    for k in 0..entries.len()
        invariant
            crate::collections::entry_keys(entries@) == keys,
            keys == set_listing(fm.dom()),
            forall|q: int| 0 <= q < entries@.len() ==> model[#[trigger] entries@[q].0@] == entries@[q].1,
            keys.to_set() == model.dom(),
            fm == model.map_values(|n: u32| n as nat),
            record_views(records@) == keys.take(k as int).map_values(|c: Seq<char>| scored_record(c, fm)),
            forall|q: int| 0 <= q < records@.len() ==> (#[trigger] records@[q])@.score is Hundredths,
    {
        let rec = SourceRecord {
            canonical: entries[k].0.clone(),
            aliases: Vec::new(),
            score: Score::Hundredths(entries[k].1),
        };
        let ghost rv = record_views(records@);
        records.push(rec);
        proof {
            assert(keys[k as int] == entries@[k as int].0@);
            assert(keys.to_set().contains(keys[k as int]));
            assert(fm.dom().contains(keys[k as int]));
            assert(views(rec.aliases@) =~= Seq::<Seq<char>>::empty());
            assert(rec@ == scored_record(keys[k as int], fm));
            assert(record_views(records@) =~= rv.push(rec@));
            assert(keys.take(k + 1) =~= keys.take(k as int).push(keys[k as int]));
        }
    }
    proof {
        assert(keys.take(entries@.len() as int) =~= keys);
    }
    Ok(records)
}

/// Recording scores only adds surfaces, and keeps a finite table finite.
proof fn lemma_add_scores_grows(m: Map<Seq<char>, nat>, surfaces: Seq<Seq<char>>, base: nat)
    ensures
        m.dom().subset_of(add_scores(m, surfaces, base).dom()),
        m.dom().finite() ==> add_scores(m, surfaces, base).dom().finite(),
    decreases surfaces.len(),
{
    if surfaces.len() > 0 {
        lemma_add_scores_grows(m, surfaces.drop_last(), base);
    }
}

/// One more line never shrinks a finite score table, and keeps it finite.
proof fn lemma_line_grows(s: WiktState, line: Seq<char>, t: Option<Seq<char>>, l: Option<nat>)
    requires
        s.scores.dom().finite(),
    ensures
        wikt_line(Ok(s), line, t, l) matches Ok(n) ==> n.scores.dom().finite() && s.scores.dom().len()
            <= n.scores.dom().len(),
{
    let v = utf8_encode(trim(line));
    let surfaces = set_listing(surface_set(v));
    lemma_add_scores_grows(s.scores, surfaces, entry_score(v));
    let m = add_scores(s.scores, surfaces, entry_score(v));
    vstd::set_lib::lemma_len_subset(s.scores.dom(), m.dom());
}

/// Folding lines with a limit either stops, holding at least `limit`
/// surface forms (and then the fold without a limit, where it succeeds, finds
/// some too), or gives what folding them without a limit gives; without a
/// limit the fold never stops. Score tables stay finite.
proof fn lemma_limited_lines(ls: Seq<Seq<char>>, t: Option<Seq<char>>, limit: nat)
    requires
        limit > 0,
    ensures
        wikt_lines(ls, t, None) matches Ok(s) ==> !s.done && s.scores.dom().finite(),
        (wikt_lines(ls, t, Some(limit)) matches Ok(s) && s.done && s.scores.dom().len() >= limit
            && (wikt_lines(ls, t, None) matches Ok(f) ==> f.scores.dom().len() > 0))
            || wikt_lines(ls, t, Some(limit)) == wikt_lines(ls, t, None),
    decreases ls.len(),
{
    if ls.len() > 0 {
        let prev = ls.drop_last();
        lemma_limited_lines(prev, t, limit);
        match wikt_lines(prev, t, None) {
            Ok(f) => {
                lemma_line_grows(f, ls.last(), t, None);
            },
            Err(_) => {},
        }
    }
}

/// Reading a payload with a limit (as validation does) agrees with reading
/// all of it, except that it may stop early with at least `limit` forms:
/// where the limited reading fails, the full parse fails the same way, so a
/// payload that parses is accepted; and a payload whose full reading finds
/// no surface form is refused for want of records.
pub proof fn lemma_limited_parse_agrees(bytes: Seq<u8>, lang: Option<Seq<char>>, limit: nat)
    requires
        limit > 0,
    ensures
        wikt_parse(bytes, lang, Some(limit)) is Err ==> wikt_parse(bytes, lang, Some(limit)) == wikt_parse(bytes, lang, None),
        wikt_parse(bytes, lang, None) is Ok ==> wikt_parse(bytes, lang, Some(limit)) is Ok,
        (wikt_run(wikt_source(bytes), target_of(lang), None) matches Ok(s) && s.scores.dom().len() == 0)
            ==> wikt_parse(bytes, lang, Some(limit)) == Err::<Seq<RecordModel>, Seq<char>>(no_records_message()),
{
    let src = wikt_source(bytes);
    lemma_limited_lines(src.0, target_of(lang), limit);
}

/// Accepts a payload whose first entries (about 32 forms) yield at least one
/// lexical record.
pub fn validate(bytes: &[u8]) -> (r: Result<(), String>)
    ensures
        r is Ok <==> wikt_parse(bytes@, None, Some(32)) is Ok,
        r matches Err(e) ==> wikt_parse(bytes@, None, Some(32)) == Err::<Seq<RecordModel>, Seq<char>>(e@),
{
    match parse_impl(bytes, None, Some(32)) {
        Ok(_) => Ok(()),
        Err(e) => Err(e),
    }
}

pub fn parse(bytes: &[u8], lang: Option<&str>) -> (r: Result<Vec<SourceRecord>, String>)
    ensures
        match r {
            Ok(records) => wikt_parse(bytes@, opt_str(lang), None) == Ok::<Seq<RecordModel>, Seq<char>>(record_views(records@)),
            Err(e) => wikt_parse(bytes@, opt_str(lang), None) == Err::<Seq<RecordModel>, Seq<char>>(e@),
        },        r matches Ok(records) ==> forall|i: int| 0 <= i < records@.len() ==> (#[trigger] records@[i])@.score is Hundredths,
{
    parse_impl(bytes, lang, None)
}


/// The compact JSON (`serde_json::to_string`) of a text.
pub open spec fn text_json(s: Seq<char>) -> Seq<u8> {
    json_encode(JsonModel::Text(s))
}

/// The compact JSON of an array of texts.
pub open spec fn texts_json(texts: Seq<Seq<char>>) -> Seq<u8> {
    json_encode(JsonModel::Array(texts.map_values(|t: Seq<char>| text_json(t))))
}

/// The compact JSON of a form with its tags.
pub open spec fn form_json(form: Seq<char>, tags: Seq<Seq<char>>) -> Seq<u8> {
    json_encode(JsonModel::Object(seq![("form"@, text_json(form)), ("tags"@, texts_json(tags))]))
}

/// The compact JSON of an entry: its forms, edition code (JSON), part of
/// speech and word.
pub open spec fn entry_json(word: Seq<char>, pos: Seq<char>, code: Seq<u8>, forms: Seq<Seq<u8>>) -> Seq<u8> {
    json_encode(
        JsonModel::Object(
            seq![
                ("forms"@, json_encode(JsonModel::Array(forms))),
                ("lang_code"@, code),
                ("pos"@, text_json(pos)),
                ("word"@, text_json(word)),
            ],
        ),
    )
}

/// Three entries, each written compactly by serde_json on a line of its own:
/// two in the edition whose code is written as `code`, one Latin entry.
pub open spec fn sample_bytes(code: Seq<u8>) -> Seq<u8> {
    entry_json(
        "Hallo"@,
        "noun"@,
        code,
        seq![form_json("Hallos"@, seq!["plural"@]), form_json("de-ndecl"@, seq!["inflection-template"@])],
    ) + seq![10u8] + entry_json(
        "laufen"@,
        "verb"@,
        code,
        seq![form_json("läuft"@, seq!["third-person"@, "singular"@, "present"@]), form_json("lief"@, seq!["past"@])],
    ) + seq![10u8] + entry_json("ordo"@, "noun"@, text_json("la"@), seq![form_json("ordines"@, seq!["plural"@])])
}

fn texts_bytes(texts: &[&str]) -> (r: Vec<u8>)
    ensures
        r@ == texts_json(texts@.map_values(|t: &str| t@)),
{
    let mut items: Vec<Vec<u8>> = Vec::new();
    for i in 0..texts.len()
        invariant
            item_views(items@) == texts@.take(i as int).map_values(|t: &str| text_json(t@)),
    {
        let ghost before = item_views(items@);
        items.push(json_string(texts[i]));
        assert(texts@.take(i + 1) =~= texts@.take(i as int).push(texts@[i as int]));
        assert(item_views(items@) =~= before.push(text_json(texts@[i as int]@)));
        assert(item_views(items@) =~= texts@.take(i + 1).map_values(|t: &str| text_json(t@)));
    }
    let r = encode_json(&JsonNode::Array(items));
    assert(texts@.take(texts@.len() as int) =~= texts@);
    assert(texts@.map_values(|t: &str| t@).map_values(|t: Seq<char>| text_json(t)) =~= texts@.map_values(
        |t: &str| text_json(t@),
    ));
    r
}

fn form_bytes(form: &str, tags: &[&str]) -> (r: Vec<u8>)
    ensures
        r@ == form_json(form@, tags@.map_values(|t: &str| t@)),
{
    let members = vec![(String::from_str("form"), json_string(form)), (String::from_str("tags"), texts_bytes(tags))];
    let r = encode_json(&JsonNode::Object(members));
    assert(member_views(members@) =~= seq![("form"@, text_json(form@)), ("tags"@, texts_json(tags@.map_values(|t: &str| t@)))]);
    r
}

fn entry_bytes(word: &str, pos: &str, code: &[u8], forms: Vec<Vec<u8>>) -> (r: Vec<u8>)
    ensures
        r@ == entry_json(word@, pos@, code@, item_views(forms@)),
{
    let ghost fv = item_views(forms@);
    let members = vec![
        (String::from_str("forms"), encode_json(&JsonNode::Array(forms))),
        (String::from_str("lang_code"), copy_bytes_vec(code)),
        (String::from_str("pos"), json_string(pos)),
        (String::from_str("word"), json_string(word)),
    ];
    let r = encode_json(&JsonNode::Object(members));
    assert(member_views(members@) =~= seq![
        ("forms"@, json_encode(JsonModel::Array(fv))),
        ("lang_code"@, code@),
        ("pos"@, text_json(pos@)),
        ("word"@, text_json(word@)),
    ]);
    r
}

/// A small wiktextract payload for the edition `locale` (German by default).
pub fn sample(locale: Option<&str>) -> (r: Vec<u8>)
    ensures
        r@ == sample_bytes(json_encode(JsonModel::Text(text_or(opt_text(locale), "de"@)))),
{
    let code = json_string(str_or(locale, "de"));
    let plural: [&str; 1] = ["plural"];
    let template: [&str; 1] = ["inflection-template"];
    let present: [&str; 3] = ["third-person", "singular", "present"];
    let past: [&str; 1] = ["past"];
    proof {
        assert(plural@.map_values(|t: &str| t@) =~= seq!["plural"@]);
        assert(template@.map_values(|t: &str| t@) =~= seq!["inflection-template"@]);
        assert(present@.map_values(|t: &str| t@) =~= seq!["third-person"@, "singular"@, "present"@]);
        assert(past@.map_values(|t: &str| t@) =~= seq!["past"@]);
    }
    let hallos = form_bytes("Hallos", &plural);
    let ndecl = form_bytes("de-ndecl", &template);
    let hallo_forms = vec![hallos, ndecl];
    assert(item_views(hallo_forms@) =~= seq![hallos@, ndecl@]);
    let hallo = entry_bytes("Hallo", "noun", code.as_slice(), hallo_forms);
    let lauft = form_bytes("läuft", &present);
    let lief = form_bytes("lief", &past);
    let laufen_forms = vec![lauft, lief];
    assert(item_views(laufen_forms@) =~= seq![lauft@, lief@]);
    let laufen = entry_bytes("laufen", "verb", code.as_slice(), laufen_forms);
    let la = json_string("la");
    let ordines = form_bytes("ordines", &plural);
    let ordo_forms = vec![ordines];
    assert(item_views(ordo_forms@) =~= seq![ordines@]);
    let ordo = entry_bytes("ordo", "noun", la.as_slice(), ordo_forms);
    let mut out: Vec<u8> = Vec::new();
    push_bytes(&mut out, hallo.as_slice());
    out.push(10u8);
    push_bytes(&mut out, laufen.as_slice());
    out.push(10u8);
    push_bytes(&mut out, ordo.as_slice());
    assert(out@ =~= sample_bytes(code@));
    out
}

} // verus!
