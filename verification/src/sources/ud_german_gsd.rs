//! Universal Dependencies German GSD treebank (CoNLL-U): nouns and proper
//! nouns with German ranking hints.

use vstd::prelude::*;
use vstd::string::*;
use crate::lexicon::{RecordModel, Score, ScoreModel, SourceRecord, record_model, record_views};
use crate::text::{
    char_to_uppercase, chars_contain, chars_contain_str, chars_eq_str, chars_of, char_uppercase,
    contains_seq, decimal, decode_utf8, encode_utf8, lines, split_chars, split_lines, split_on,
    string_of, trim, trim_chars, usize_to_decimal, utf8_decode, utf8_encode,
};

verus! {

/// A lemma with its first character uppercased.
pub open spec fn capitalized(lemma: Seq<char>) -> Seq<char> {
    if lemma.len() == 0 {
        Seq::empty()
    } else {
        char_uppercase(lemma[0]) + lemma.drop_first()
    }
}

pub fn capitalize_noun_lemma(lemma: &[char]) -> (r: Vec<char>)
    ensures
        r@ == capitalized(lemma@),
{
    if lemma.len() == 0 {
        return Vec::new();
    }
    let mut out = char_to_uppercase(lemma[0]);
    let ghost head = out@;
    for i in 1..lemma.len()
        invariant
            out@ == head + lemma@.subrange(1, i as int),
    {
        out.push(lemma[i]);
        assert(out@ =~= head + lemma@.subrange(1, i + 1));
    }
    assert(lemma@.subrange(1, lemma@.len() as int) =~= lemma@.drop_first());
    out
}

pub open spec fn core_deprel(deprel: Seq<char>) -> bool {
    deprel == "nsubj"@ || deprel == "obj"@ || deprel == "obl"@ || deprel == "nmod"@ || deprel
        == "root"@ || deprel == "appos"@
}

/// The ranking score of a token, in hundredths: proper nouns above common
/// nouns, raised by nominative case, singular number, grammatical gender, a
/// core dependency relation, and a named-entity annotation.
pub open spec fn spec_german_score(upos: Seq<char>, feats: Seq<char>, deprel: Seq<char>, misc: Seq<char>) -> nat {
    (if upos == "PROPN"@ {
        300nat
    } else if upos == "NOUN"@ {
        200nat
    } else {
        0nat
    }) + (if contains_seq(feats, "Case=Nom"@) {
        40nat
    } else {
        0nat
    }) + (if contains_seq(feats, "Number=Sing"@) {
        10nat
    } else {
        0nat
    }) + (if contains_seq(feats, "Gender="@) {
        10nat
    } else {
        0nat
    }) + (if core_deprel(deprel) {
        30nat
    } else {
        0nat
    }) + (if contains_seq(misc, "NE="@) {
        50nat
    } else {
        0nat
    })
}

pub fn german_score(upos: &[char], feats: &[char], deprel: &[char], misc: &[char]) -> (r: u32)
    ensures
        r == spec_german_score(upos@, feats@, deprel@, misc@),
{
    let mut score: u32 = if chars_eq_str(upos, "PROPN") {
        300
    } else if chars_eq_str(upos, "NOUN") {
        200
    } else {
        0
    };
    if chars_contain_str(feats, "Case=Nom") {
        score = score + 40;
    }
    if chars_contain_str(feats, "Number=Sing") {
        score = score + 10;
    }
    if chars_contain_str(feats, "Gender=") {
        score = score + 10;
    }
    if chars_eq_str(deprel, "nsubj") || chars_eq_str(deprel, "obj") || chars_eq_str(deprel, "obl")
        || chars_eq_str(deprel, "nmod") || chars_eq_str(deprel, "root") || chars_eq_str(
        deprel,
        "appos",
    ) {
        score = score + 30;
    }
    if chars_contain_str(misc, "NE=") {
        score = score + 50;
    }
    score
}

pub open spec fn column_error(n: nat) -> Seq<char> {
    "expected 10 CoNLL-U columns, got "@ + decimal(n)
}

/// The record a CoNLL-U token line yields, if it is a noun or proper noun.
pub open spec fn token_record(cols: Seq<Seq<char>>) -> Option<RecordModel> {
    let token_id = trim(cols[0]);
    let form = trim(cols[1]);
    let lemma = trim(cols[2]);
    let upos = trim(cols[3]);
    let feats = trim(cols[5]);
    let deprel = trim(cols[7]);
    let misc = trim(cols[9]);
    if token_id.contains('-') || token_id.contains('.') {
        None
    } else if upos != "NOUN"@ && upos != "PROPN"@ {
        None
    } else {
        let canonical = if upos == "PROPN"@ {
            form
        } else {
            capitalized(lemma)
        };
        let aliases = if lemma != form {
            seq![form, lemma]
        } else {
            seq![form]
        };
        Some(record_model(canonical, aliases, ScoreModel::Hundredths(spec_german_score(upos, feats, deprel, misc))))
    }
}

/// With the same features, a proper noun scores one point (100 hundredths)
/// above a common noun, which scores two points above any other word.
pub proof fn lemma_proper_nouns_rank_above_nouns(feats: Seq<char>, deprel: Seq<char>, misc: Seq<char>, other: Seq<char>)
    requires
        other != "PROPN"@ && other != "NOUN"@,
    ensures
        spec_german_score("PROPN"@, feats, deprel, misc) == spec_german_score("NOUN"@, feats, deprel, misc) + 100,
        spec_german_score("NOUN"@, feats, deprel, misc) == spec_german_score(other, feats, deprel, misc) + 200,
{
    reveal_strlit("PROPN");
    reveal_strlit("NOUN");
    assert("PROPN"@.len() == 5 && "NOUN"@.len() == 4);
    assert("NOUN"@ != "PROPN"@);
}

/// Only plain tokens (no range or empty-node id) tagged NOUN or PROPN make
/// records; a proper noun keeps its form, a common noun its capitalized
/// lemma, and the form and the lemma are both aliases.
pub proof fn lemma_noun_tokens_make_records(cols: Seq<Seq<char>>)
    requires
        cols.len() == 10,
    ensures
        token_record(cols) is Some <==> (!trim(cols[0]).contains('-') && !trim(cols[0]).contains('.') && (trim(cols[3])
            == "NOUN"@ || trim(cols[3]) == "PROPN"@)),
        token_record(cols) matches Some(r) ==> r.aliases.contains(trim(cols[1])) && r.aliases.contains(trim(cols[2]))
            && (trim(cols[3]) == "PROPN"@ ==> r.canonical == trim(cols[1])) && (trim(cols[3]) == "NOUN"@
            ==> r.canonical == capitalized(trim(cols[2]))),
{
    reveal_strlit("PROPN");
    reveal_strlit("NOUN");
    assert("PROPN"@.len() == 5 && "NOUN"@.len() == 4);
    assert("NOUN"@ != "PROPN"@);
    let form = trim(cols[1]);
    let lemma = trim(cols[2]);
    if lemma != form {
        assert(seq![form, lemma][0] == form && seq![form, lemma][1] == lemma);
    } else {
        assert(seq![form][0] == form);
    }
}

/// Comment lines (starting with `#`) and blank lines add no record.
pub proof fn lemma_comments_and_blank_lines_skipped(records: Seq<RecordModel>, line: Seq<char>)
    requires
        (line.len() > 0 && line[0] == '#') || trim(line).len() == 0,
    ensures
        ud_step(Ok(records), line) == Ok::<Seq<RecordModel>, Seq<char>>(records),
{
}

/// Records after one more line: comment and blank lines are skipped, a
/// line without exactly ten tab-separated columns is an error.
pub open spec fn ud_step(acc: Result<Seq<RecordModel>, Seq<char>>, line: Seq<char>) -> Result<Seq<RecordModel>, Seq<char>> {
    match acc {
        Err(e) => Err(e),
        Ok(records) => {
            if (line.len() > 0 && line[0] == '#') || trim(line).len() == 0 {
                Ok(records)
            } else {
                let cols = split_on(line, '\t');
                if cols.len() != 10 {
                    Err(column_error(cols.len()))
                } else {
                    match token_record(cols) {
                        Some(r) => Ok(records.push(r)),
                        None => Ok(records),
                    }
                }
            }
        }
    }
}

pub open spec fn ud_lines(ls: Seq<Seq<char>>) -> Result<Seq<RecordModel>, Seq<char>>
    decreases ls.len(),
{
    if ls.len() == 0 {
        Ok(Seq::empty())
    } else {
        ud_step(ud_lines(ls.drop_last()), ls.last())
    }
}

/// The records of a CoNLL-U payload.
pub open spec fn ud_parse(bytes: Seq<u8>) -> Result<Seq<RecordModel>, Seq<char>> {
    match utf8_decode(bytes) {
        Err(e) => Err(e),
        Ok(text) => ud_lines(lines(text)),
    }
}

fn token_record_exec(cols: &Vec<Vec<char>>) -> (r: Option<SourceRecord>)
    requires
        cols@.len() == 10,
    ensures
        match r {
            Some(rec) => token_record(cols@.map_values(|v: Vec<char>| v@)) == Some(rec@),
            None => token_record(cols@.map_values(|v: Vec<char>| v@)) is None,
        },
        r matches Some(rec) ==> rec@.score is Hundredths,
{
    let ghost cv = cols@.map_values(|v: Vec<char>| v@);
    assert(forall|k: int| 0 <= k < 10 ==> cv[k] == cols@[k]@);
    let token_id = trim_chars(cols[0].as_slice());
    if chars_contain(token_id.as_slice(), '-') || chars_contain(token_id.as_slice(), '.') {
        return None;
    }
    let form = trim_chars(cols[1].as_slice());
    let lemma = trim_chars(cols[2].as_slice());
    let upos = trim_chars(cols[3].as_slice());
    let feats = trim_chars(cols[5].as_slice());
    let deprel = trim_chars(cols[7].as_slice());
    let misc = trim_chars(cols[9].as_slice());
    let is_propn = chars_eq_str(upos.as_slice(), "PROPN");
    if !chars_eq_str(upos.as_slice(), "NOUN") && !is_propn {
        return None;
    }
    let canonical = if is_propn {
        string_of(form.as_slice())
    } else {
        let cap = capitalize_noun_lemma(lemma.as_slice());
        string_of(cap.as_slice())
    };
    let mut aliases: Vec<String> = Vec::new();
    aliases.push(string_of(form.as_slice()));
    let same = form.len() == lemma.len() && chars_eq_str(lemma.as_slice(), string_of(form.as_slice()).as_str());
    if !same {
        aliases.push(string_of(lemma.as_slice()));
    }
    let score = german_score(upos.as_slice(), feats.as_slice(), deprel.as_slice(), misc.as_slice());
    let rec = SourceRecord { canonical, aliases, score: Score::Hundredths(score) };
    proof {
        if lemma@ == form@ {
            assert(same);
        }
        if same {
            assert(lemma@ == form@);
        }
        assert(rec@.aliases =~= if lemma@ != form@ {
            seq![form@, lemma@]
        } else {
            seq![form@]
        });
    }
    Some(rec)
}

/// Parses a CoNLL-U payload into noun and proper-noun records.
pub fn parse(bytes: &[u8]) -> (r: Result<Vec<SourceRecord>, String>)
    ensures
        match r {
            Ok(records) => ud_parse(bytes@) == Ok::<Seq<RecordModel>, Seq<char>>(record_views(records@)),
            Err(e) => ud_parse(bytes@) == Err::<Seq<RecordModel>, Seq<char>>(e@),
        },
        r matches Ok(records) ==> forall|i: int| 0 <= i < records@.len() ==> (#[trigger] records@[i])@.score is Hundredths,
{
    let text = match decode_utf8(bytes) {
        Ok(t) => t,
        Err(e) => return Err(e),
    };
    let cs = chars_of(text.as_str());
    let ls = split_lines(cs.as_slice());
    let ghost lv = ls@.map_values(|v: Vec<char>| v@);
    let mut records: Vec<SourceRecord> = Vec::new();
    assert(record_views(records@) =~= Seq::<RecordModel>::empty());
    assert(lv.take(0) =~= Seq::<Seq<char>>::empty());
    for i in 0..ls.len()
        invariant
            lv == ls@.map_values(|v: Vec<char>| v@),
            lv == lines(text@),
            utf8_decode(bytes@) == Ok::<Seq<char>, Seq<char>>(text@),
            ud_lines(lv.take(i as int)) == Ok::<Seq<RecordModel>, Seq<char>>(record_views(records@)),
            forall|k: int| 0 <= k < records@.len() ==> (#[trigger] records@[k])@.score is Hundredths,
    {
        let line = &ls[i];
        proof {
            assert(lv.take(i + 1).drop_last() =~= lv.take(i as int));
            assert(lv.take(i + 1).last() == line@);
        }
        let comment = line.len() > 0 && line[0] == '#';
        let blank = trim_chars(line.as_slice()).len() == 0;
        if !(comment || blank) {
            let cols = split_chars(line.as_slice(), '\t');
            if cols.len() != 10 {
                let mut msg = String::from_str("expected 10 CoNLL-U columns, got ");
                let n = usize_to_decimal(cols.len());
                msg.append(n.as_str());
                proof {
                    let e = column_error(cols@.len() as nat);
                    assert(ud_lines(lv.take(i + 1)) == Err::<Seq<RecordModel>, Seq<char>>(e));
                    lemma_ud_error_sticks(lv, i + 1, lv.len() as int, e);
                    assert(lv.take(lv.len() as int) =~= lv);
                    assert(msg@ == e);
                    assert(ud_lines(lv) == Err::<Seq<RecordModel>, Seq<char>>(e));
                    assert(utf8_decode(bytes@) == Ok::<Seq<char>, Seq<char>>(text@));
                    assert(ud_parse(bytes@) == Err::<Seq<RecordModel>, Seq<char>>(e));
                }
                return Err(msg);
            }
            match token_record_exec(&cols) {
                Some(rec) => {
                    let ghost before = record_views(records@);
                    records.push(rec);
                    assert(record_views(records@) =~= before.push(rec@));
                },
                None => {},
            }
        }
    }
    proof {
        assert(lv.take(ls.len() as int) =~= lv);
    }
    Ok(records)
}

proof fn lemma_ud_error_sticks(lv: Seq<Seq<char>>, i: int, j: int, e: Seq<char>)
    requires
        0 <= i <= j <= lv.len(),
        ud_lines(lv.take(i)) == Err::<Seq<RecordModel>, Seq<char>>(e),
    ensures
        ud_lines(lv.take(j)) == Err::<Seq<RecordModel>, Seq<char>>(e),
    decreases j - i,
{
    if i < j {
        assert(lv.take(i + 1).drop_last() =~= lv.take(i));
        lemma_ud_error_sticks(lv, i + 1, j, e);
    }
}

pub open spec fn empty_message() -> Seq<char> {
    "UD German GSD payload did not yield noun candidates"@
}

/// Accepts a payload that parses and yields at least one noun candidate.
pub fn validate(bytes: &[u8]) -> (r: Result<(), String>)
    ensures
        r is Ok <==> (ud_parse(bytes@) matches Ok(records) && records.len() > 0),
        r matches Err(e) ==> (match ud_parse(bytes@) {
            Err(m) => e@ == m,
            Ok(_) => e@ == empty_message(),
        }),
{
    let records = match parse(bytes) {
        Ok(r) => r,
        Err(e) => return Err(e),
    };
    if records.len() == 0 {
        return Err(String::from_str("UD German GSD payload did not yield noun candidates"));
    }
    Ok(())
}

pub open spec fn sample_text() -> Seq<char> {
    "# sent_id = 1\n1\tBerlin\tBerlin\tPROPN\tNE\tCase=Nom|Number=Sing\t0\troot\t_\t_\n2\tist\tsein\tAUX\t_\t_\t1\tcop\t_\t_\n3\tschon\tschon\tADV\t_\t_\t1\tadvmod\t_\t_\n4\tgut\tgut\tADJ\t_\t_\t1\txcomp\t_\t_\n5\tProbleme\tProblem\tNOUN\tNN\tCase=Nom|Gender=Neut|Number=Plur\t1\tconj\t_\t_\n"@
}

/// A small CoNLL-U sentence with a proper noun and a plural common noun.
pub fn sample() -> (r: Vec<u8>)
    ensures
        r@ == utf8_encode(sample_text()),
{
    encode_utf8("# sent_id = 1\n1\tBerlin\tBerlin\tPROPN\tNE\tCase=Nom|Number=Sing\t0\troot\t_\t_\n2\tist\tsein\tAUX\t_\t_\t1\tcop\t_\t_\n3\tschon\tschon\tADV\t_\t_\t1\tadvmod\t_\t_\n4\tgut\tgut\tADJ\t_\t_\t1\txcomp\t_\t_\n5\tProbleme\tProblem\tNOUN\tNN\tCase=Nom|Gender=Neut|Number=Plur\t1\tconj\t_\t_\n")
}

} // verus!
