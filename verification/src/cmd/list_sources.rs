//! `textcase lexicon list-sources`: one tab-separated line per source.

use vstd::prelude::*;
use vstd::string::*;
use crate::sources::{
    SourceDescriptor, all_sources, describes, descriptors, spec_class, spec_domain_tags,
    spec_license_summary, spec_purpose, spec_recommended, spec_source_name,
};
use crate::text::{join_strings, join_strs, seq_join};

verus! {

pub open spec fn listing_header() -> Seq<char> {
    "id\tclass\trecommendation\tpurpose\ttags\tlicense"@
}

pub open spec fn recommendation(recommended: bool) -> Seq<char> {
    if recommended {
        "recommended"@
    } else {
        "optional"@
    }
}

/// The listing line of a source.
pub open spec fn source_line(id: crate::sources::SourceId) -> Seq<char> {
    spec_source_name(id) + "\t"@ + spec_class(id).spec_name() + "\t"@ + recommendation(
        spec_recommended(id),
    ) + "\t"@ + spec_purpose(id) + "\t"@ + seq_join(spec_domain_tags(id), ","@) + "\t"@
        + spec_license_summary(id)
}

/// The whole listing: a header line, then one line per source in catalogue order.
pub open spec fn listing_text() -> Seq<char> {
    seq_join(
        seq![listing_header()] + all_sources().map_values(|id: crate::sources::SourceId| source_line(id)),
        "\n"@,
    )
}

fn line_of(d: &SourceDescriptor) -> (r: String)
    requires
        describes(*d, d.id),
    ensures
        r@ == source_line(d.id),
{
    let mut line = String::from_str(d.id.as_str());
    line.append("\t");
    line.append(d.class.as_str());
    line.append("\t");
    line.append(if d.recommended { "recommended" } else { "optional" });
    line.append("\t");
    line.append(d.purpose);
    line.append("\t");
    let tags = join_strs(&d.domain_tags, ",");
    line.append(tags.as_str());
    line.append("\t");
    line.append(d.license_summary);
    line
}

pub fn run() -> (r: Result<String, String>)
    ensures
        r matches Ok(text) && text@ == listing_text(),
{
    let mut lines: Vec<String> = Vec::new();
    lines.push(String::from_str("id\tclass\trecommendation\tpurpose\ttags\tlicense"));
    let all = descriptors();
    let ghost expected = seq![listing_header()] + all_sources().map_values(
        |id: crate::sources::SourceId| source_line(id),
    );
    assert(expected.len() == all_sources().len() + 1);
    for i in 0..all.len()
        invariant
            expected == seq![listing_header()] + all_sources().map_values(
                |id: crate::sources::SourceId| source_line(id),
            ),
            expected.len() == all_sources().len() + 1,
            all@.len() == all_sources().len(),
            forall|k: int| 0 <= k < all@.len() ==> describes(#[trigger] all@[k], all_sources()[k]),
            lines@.map_values(|p: String| p@) == expected.take(i + 1),
    {
        assert(describes(all@[i as int], all_sources()[i as int]));
        let line = line_of(&all[i]);
        let ghost before = lines@.map_values(|p: String| p@);
        lines.push(line);
        proof {
            assert(all@[i as int].id == all_sources()[i as int]);
            assert(expected[i + 1] == all_sources().map_values(
                |id: crate::sources::SourceId| source_line(id),
            )[i as int]);
            assert(expected[i + 1] == source_line(all_sources()[i as int]));
            assert(expected.take(i + 2) =~= expected.take(i + 1).push(expected[i + 1]));
            assert(lines@.map_values(|p: String| p@) =~= before.push(line@));
        }
        assert(lines@.map_values(|p: String| p@) =~= expected.take(i + 2));
    }
    assert(expected.take(all.len() + 1) =~= expected);
    Ok(join_strings(&lines, "\n"))
}

} // verus!
