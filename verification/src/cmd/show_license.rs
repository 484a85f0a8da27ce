//! `textcase lexicon show-license <source>`: licensing and workflow guidance.

use vstd::prelude::*;
use vstd::string::*;
use crate::lexicon::PreparedKind;
use crate::sources::{
    SourceId, ack_text, descriptor, fetch_guidance, spec_ack_flag, spec_bundling_policy,
    spec_class, spec_display_name, spec_docs_anchor, spec_fetch_guidance, spec_license_name,
    spec_license_summary, spec_plugin_kinds, spec_recommended, spec_source_name,
};
use crate::text::{join_strings, seq_join};

verus! {

pub open spec fn acknowledgement_line(id: SourceId) -> Seq<char> {
    match ack_text(spec_ack_flag(id)) {
        Some(t) => t,
        None => "none required"@,
    }
}

/// The report of a source.
pub open spec fn license_report(id: SourceId) -> Seq<char> {
    spec_display_name(id) + " ("@ + spec_source_name(id) + ")\nclass: "@ + spec_class(id).spec_name()
        + "\nlicense: "@ + spec_license_name(id) + "\nsummary: "@ + spec_license_summary(id)
        + "\nplugin kinds: "@ + seq_join(
        spec_plugin_kinds(id).map_values(|k: PreparedKind| k.spec_debug_name()),
        ", "@,
    ) + "\nacknowledgement: "@ + acknowledgement_line(id) + "\nfetch guidance: "@
        + spec_fetch_guidance(id) + "\nrecommendation: "@ + (if spec_recommended(id) {
        "recommended"@
    } else {
        "optional"@
    }) + "\nbundling policy: "@ + spec_bundling_policy(id) + "\nsetup guide: docs/sources.md"@
        + spec_docs_anchor(id)
}

pub fn run(source: SourceId) -> (r: Result<String, String>)
    ensures
        r matches Ok(text) && text@ == license_report(source),
{
    let d = descriptor(source);
    let acknowledgement = match d.acknowledgement_flag {
        Some(flag) => flag,
        None => "none required",
    };
    let mut kinds: Vec<String> = Vec::new();
    for i in 0..d.plugin_kinds.len()
        invariant
            d.plugin_kinds@ == spec_plugin_kinds(source),
            kinds@.map_values(|p: String| p@) == spec_plugin_kinds(source).take(i as int).map_values(
                |k: PreparedKind| k.spec_debug_name(),
            ),
    {
        let ghost before = kinds@.map_values(|p: String| p@);
        let name = String::from_str(d.plugin_kinds[i].debug_name());
        kinds.push(name);
        assert(kinds@.map_values(|p: String| p@) =~= before.push(name@));
        assert(name@ == spec_plugin_kinds(source)[i as int].spec_debug_name());
        assert(kinds@.map_values(|p: String| p@) =~= spec_plugin_kinds(source).take(i + 1).map_values(
            |k: PreparedKind| k.spec_debug_name(),
        ));
    }
    assert(spec_plugin_kinds(source).take(d.plugin_kinds.len() as int) =~= spec_plugin_kinds(source));
    let mut out = String::from_str(d.display_name);
    out.append(" (");
    out.append(d.id.as_str());
    out.append(")\nclass: ");
    out.append(d.class.as_str());
    out.append("\nlicense: ");
    out.append(d.license_name);
    out.append("\nsummary: ");
    out.append(d.license_summary);
    out.append("\nplugin kinds: ");
    let joined = join_strings(&kinds, ", ");
    out.append(joined.as_str());
    out.append("\nacknowledgement: ");
    out.append(acknowledgement);
    out.append("\nfetch guidance: ");
    out.append(fetch_guidance(source));
    out.append("\nrecommendation: ");
    out.append(if d.recommended { "recommended" } else { "optional" });
    out.append("\nbundling policy: ");
    out.append(d.bundling_policy);
    out.append("\nsetup guide: docs/sources.md");
    out.append(d.docs_anchor);
    Ok(out)
}

} // verus!
