//! The decisions of `lexicon fetch`: which payload to fetch, where it goes,
//! and what becomes of the fetched parts. The downloads and file writes are
//! the caller's.

use vstd::prelude::*;
use vstd::string::*;
use crate::cli::FetchArgs;
use crate::collections::views;
use crate::json::{item_views, opt_text, text_or};
use crate::paths::{file_name, path_file_name, path_with_file_name, with_file_name};
use crate::sources::{
    FetchPlanModel, SourceId, built_in_fetch_plan, normalize_download, sample_payload, spec_fetch_plan,
    spec_normalize, spec_sample, spec_source_name, spec_validate, validate_source_bytes,
};
use crate::text::{decimal, str_lowercase, to_lowercase, usize_to_decimal};

verus! {

/// What is fetched: a generated sample, or the payloads at some URLs.
pub enum Payload {
    Sample(Vec<u8>),
    Urls(Vec<String>),
}

/// A fetch, resolved: its payload, the provenance to record, and the suffix
/// of the output file's name.
pub struct ResolvedPlan {
    pub payload: Payload,
    pub source_url: String,
    pub version: String,
    pub output_suffix: String,
    pub sample: bool,
}

pub open spec fn opt_string(o: Option<String>) -> Option<Seq<char>> {
    match o {
        Some(s) => Some(s@),
        None => None,
    }
}

/// The first of the language, country, and region given, else the fallback,
/// lowercased.
pub open spec fn spec_suffix(args: FetchArgs, fallback: Seq<char>) -> Seq<char> {
    let chosen = if args.lang is Some {
        opt_string(args.lang)
    } else if args.country is Some {
        opt_string(args.country)
    } else {
        opt_string(args.region)
    };
    str_lowercase(text_or(chosen, fallback))
}

fn opt_as_str(o: &Option<String>) -> (r: Option<&str>)
    ensures
        opt_text(r) == opt_string(*o),
{
    match o {
        Some(s) => Some(s.as_str()),
        None => None,
    }
}

pub fn suffix_or(args: &FetchArgs, fallback: &str) -> (r: String)
    ensures
        r@ == spec_suffix(*args, fallback@),
{
    let chosen = if args.lang.is_some() {
        opt_as_str(&args.lang)
    } else if args.country.is_some() {
        opt_as_str(&args.country)
    } else {
        opt_as_str(&args.region)
    };
    let text = match chosen {
        Some(t) => t,
        None => fallback,
    };
    to_lowercase(text)
}

/// The plan for a sample: the source's sample payload, recorded as a
/// deterministic sample.
pub open spec fn sample_plan(plan: ResolvedPlan, args: FetchArgs) -> bool {
    &&& plan.payload matches Payload::Sample(bytes) && bytes@ == spec_sample(
        args.source,
        opt_string(args.lang),
        opt_string(args.country),
        opt_string(args.region),
    )
    &&& plan.source_url@ == "sample://textcase/"@ + spec_source_name(args.source)
    &&& plan.version@ == "deterministic-sample"@
    &&& plan.output_suffix@ == spec_suffix(args, "sample"@)
    &&& plan.sample
}

/// The plan for a URL given on the command line.
pub open spec fn url_plan(plan: ResolvedPlan, args: FetchArgs, url: Seq<char>) -> bool {
    &&& plan.payload matches Payload::Urls(urls) && views(urls@) == seq![url]
    &&& plan.source_url@ == url
    &&& plan.version@ == "user-supplied"@
    &&& plan.output_suffix@ == spec_suffix(args, "custom"@)
    &&& !plan.sample
}

/// The plan of a built-in fetch workflow.
pub open spec fn built_in_plan(plan: ResolvedPlan, m: FetchPlanModel) -> bool {
    &&& plan.payload matches Payload::Urls(urls) && views(urls@) == m.urls
    &&& plan.source_url@ == m.source_url
    &&& plan.version@ == m.version
    &&& plan.output_suffix@ == m.output_suffix
    &&& !plan.sample
}

/// A sample where one is asked for, else the URL given, else the source's
/// built-in workflow (an error where it has none).
pub fn resolve_plan(args: &FetchArgs) -> (r: Result<ResolvedPlan, String>)
    ensures
        args.sample ==> (r matches Ok(plan) && sample_plan(plan, *args)),
        !args.sample && args.url is Some ==> (r matches Ok(plan) && url_plan(plan, *args, opt_string(args.url)->0)),
        !args.sample && args.url is None ==> match spec_fetch_plan(args.source, opt_string(args.lang), opt_string(args.country)) {
            Ok(m) => (r matches Ok(plan) && built_in_plan(plan, m)),
            Err(e) => (r matches Err(msg) && msg@ == e),
        },
{
    let lang = opt_as_str(&args.lang);
    let country = opt_as_str(&args.country);
    let region = opt_as_str(&args.region);
    if args.sample {
        let bytes = sample_payload(args.source, lang, country, region);
        let mut source_url = String::from_str("sample://textcase/");
        source_url.append(args.source.as_str());
        Ok(ResolvedPlan {
            payload: Payload::Sample(bytes),
            source_url,
            version: String::from_str("deterministic-sample"),
            output_suffix: suffix_or(args, "sample"),
            sample: true,
        })
    } else {
        match &args.url {
            Some(url) => {
                let urls = vec![url.clone()];
                assert(views(urls@) =~= seq![url@]);
                Ok(ResolvedPlan {
                    payload: Payload::Urls(urls),
                    source_url: url.clone(),
                    version: String::from_str("user-supplied"),
                    output_suffix: suffix_or(args, "custom"),
                    sample: false,
                })
            },
            None => {
                let plan = match built_in_fetch_plan(args.source, lang, country, region) {
                    Ok(p) => p,
                    Err(e) => return Err(e),
                };
                Ok(ResolvedPlan {
                    payload: Payload::Urls(plan.urls),
                    source_url: plan.source_url,
                    version: plan.version,
                    output_suffix: plan.output_suffix,
                    sample: false,
                })
            },
        }
    }
}

pub open spec fn or_empty(o: Option<Seq<char>>) -> Seq<char> {
    match o {
        Some(s) => s,
        None => Seq::empty(),
    }
}

/// `dir/name.ext` becomes `dir/name.ext.partN`: the temporary file of the
/// `N`th download, beside the output.
pub fn part_path(path: &str, index: usize) -> (r: String)
    ensures
        r@ == path_with_file_name(path@, or_empty(path_file_name(path@)) + ".part"@ + decimal(index as nat)),
{
    let mut name = match file_name(path) {
        Some(n) => n,
        None => String::new(),
    };
    name.append(".part");
    let digits = usize_to_decimal(index);
    name.append(digits.as_str());
    with_file_name(path, name.as_str())
}

pub open spec fn single_part_message(source: SourceId, parts: nat) -> Seq<char> {
    spec_source_name(source) + " is a single-payload source but "@ + decimal(parts) + " parts were fetched"@
}

/// A source that is not normalized is fetched as exactly one part.
pub fn check_single_part(source: SourceId, parts: usize) -> (r: Result<(), String>)
    ensures
        r is Ok <==> parts == 1,
        r matches Err(e) ==> e@ == single_part_message(source, parts as nat),
{
    if parts == 1 {
        return Ok(());
    }
    let mut m = String::from_str(source.as_str());
    m.append(" is a single-payload source but ");
    let n = usize_to_decimal(parts);
    m.append(n.as_str());
    m.append(" parts were fetched");
    Err(m)
}

/// The payload written for a source whose downloads are normalized: the
/// normalized bytes, once they validate.
pub open spec fn spec_finalize(source: SourceId, downloads: Seq<Seq<u8>>) -> Result<Seq<u8>, Seq<char>> {
    match spec_normalize(source, downloads) {
        Err(e) => Err(e),
        Ok(bytes) => match spec_validate(source, bytes) {
            Err(e) => Err(e),
            Ok(()) => Ok(bytes),
        },
    }
}

pub fn normalize_and_validate(source: SourceId, downloads: Vec<Vec<u8>>) -> (r: Result<Vec<u8>, String>)
    ensures
        match r {
            Ok(v) => spec_finalize(source, item_views(downloads@)) == Ok::<Seq<u8>, Seq<char>>(v@),
            Err(e) => spec_finalize(source, item_views(downloads@)) == Err::<Seq<u8>, Seq<char>>(e@),
        },
{
    let bytes = match normalize_download(source, downloads) {
        Ok(b) => b,
        Err(e) => return Err(e),
    };
    match validate_source_bytes(source, bytes.as_slice()) {
        Ok(()) => Ok(bytes),
        Err(e) => Err(e),
    }
}

} // verus!
