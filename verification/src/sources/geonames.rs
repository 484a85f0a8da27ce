//! GeoNames gazetteer extracts (tab-separated).

use vstd::prelude::*;
use vstd::string::*;
use crate::json::{opt_text, str_or, text_or};
use crate::text::{encode_utf8, utf8_encode};

verus! {

pub open spec fn sample_text(country: Seq<char>) -> Seq<char> {
    "name\talt_name\tscore\nBerlin\tberlin\t2\nMunich\tmunich\t1.5\nCountry "@ + country + "\tcountry "@ + country
        + "\t1\n"@
}

/// A small tab-separated extract; the third row names the country `country`
/// ("XX" by default).
pub fn sample(country: Option<&str>) -> (r: Vec<u8>)
    ensures
        r@ == utf8_encode(sample_text(text_or(opt_text(country), "XX"@))),
{
    let country = str_or(country, "XX");
    let mut text = String::from_str("name\talt_name\tscore\nBerlin\tberlin\t2\nMunich\tmunich\t1.5\nCountry ");
    text.append(country);
    text.append("\tcountry ");
    text.append(country);
    text.append("\t1\n");
    encode_utf8(text.as_str())
}

} // verus!
