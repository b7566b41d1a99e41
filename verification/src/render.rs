//! The boundary to the template renderer.

use vstd::prelude::*;
use std::collections::HashMap;

verus! {

/// The text that the renderer produces from a template and a list of
/// name/value variables, or `None` when rendering fails; the result depends
/// on the template and the variables alone.
pub uninterp spec fn strfmt_res(template: Seq<char>, vars: Seq<(Seq<char>, Seq<char>)>) -> Option<
    Seq<char>,
>;

/// The views of a list of name/value pairs.
pub open spec fn pairs_view(vars: Seq<(String, String)>) -> Seq<(Seq<char>, Seq<char>)> {
    vars.map_values(|p: (String, String)| (p.0@, p.1@))
}

/// Relies on strfmt::strfmt: renders `template`, substituting each named
/// `{name}` placeholder with the value recorded under that name, and fails
/// on a malformed template or on a placeholder whose name is absent. The
/// variables are handed over as a map, so a name repeated in `vars` counts
/// once, with its last value.
#[verifier::external_body]
pub(crate) fn strfmt_call(template: &str, vars: &Vec<(String, String)>) -> (r: Option<String>)
    ensures
        match r {
            Some(s) => strfmt_res(template@, pairs_view(vars@)) == Some(s@),
            None => strfmt_res(template@, pairs_view(vars@)) is None,
        },
{
    let map: HashMap<String, String> = vars.iter().cloned().collect();
    strfmt::strfmt(template, &map).ok()
}

} // verus!
