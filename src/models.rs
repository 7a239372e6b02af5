//! The names in the server's list of local models.

use vstd::prelude::*;
use crate::json::{parsed, member, array_of, string_member, parse_json, get_member, as_elements, as_text};
use crate::reducer::{body_of, response_body};

verus! {

/// The string `name` members of the listed entries, in order; entries
/// without one are skipped.
pub open spec fn names_in(xs: Seq<serde_json::Value>) -> Seq<Seq<char>>
    decreases xs.len(),
{
    if xs.len() == 0 {
        Seq::empty()
    } else {
        let f = names_in(xs.drop_last());
        match string_member(xs.last(), "name"@) {
            Some(t) => f.push(t),
            None => f,
        }
    }
}

/// The model names in a response to the model-list request: those of the
/// `models` array of the JSON body, or none where the response has no such
/// array.
pub open spec fn model_names_of(resp: Seq<char>) -> Seq<Seq<char>> {
    match body_of(resp) {
        Some(b) => match parsed(b) {
            Some(v) => match member(v, "models"@) {
                Some(m) => match array_of(m) {
                    Some(xs) => names_in(xs),
                    None => Seq::empty(),
                },
                None => Seq::empty(),
            },
            None => Seq::empty(),
        },
        None => Seq::empty(),
    }
}

/// The names listed in the `models` array.
fn names_of(xs: &Vec<serde_json::Value>) -> (r: Vec<String>)
    ensures
        r@.map_values(|s: String| s@) == names_in(xs@),
{
    let mut out: Vec<String> = Vec::new();
    let mut i: usize = 0;
    while i < xs.len()
        invariant
            i <= xs@.len(),
            out@.map_values(|s: String| s@) == names_in(xs@.take(i as int)),
        decreases xs@.len() - i,
    {
        let ghost before = out@;
        assert(xs@.take(i + 1).drop_last() =~= xs@.take(i as int));
        let name = match get_member(&xs[i], "name") {
            Some(m) => as_text(m),
            None => None,
        };
        match name {
            Some(t) => {
                out.push(String::from_str(t));
                assert(out@.map_values(|s: String| s@) =~= before.map_values(|s: String| s@).push(t@));
            },
            None => {},
        }
        i = i + 1;
    }
    assert(xs@.take(xs@.len() as int) =~= xs@);
    out
}

/// The model names that a raw response to the model-list request holds.
/// A response that cannot be read that way yields no names.
pub fn model_names(resp: &str) -> (r: Vec<String>)
    ensures
        r@.map_values(|s: String| s@) == model_names_of(resp@),
{
    let empty: Vec<String> = Vec::new();
    assert(empty@.map_values(|s: String| s@) =~= Seq::<Seq<char>>::empty());
    match response_body(resp) {
        Some(body) => match parse_json(body) {
            Some(v) => match get_member(&v, "models") {
                Some(m) => match as_elements(m) {
                    Some(xs) => names_of(xs),
                    None => empty,
                },
                None => empty,
            },
            None => empty,
        },
        None => empty,
    }
}

} // verus!
