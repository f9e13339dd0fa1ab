//! Looking into JSON texts.

use crate::text;
use vstd::prelude::*;
use vstd::string::*;

verus! {

/// What stands at a place in a JSON text: its text where it is a string, its
/// value where it is a whole number.
#[derive(Debug)]
pub struct Found {
    pub text: Option<String>,
    pub number: Option<u64>,
}

/// What a place in a JSON text holds.
pub struct Leaf {
    pub text: Option<Seq<char>>,
    pub number: Option<u64>,
}

impl View for Found {
    type V = Leaf;

    open spec fn view(&self) -> Leaf {
        Leaf { text: text::opt_text(self.text), number: self.number }
    }
}

/// A lookup, with the texts in it.
pub open spec fn looked_up(r: Result<Found, String>) -> Result<Leaf, Seq<char>> {
    match r {
        Ok(found) => Ok(found@),
        Err(e) => Err(e@),
    }
}

/// What stands in a JSON text at the place that a JSON pointer names: neither
/// text nor number where there is no such place, and the parser's message where
/// the text is not JSON.
pub uninterp spec fn json_at(body: Seq<char>, pointer: Seq<char>) -> Result<Leaf, Seq<char>>;

/// Parses a text with `serde_json::from_str` and follows a pointer with
/// `serde_json::Value::pointer`. The outcome is named, not described: it is the
/// JSON grammar and the parser's wording of errors.
#[verifier::external_body]
pub(crate) fn look_up(body: &str, pointer: &str) -> (r: Result<Found, String>)
    ensures
        looked_up(r) == json_at(body@, pointer@),
{
    match serde_json::from_str::<serde_json::Value>(body) {
        Ok(value) => {
            let found = value.pointer(pointer);
            Ok(
                Found {
                    text: found.and_then(serde_json::Value::as_str).map(str::to_string),
                    number: found.and_then(serde_json::Value::as_u64),
                },
            )
        },
        Err(e) => Err(e.to_string()),
    }
}

} // verus!
