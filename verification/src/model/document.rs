//! Root OSI document (core metadata file).

use vstd::prelude::*;

use super::enums::{Dialect, Vendor};
use super::semantic_model::SemanticModel;
use crate::text::str_chars;

verus! {

/// Root document for OSI Core Metadata.
pub struct OsiDocument {
    /// OSI specification version (schema const `0.1.1`).
    pub version: String,
    pub dialects: Option<Vec<Dialect>>,
    pub vendors: Option<Vec<Vendor>>,
    pub semantic_model: Vec<SemanticModel>,
}

/// Whitespace between JSON tokens.
pub open spec fn is_json_space(c: char) -> bool {
    c == ' ' || c == '\t' || c == '\n' || c == '\r'
}

/// Whether a text, past its leading JSON whitespace, starts with `{`.
pub open spec fn starts_as_json_object(t: Seq<char>) -> bool {
    exists|i: int| 0 <= i < t.len() && t[i] == '{' && forall|j: int| 0 <= j < i ==> is_json_space(#[trigger] t[j])
}

/// Whether a document file is read as JSON rather than YAML, by its content: its text, past
/// leading whitespace, opens a JSON object. (Any other text is read as YAML, which also accepts
/// JSON.)
pub fn reads_as_json(text: &str) -> (res: bool)
    ensures
        res == starts_as_json_object(text@),
{
    let cs = str_chars(text);
    let mut i: usize = 0;
    while i < cs.len()
        invariant
            cs@ == text@,
            i <= cs@.len(),
            forall|j: int| 0 <= j < i ==> is_json_space(#[trigger] cs@[j]),
        decreases cs.len() - i,
    {
        let c = cs[i];
        if c == '{' {
            return true;
        }
        if !(c == ' ' || c == '\t' || c == '\n' || c == '\r') {
            proof {
                assert(c == text@[i as int]);
                assert(!is_json_space(c));
                if starts_as_json_object(text@) {
                    let k = choose|k: int|
                        0 <= k < text@.len() && text@[k] == '{' && forall|j: int|
                            0 <= j < k ==> is_json_space(#[trigger] text@[j]);
                    if k > i {
                        assert(is_json_space(text@[i as int]));
                    } else if k < i {
                        assert(is_json_space(cs@[k]));
                    }
                }
                assert(!starts_as_json_object(text@));
            }
            return false;
        }
        i = i + 1;
    }
    false
}

} // verus!
