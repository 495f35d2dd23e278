//! Reading stored memory JSON: blank text is an empty document; text that is not a
//! current document may be a legacy list of facts or an older object with a `facts` list.

use vstd::prelude::*;
use crate::json::{json_value_of_text, parse_json_value, str_elements, string_elements};
use crate::manage_tasks::{json_string_list, parse_string_list};
use crate::text::{trim, trim_whitespace};

verus! {

/// The stored memory text without surrounding white space, or nothing when it is blank
/// (a blank text stands for an empty document).
pub fn memory_json_text(raw: &str) -> (r: Option<String>)
    ensures
        trim_whitespace(raw@).len() == 0 ==> r is None,
        trim_whitespace(raw@).len() > 0 ==> (r matches Some(t) && t@ == trim_whitespace(raw@)),
{
    let t = trim(raw);
    if t.unicode_len() == 0 {
        None
    } else {
        Some(t)
    }
}

/// The message of memory text that is not JSON.
pub open spec fn undecodable_memory_message() -> Seq<char> {
    "memory json: unable to decode"@
}

/// The fact texts that memory text which is not a current document stands for: none for a
/// legacy list of strings (whose entries carry no structure); the string elements of its
/// `facts` member for any other JSON value; otherwise the text cannot be decoded.
pub open spec fn older_memory_facts(text: Seq<char>) -> Result<Seq<Seq<char>>, Seq<char>> {
    match json_string_list(text) {
        Ok(_) => Ok(Seq::empty()),
        Err(_) => match json_value_of_text(text) {
            Some(v) => Ok(str_elements(v, "facts"@)),
            None => Err(undecodable_memory_message()),
        },
    }
}

/// The facts of memory text that did not decode as a current document.
pub fn older_memory_fact_texts(text: &str) -> (r: Result<Vec<String>, String>)
    ensures
        match older_memory_facts(text@) {
            Ok(facts) => r matches Ok(v) && v@.map_values(|s: String| s@) == facts,
            Err(m) => r matches Err(e) && e@ == m,
        },
{
    proof {
        reveal_strlit("facts");
    }
    match parse_string_list(text) {
        Ok(_) => {
            let v: Vec<String> = Vec::new();
            assert(v@.map_values(|s: String| s@) =~= Seq::<Seq<char>>::empty());
            Ok(v)
        },
        Err(_) => match parse_json_value(text) {
            Some(value) => Ok(string_elements(&value, "facts")),
            None => Err("memory json: unable to decode".to_string()),
        },
    }
}

} // verus!
