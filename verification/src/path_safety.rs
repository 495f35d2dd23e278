use vstd::prelude::*;

verus! {

/// A character allowed in a thread id: ASCII letter, ASCII digit, `-` or `_`.
pub open spec fn is_thread_id_char(c: char) -> bool {
    ('a' <= c && c <= 'z') || ('A' <= c && c <= 'Z') || ('0' <= c && c <= '9') || c == '-'
        || c == '_'
}

/// A thread id that can be used as a single path component or key segment.
pub open spec fn is_safe_thread_id(s: Seq<char>) -> bool {
    s.len() > 0 && forall|i: int| 0 <= i < s.len() ==> is_thread_id_char(#[trigger] s[i])
}

pub fn is_thread_id_char_exec(c: char) -> (r: bool)
    ensures
        r == is_thread_id_char(c),
{
    ('a' <= c && c <= 'z') || ('A' <= c && c <= 'Z') || ('0' <= c && c <= '9') || c == '-'
        || c == '_'
}

/// Returns the input unchanged when it is a non-empty string of ASCII letters,
/// digits, `-` and `_`; `None` otherwise.
pub fn sanitize_thread_id(input: &str) -> (r: Option<String>)
    ensures
        r is Some <==> is_safe_thread_id(input@),
        r matches Some(s) ==> s@ == input@,
{
    let n = input.unicode_len();
    if n == 0 {
        return None;
    }
    let mut i: usize = 0;
    while i < n
        invariant
            n == input@.len(),
            i <= n,
            forall|j: int| 0 <= j < i ==> is_thread_id_char(#[trigger] input@[j]),
        decreases n - i,
    {
        let c = input.get_char(i);
        if !is_thread_id_char_exec(c) {
            return None;
        }
        i = i + 1;
    }
    Some(input.to_string())
}

} // verus!
