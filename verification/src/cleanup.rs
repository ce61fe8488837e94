//! Pre-parse cleanup of raw device responses.
//!
//! Device firmware frequently appends NUL bytes, newlines or other garbage
//! after the JSON body of a status response. Before any parsing, the raw
//! text is trimmed of ASCII whitespace and NUL characters at both ends and
//! truncated at the last closing brace; a remainder that does not start
//! with an opening brace is rejected rather than guessed at.

use vstd::prelude::*;
use crate::error::{MinerError, MinerResult};

verus! {

/// Characters removed from both ends of a raw response: the ASCII
/// whitespace characters and NUL.
pub open spec fn is_trim_char(c: char) -> bool {
    c == ' ' || c == '\t' || c == '\n' || c == '\r' || c == '\u{b}' || c == '\u{c}'
        || c == '\u{0}'
}

/// Index of the first character at or after `i` that is not trimmed
/// (`s.len()` if all of them are).
pub open spec fn scan_start(s: Seq<char>, i: int) -> int
    decreases s.len() - i,
{
    if 0 <= i < s.len() && is_trim_char(s[i]) {
        scan_start(s, i + 1)
    } else {
        i
    }
}

/// One past the last character before `j` that is not trimmed
/// (`0` if all of them are).
pub open spec fn scan_end(s: Seq<char>, j: int) -> int
    decreases j,
{
    if 0 < j <= s.len() && is_trim_char(s[j - 1]) {
        scan_end(s, j - 1)
    } else {
        j
    }
}

/// The response with leading and trailing whitespace and NUL removed.
pub open spec fn trimmed_view(s: Seq<char>) -> Seq<char> {
    let lo = scan_start(s, 0);
    let hi = scan_end(s, s.len() as int);
    if lo < hi {
        s.subrange(lo, hi)
    } else {
        Seq::empty()
    }
}

/// Index of the last `'}'` strictly before `j`, or `-1` if there is none.
pub open spec fn last_brace(s: Seq<char>, j: int) -> int
    decreases j,
{
    if j <= 0 {
        -1
    } else if s[j - 1] == '}' {
        j - 1
    } else {
        last_brace(s, j - 1)
    }
}

/// What cleanup makes of a raw response: the trimmed text cut after its
/// last `'}'`, provided that cut starts with `'{'`; nothing otherwise.
pub open spec fn clean_json_view(s: Seq<char>) -> Option<Seq<char>> {
    let t = trimmed_view(s);
    let j = last_brace(t, t.len() as int);
    if j >= 0 && t[0] == '{' {
        Some(t.take(j + 1))
    } else {
        None
    }
}

/// The fallback used by the status client: the cleaned JSON where it
/// exists, else merely the trimmed text, left for the parser to reject.
pub open spec fn loose_clean_view(s: Seq<char>) -> Seq<char> {
    match clean_json_view(s) {
        Some(c) => c,
        None => trimmed_view(s),
    }
}

fn is_trim_exec(c: char) -> (r: bool)
    ensures
        r == is_trim_char(c),
{
    c == ' ' || c == '\t' || c == '\n' || c == '\r' || c == '\u{b}' || c == '\u{c}'
        || c == '\u{0}'
}

/// Remove leading and trailing ASCII whitespace and NUL characters.
pub fn trim_garbage(response: &str) -> (r: String)
    ensures
        r@ == trimmed_view(response@),
{
    let n = response.unicode_len();
    let mut lo: usize = 0;
    while lo < n && is_trim_exec(response.get_char(lo))
        invariant
            n == response@.len(),
            0 <= lo <= n,
            scan_start(response@, 0) == scan_start(response@, lo as int),
        decreases n - lo,
    {
        lo = lo + 1;
    }
    assert(scan_start(response@, 0) == lo as int);
    let mut hi: usize = n;
    while hi > 0 && is_trim_exec(response.get_char(hi - 1))
        invariant
            n == response@.len(),
            0 <= hi <= n,
            scan_end(response@, n as int) == scan_end(response@, hi as int),
        decreases hi,
    {
        hi = hi - 1;
    }
    assert(scan_end(response@, n as int) == hi as int);
    if lo < hi {
        response.substring_char(lo, hi).to_owned()
    } else {
        String::new()
    }
}

/// Extract the JSON body of a raw device response, trimming whitespace and
/// NUL garbage and cutting after the last closing brace. Returns nothing
/// when the remainder does not form a `{`...`}` span.
pub fn extract_clean_json(response: &str) -> (r: Option<String>)
    ensures
        r is Some == clean_json_view(response@) is Some,
        r matches Some(out) ==> out@ == clean_json_view(response@).unwrap(),
{
    let t = trim_garbage(response);
    let m = t.as_str().unicode_len();
    let mut k: usize = m;
    while k > 0 && !(t.as_str().get_char(k - 1) == '}')
        invariant
            m == t@.len(),
            0 <= k <= m,
            last_brace(t@, m as int) == last_brace(t@, k as int),
        decreases k,
    {
        k = k - 1;
    }
    if k == 0 {
        assert(last_brace(t@, m as int) == -1);
        None
    } else {
        assert(last_brace(t@, m as int) == k - 1);
        if t.as_str().get_char(0) == '{' {
            let body = t.as_str().substring_char(0, k).to_owned();
            assert(body@ =~= t@.take(k - 1 + 1));
            Some(body)
        } else {
            None
        }
    }
}

/// Like `extract_clean_json`, but where no `{`...`}` span is found the
/// trimmed text is handed back unchanged so that the JSON parser can give
/// a more specific rejection.
pub fn extract_json(response: &str) -> (r: MinerResult<String>)
    ensures
        r matches Ok(out) && out@ == loose_clean_view(response@),
{
    match extract_clean_json(response) {
        Some(body) => Ok(body),
        None => Ok(trim_garbage(response)),
    }
}

} // verus!
