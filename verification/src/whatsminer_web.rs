//! The session/CSRF vendor control protocol.
//!
//! Logging in posts the credentials to a fixed path with a client that
//! does not follow redirects, so the session cookie on the redirect can
//! be captured; a rejected password is retried once with an empty one.
//! Every operation then makes two calls: a GET of a page whose HTML
//! embeds a one-time token, and a POST of the operation's form fields
//! together with that token. The same logical page lives under two path
//! prefixes depending on firmware; the first is tried and only a 404
//! falls back to the second. Configuration changes need a third call to
//! restart the mining daemon. This module extracts the tokens, encodes
//! the form bodies and decides the fallbacks; the HTTP calls run
//! outside.

use vstd::prelude::*;
use vstd::string::StringSliceAdditionalSpecFns;
use crate::btext::{is_bws, bscan_start, btrimmed, match_at, copy_range, append_bytes};

verus! {

/// A mining pool entry of the session family.
#[derive(Debug, Clone)]
pub struct WhatsminerPool {
    pub url: String,
    pub worker: String,
    pub password: String,
}

/// Index of the first single or double quote at or after `i`.
pub open spec fn quote_end(s: Seq<u8>, i: int) -> int
    decreases s.len() - i,
{
    if 0 <= i < s.len() {
        if s[i] == 39 || s[i] == 34 {
            i
        } else {
            quote_end(s, i + 1)
        }
    } else {
        s.len() as int
    }
}

/// Index of the first double quote at or after `i`.
pub open spec fn dquote_end(s: Seq<u8>, i: int) -> int
    decreases s.len() - i,
{
    if 0 <= i < s.len() {
        if s[i] == 34 {
            i
        } else {
            dquote_end(s, i + 1)
        }
    } else {
        s.len() as int
    }
}

fn quote_end_exec(s: &[u8], from: usize) -> (r: usize)
    requires
        from <= s@.len(),
    ensures
        r == quote_end(s@, from as int),
        from <= r <= s@.len(),
{
    let n = s.len();
    let mut k: usize = from;
    while k < n && !(s[k] == 39 || s[k] == 34)
        invariant
            n == s@.len(),
            from <= k <= n,
            quote_end(s@, from as int) == quote_end(s@, k as int),
        decreases n - k,
    {
        k = k + 1;
    }
    k
}

fn dquote_end_exec(s: &[u8], from: usize) -> (r: usize)
    requires
        from <= s@.len(),
    ensures
        r == dquote_end(s@, from as int),
        from <= r <= s@.len(),
{
    let n = s.len();
    let mut k: usize = from;
    while k < n && s[k] != 34
        invariant
            n == s@.len(),
            from <= k <= n,
            dquote_end(s@, from as int) == dquote_end(s@, k as int),
        decreases n - k,
    {
        k = k + 1;
    }
    k
}

/// The bytes of the fragment `token:`.
pub open spec fn script_token_pat() -> Seq<u8> {
    seq![116u8, 111u8, 107u8, 101u8, 110u8, 58u8]
}

/// The bytes of the fragment `name="token"`.
pub open spec fn attr_token_pat() -> Seq<u8> {
    seq![110u8, 97u8, 109u8, 101u8, 61u8, 34u8, 116u8, 111u8, 107u8, 101u8, 110u8, 34u8]
}

/// The bytes of the fragment `value="`.
pub open spec fn value_pat() -> Seq<u8> {
    seq![118u8, 97u8, 108u8, 117u8, 101u8, 61u8, 34u8]
}

fn script_token_pat_exec() -> (r: Vec<u8>)
    ensures
        r@ == script_token_pat(),
{
    let mut v: Vec<u8> = Vec::new();
    v.push(116);
    v.push(111);
    v.push(107);
    v.push(101);
    v.push(110);
    v.push(58);
    proof {
        assert(v@ =~= script_token_pat());
    }
    v
}

fn attr_token_pat_exec() -> (r: Vec<u8>)
    ensures
        r@ == attr_token_pat(),
{
    let mut v: Vec<u8> = Vec::new();
    v.push(110);
    v.push(97);
    v.push(109);
    v.push(101);
    v.push(61);
    v.push(34);
    v.push(116);
    v.push(111);
    v.push(107);
    v.push(101);
    v.push(110);
    v.push(34);
    proof {
        assert(v@ =~= attr_token_pat());
    }
    v
}

fn value_pat_exec() -> (r: Vec<u8>)
    ensures
        r@ == value_pat(),
{
    let mut v: Vec<u8> = Vec::new();
    v.push(118);
    v.push(97);
    v.push(108);
    v.push(117);
    v.push(101);
    v.push(61);
    v.push(34);
    proof {
        assert(v@ =~= value_pat());
    }
    v
}

/// The token that follows a `token:` fragment at `j`: optional
/// whitespace, an opening quote of either kind, at least one byte up to
/// the next quote of either kind, trimmed.
pub open spec fn token_at(html: Seq<u8>, j: int) -> Option<Seq<u8>> {
    let q = bscan_start(html, j);
    if 0 <= q < html.len() && (html[q] == 39 || html[q] == 34) {
        let e = quote_end(html, q + 1);
        if e < html.len() && e > q + 1 {
            Some(btrimmed(html.subrange(q + 1, e)))
        } else {
            None
        }
    } else {
        None
    }
}

/// The first `token:'...'` (or double-quoted) fragment of a reboot page.
pub open spec fn scan_script_token(html: Seq<u8>, i: int) -> Option<Seq<u8>>
    decreases html.len() - i,
{
    if !(0 <= i && i + 6 <= html.len()) {
        None
    } else if html.subrange(i, i + 6) == script_token_pat() && token_at(html, i + 6) is Some {
        token_at(html, i + 6)
    } else {
        scan_script_token(html, i + 1)
    }
}

/// The token an attribute pair `name="token" value="..."` carries at
/// `j` (just past `name="token"`): at least one whitespace byte, then
/// `value="`, then at least one byte up to the closing quote, trimmed.
pub open spec fn attr_token_at(html: Seq<u8>, j: int) -> Option<Seq<u8>> {
    let q = bscan_start(html, j);
    if q > j && q + 7 <= html.len() && html.subrange(q, q + 7) == value_pat() {
        let e = dquote_end(html, q + 7);
        if e < html.len() && e > q + 7 {
            Some(btrimmed(html.subrange(q + 7, e)))
        } else {
            None
        }
    } else {
        None
    }
}

/// The first `name="token" value="..."` fragment of a form page.
pub open spec fn scan_attr_token(html: Seq<u8>, i: int) -> Option<Seq<u8>>
    decreases html.len() - i,
{
    if !(0 <= i && i + 12 <= html.len()) {
        None
    } else if html.subrange(i, i + 12) == attr_token_pat() && attr_token_at(
        html,
        i + 12,
    ) is Some {
        attr_token_at(html, i + 12)
    } else {
        scan_attr_token(html, i + 1)
    }
}

fn token_at_exec(html: &[u8], j: usize) -> (r: Option<Vec<u8>>)
    requires
        j <= html@.len(),
    ensures
        r is Some == token_at(html@, j as int) is Some,
        r matches Some(v) ==> v@ == token_at(html@, j as int).unwrap(),
{
    let n = html.len();
    let mut q: usize = j;
    while q < n && crate::btext::is_ws_byte(html[q])
        invariant
            n == html@.len(),
            j <= q <= n,
            bscan_start(html@, j as int) == bscan_start(html@, q as int),
        decreases n - q,
    {
        q = q + 1;
    }
    assert(q == bscan_start(html@, j as int));
    if !(q < n && (html[q] == 39 || html[q] == 34)) {
        return None;
    }
    let e = quote_end_exec(html, q + 1);
    if e < n && e > q + 1 {
        let raw = copy_range(html, q + 1, e);
        let (lo, hi) = crate::btext::trim_bounds(raw.as_slice());
        let out = copy_range(raw.as_slice(), lo, hi);
        proof {
            if lo == hi {
                assert(out@ =~= btrimmed(raw@));
            }
        }
        Some(out)
    } else {
        None
    }
}

fn attr_token_at_exec(html: &[u8], j: usize) -> (r: Option<Vec<u8>>)
    requires
        j <= html@.len(),
    ensures
        r is Some == attr_token_at(html@, j as int) is Some,
        r matches Some(v) ==> v@ == attr_token_at(html@, j as int).unwrap(),
{
    let n = html.len();
    let mut q: usize = j;
    while q < n && crate::btext::is_ws_byte(html[q])
        invariant
            n == html@.len(),
            j <= q <= n,
            bscan_start(html@, j as int) == bscan_start(html@, q as int),
        decreases n - q,
    {
        q = q + 1;
    }
    assert(q == bscan_start(html@, j as int));
    let vp = value_pat_exec();
    if !(q > j && n - q >= 7 && match_at(html, vp.as_slice(), q)) {
        proof {
            if q > j && n - q >= 7 {
                assert(html@.subrange(q as int, q + 7) != value_pat());
            }
        }
        return None;
    }
    proof {
        assert(html@.subrange(q as int, q + 7) == value_pat());
    }
    let e = dquote_end_exec(html, q + 7);
    if e < n && e > q + 7 {
        let raw = copy_range(html, q + 7, e);
        let (lo, hi) = crate::btext::trim_bounds(raw.as_slice());
        let out = copy_range(raw.as_slice(), lo, hi);
        proof {
            if lo == hi {
                assert(out@ =~= btrimmed(raw@));
            }
        }
        Some(out)
    } else {
        None
    }
}


/// The bytes of the fragment `id="cbid.pools.default.coin_type`.
pub open spec fn coin_pat() -> Seq<u8> {
    seq![105u8, 100u8, 61u8, 34u8, 99u8, 98u8, 105u8, 100u8, 46u8, 112u8, 111u8, 111u8, 108u8, 115u8, 46u8, 100u8, 101u8, 102u8, 97u8, 117u8, 108u8, 116u8, 46u8, 99u8, 111u8, 105u8, 110u8, 95u8, 116u8, 121u8, 112u8, 101u8]
}

/// The bytes of the fragment `selected="selected"`.
pub open spec fn sel_pat() -> Seq<u8> {
    seq![115u8, 101u8, 108u8, 101u8, 99u8, 116u8, 101u8, 100u8, 61u8, 34u8, 115u8, 101u8, 108u8, 101u8, 99u8, 116u8, 101u8, 100u8, 34u8]
}

fn coin_pat_exec() -> (r: Vec<u8>)
    ensures
        r@ == coin_pat(),
{
    let mut v: Vec<u8> = Vec::new();
    v.push(105);
    v.push(100);
    v.push(61);
    v.push(34);
    v.push(99);
    v.push(98);
    v.push(105);
    v.push(100);
    v.push(46);
    v.push(112);
    v.push(111);
    v.push(111);
    v.push(108);
    v.push(115);
    v.push(46);
    v.push(100);
    v.push(101);
    v.push(102);
    v.push(97);
    v.push(117);
    v.push(108);
    v.push(116);
    v.push(46);
    v.push(99);
    v.push(111);
    v.push(105);
    v.push(110);
    v.push(95);
    v.push(116);
    v.push(121);
    v.push(112);
    v.push(101);
    proof {
        assert(v@ =~= coin_pat());
    }
    v
}

fn sel_pat_exec() -> (r: Vec<u8>)
    ensures
        r@ == sel_pat(),
{
    let mut v: Vec<u8> = Vec::new();
    v.push(115);
    v.push(101);
    v.push(108);
    v.push(101);
    v.push(99);
    v.push(116);
    v.push(101);
    v.push(100);
    v.push(61);
    v.push(34);
    v.push(115);
    v.push(101);
    v.push(108);
    v.push(101);
    v.push(99);
    v.push(116);
    v.push(101);
    v.push(100);
    v.push(34);
    proof {
        assert(v@ =~= sel_pat());
    }
    v
}

/// Whether `selected="selected"` occurs before the end of the current
/// tag (the next `>`), starting at `k`.
pub open spec fn sel_scan(html: Seq<u8>, k: int) -> bool
    decreases html.len() - k,
{
    if !(0 <= k < html.len()) {
        false
    } else if html[k] == 62 {
        false
    } else if k + 19 <= html.len() && html.subrange(k, k + 19) == sel_pat() {
        true
    } else {
        sel_scan(html, k + 1)
    }
}

/// The coin value carried by a marked coin-type input at `j` (just past
/// the pattern): the rest of the id attribute, whitespace, `value="`,
/// the (possibly empty) value, and a `selected="selected"` marker in
/// the same tag.
pub open spec fn coin_at(html: Seq<u8>, j: int) -> Option<Seq<u8>> {
    let a = dquote_end(html, j);
    if a >= html.len() {
        None
    } else {
        let q = bscan_start(html, a + 1);
        if q > a + 1 && q + 7 <= html.len() && html.subrange(q, q + 7) == value_pat() {
            let b = dquote_end(html, q + 7);
            if b < html.len() && sel_scan(html, b + 1) {
                Some(html.subrange(q + 7, b))
            } else {
                None
            }
        } else {
            None
        }
    }
}

/// The currently selected coin type of a pool configuration page.
pub open spec fn scan_coin(html: Seq<u8>, i: int) -> Option<Seq<u8>>
    decreases html.len() - i,
{
    if !(0 <= i && i + 32 <= html.len()) {
        None
    } else if html.subrange(i, i + 32) == coin_pat() && coin_at(html, i + 32) is Some {
        coin_at(html, i + 32)
    } else {
        scan_coin(html, i + 1)
    }
}

fn sel_scan_exec(html: &[u8], from: usize) -> (r: bool)
    requires
        from <= html@.len(),
    ensures
        r == sel_scan(html@, from as int),
{
    let n = html.len();
    let pat = sel_pat_exec();
    let mut k: usize = from;
    loop
        invariant
            n == html@.len(),
            from <= k <= n,
            pat@ == sel_pat(),
            sel_scan(html@, from as int) == sel_scan(html@, k as int),
        decreases n - k,
    {
        if k >= n {
            return false;
        }
        if html[k] == 62 {
            return false;
        }
        if n - k >= 19 && match_at(html, pat.as_slice(), k) {
            return true;
        }
        proof {
            if n - k >= 19 {
                assert(html@.subrange(k as int, k + 19) != sel_pat());
            }
        }
        k = k + 1;
    }
}

fn coin_at_exec(html: &[u8], j: usize) -> (r: Option<Vec<u8>>)
    requires
        j <= html@.len(),
    ensures
        r is Some == coin_at(html@, j as int) is Some,
        r matches Some(v) ==> v@ == coin_at(html@, j as int).unwrap(),
{
    let n = html.len();
    let a = dquote_end_exec(html, j);
    if a >= n {
        return None;
    }
    let mut q: usize = a + 1;
    while q < n && crate::btext::is_ws_byte(html[q])
        invariant
            n == html@.len(),
            a + 1 <= q <= n,
            bscan_start(html@, a + 1) == bscan_start(html@, q as int),
        decreases n - q,
    {
        q = q + 1;
    }
    assert(q == bscan_start(html@, a + 1));
    let vp = value_pat_exec();
    if !(q > a + 1 && n - q >= 7 && match_at(html, vp.as_slice(), q)) {
        proof {
            if q > a + 1 && n - q >= 7 {
                assert(html@.subrange(q as int, q + 7) != value_pat());
            }
        }
        return None;
    }
    proof {
        assert(html@.subrange(q as int, q + 7) == value_pat());
    }
    let b = dquote_end_exec(html, q + 7);
    if b < n && sel_scan_exec(html, b + 1) {
        Some(copy_range(html, q + 7, b))
    } else {
        None
    }
}

/// The client of the session/CSRF control surface. Token extraction,
/// form encoding and the path fallback decisions live here; the HTTP
/// calls run outside.
pub struct WhatsminerWebClient;

impl WhatsminerWebClient {
    /// Extract the one-time token of a reboot page: the first
    /// `token:'...'` fragment of its HTML.
    pub fn extract_script_token(html: &str) -> (r: Option<Vec<u8>>)
        ensures
            r is Some == scan_script_token(html.spec_bytes(), 0) is Some,
            r matches Some(v) ==> v@ == scan_script_token(html.spec_bytes(), 0).unwrap(),
    {
        let bytes = html.as_bytes();
        let pat = script_token_pat_exec();
        let n = bytes.len();
        let mut i: usize = 0;
        loop
            invariant
                bytes@ == html.spec_bytes(),
                n == bytes@.len(),
                0 <= i <= n,
                pat@ == script_token_pat(),
                scan_script_token(bytes@, 0) == scan_script_token(bytes@, i as int),
            decreases n - i,
        {
            if n - i < 6 {
                return None;
            }
            if match_at(bytes, pat.as_slice(), i) {
                match token_at_exec(bytes, i + 6) {
                    Some(v) => {
                        return Some(v);
                    },
                    None => {},
                }
            }
            proof {
                if bytes@.subrange(i as int, i + 6) == script_token_pat() {
                    assert(token_at(bytes@, i + 6) is None);
                }
            }
            i = i + 1;
        }
    }

    /// Extract the one-time token of a form page: the first
    /// `name="token" value="..."` fragment of its HTML.
    pub fn extract_form_token(html: &str) -> (r: Option<Vec<u8>>)
        ensures
            r is Some == scan_attr_token(html.spec_bytes(), 0) is Some,
            r matches Some(v) ==> v@ == scan_attr_token(html.spec_bytes(), 0).unwrap(),
    {
        let bytes = html.as_bytes();
        let pat = attr_token_pat_exec();
        let n = bytes.len();
        let mut i: usize = 0;
        loop
            invariant
                bytes@ == html.spec_bytes(),
                n == bytes@.len(),
                0 <= i <= n,
                pat@ == attr_token_pat(),
                scan_attr_token(bytes@, 0) == scan_attr_token(bytes@, i as int),
            decreases n - i,
        {
            if n - i < 12 {
                return None;
            }
            if match_at(bytes, pat.as_slice(), i) {
                match attr_token_at_exec(bytes, i + 12) {
                    Some(v) => {
                        return Some(v);
                    },
                    None => {},
                }
            }
            proof {
                if bytes@.subrange(i as int, i + 12) == attr_token_pat() {
                    assert(attr_token_at(bytes@, i + 12) is None);
                }
            }
            i = i + 1;
        }
    }


    /// Extract the currently selected coin type of a pool configuration
    /// page, to preserve it in the rewrite; the first coin-type input
    /// marked selected wins.
    pub fn extract_coin_type(html: &str) -> (r: Option<Vec<u8>>)
        ensures
            r is Some == scan_coin(html.spec_bytes(), 0) is Some,
            r matches Some(v) ==> v@ == scan_coin(html.spec_bytes(), 0).unwrap(),
    {
        let bytes = html.as_bytes();
        let pat = coin_pat_exec();
        let n = bytes.len();
        let mut i: usize = 0;
        loop
            invariant
                bytes@ == html.spec_bytes(),
                n == bytes@.len(),
                0 <= i <= n,
                pat@ == coin_pat(),
                scan_coin(bytes@, 0) == scan_coin(bytes@, i as int),
            decreases n - i,
        {
            if n - i < 32 {
                return None;
            }
            if match_at(bytes, pat.as_slice(), i) {
                match coin_at_exec(bytes, i + 32) {
                    Some(v) => {
                        return Some(v);
                    },
                    None => {},
                }
            }
            proof {
                if bytes@.subrange(i as int, i + 32) == coin_pat() {
                    assert(coin_at(bytes@, i + 32) is None);
                }
            }
            i = i + 1;
        }
    }

    /// The `miner_type` form value for a power mode: `Low` for sleep,
    /// `Normal` for mining.
    pub fn power_mode_label(sleep: bool) -> (r: &'static str)
        ensures
            sleep ==> r@ == "Low"@,
            !sleep ==> r@ == "Normal"@,
    {
        if sleep {
            "Low"
        } else {
            "Normal"
        }
    }

    /// Whether a login round succeeded: the interface answers 302 on
    /// success, and some firmware versions answer 200.
    pub fn login_ok(code: u16) -> (r: bool)
        ensures
            r == (code == 302 || code == 200),
    {
        code == 302 || code == 200
    }

    /// Whether a daemon restart call succeeded: 302 on success, 200 on
    /// some firmware versions.
    pub fn restart_ok(code: u16) -> (r: bool)
        ensures
            r == (code == 302 || code == 200),
    {
        code == 302 || code == 200
    }
}

/// What to do with a form page probe: use a 200 page, fall back to the
/// next path prefix on a 404 specifically, and fail on anything else.
pub enum PageProbe {
    Proceed,
    TryNext,
    Fail,
}

/// Classify a form page's HTTP status.
pub fn classify_config_page(status: u16) -> (r: PageProbe)
    ensures
        status == 200 ==> r is Proceed,
        status == 404 ==> r is TryNext,
        status != 200 && status != 404 ==> r is Fail,
{
    if status == 404 {
        PageProbe::TryNext
    } else if status == 200 {
        PageProbe::Proceed
    } else {
        PageProbe::Fail
    }
}

/// A byte that percent-encoding leaves as itself: an ASCII letter or
/// digit, or one of `-`, `.`, `_`, `~`.
pub open spec fn url_safe(b: u8) -> bool {
    (48 <= b && b <= 57) || (65 <= b && b <= 90) || (97 <= b && b <= 122) || b == 45 || b == 46
        || b == 95 || b == 126
}

/// Uppercase hex digit of a nibble.
pub open spec fn hex_digit(n: int) -> u8 {
    if n < 10 {
        (48 + n) as u8
    } else {
        (55 + n) as u8
    }
}

/// The percent-encoding of a byte string: safe bytes stand as
/// themselves, every other byte becomes `%` and two uppercase hex
/// digits.
pub open spec fn pct(s: Seq<u8>) -> Seq<u8>
    decreases s.len(),
{
    if s.len() == 0 {
        Seq::empty()
    } else {
        pct(s.drop_last()) + (if url_safe(s.last()) {
            seq![s.last()]
        } else {
            seq![37u8, hex_digit(s.last() as int / 16), hex_digit(s.last() as int % 16)]
        })
    }
}

/// Percent-encode a byte string for a form body.
pub fn url_encode(s: &[u8]) -> (r: Vec<u8>)
    ensures
        r@ == pct(s@),
{
    let n = s.len();
    let mut out: Vec<u8> = Vec::new();
    let mut i: usize = 0;
    while i < n
        invariant
            n == s@.len(),
            0 <= i <= n,
            out@ == pct(s@.take(i as int)),
        decreases n - i,
    {
        let b = s[i];
        proof {
            assert(s@.take(i + 1).drop_last() =~= s@.take(i as int));
            assert(s@.take(i + 1).last() == s@[i as int]);
        }
        if (48 <= b && b <= 57) || (65 <= b && b <= 90) || (97 <= b && b <= 122) || b == 45 || b
            == 46 || b == 95 || b == 126 {
            out.push(b);
        } else {
            out.push(37);
            let hi = b / 16;
            let lo = b % 16;
            out.push(
                if hi < 10 {
                    48 + hi
                } else {
                    55 + hi
                },
            );
            out.push(
                if lo < 10 {
                    48 + lo
                } else {
                    55 + lo
                },
            );
        }
        proof {
            assert(out@ =~= pct(s@.take(i + 1)));
        }
        i = i + 1;
    }
    proof {
        assert(s@.take(n as int) =~= s@);
    }
    out
}

/// The login form body: the two credential fields, percent-encoded.
pub open spec fn login_body_shape(u: Seq<char>, p: Seq<char>) -> Seq<u8> {
    "luci_username=".spec_bytes() + pct(vstd::utf8::encode_utf8(u)) + "&luci_password=".spec_bytes()
        + pct(vstd::utf8::encode_utf8(p))
}

/// Build the login form body.
pub fn login_form_body(username: &str, password: &str) -> (r: Vec<u8>)
    ensures
        r@ == login_body_shape(username@, password@),
{
    let mut out: Vec<u8> = Vec::new();
    append_bytes(&mut out, "luci_username=".as_bytes());
    let ue = url_encode(username.as_bytes());
    append_bytes(&mut out, ue.as_slice());
    append_bytes(&mut out, "&luci_password=".as_bytes());
    let pe = url_encode(password.as_bytes());
    append_bytes(&mut out, pe.as_slice());
    proof {
        assert(out@ =~= login_body_shape(username@, password@));
    }
    out
}

/// The reboot call body: the raw token, unencoded, as the interface
/// expects it.
pub fn reboot_call_body(token: &[u8]) -> (r: Vec<u8>)
    ensures
        r@ == "token=".spec_bytes() + token@,
{
    let mut out: Vec<u8> = Vec::new();
    append_bytes(&mut out, "token=".as_bytes());
    append_bytes(&mut out, token);
    out
}

/// The URL, worker and password of pool slot `i` (0-based), empty when
/// the list is shorter: the interface always receives three slots.
pub open spec fn pool_field(ps: Seq<WhatsminerPool>, i: int, which: int) -> Seq<u8> {
    if 0 <= i < ps.len() {
        if which == 0 {
            vstd::utf8::encode_utf8(ps[i].url@)
        } else if which == 1 {
            vstd::utf8::encode_utf8(ps[i].worker@)
        } else {
            vstd::utf8::encode_utf8(ps[i].password@)
        }
    } else {
        Seq::empty()
    }
}

/// The pool configuration form body: the token, the submit markers, the
/// preserved coin type and the three pool slots, all percent-encoded.
pub open spec fn pools_body_shape(
    token: Seq<u8>,
    coin: Seq<u8>,
    ps: Seq<WhatsminerPool>,
) -> Seq<u8> {
    "token=".spec_bytes() + pct(token)
        + "&cbi.submit=1&cbi.apply=1&cbid.pools.default.coin_type=".spec_bytes() + pct(coin)
        + "&cbid.pools.default.pool1url=".spec_bytes() + pct(pool_field(ps, 0, 0))
        + "&cbid.pools.default.pool1user=".spec_bytes() + pct(pool_field(ps, 0, 1))
        + "&cbid.pools.default.pool1pw=".spec_bytes() + pct(pool_field(ps, 0, 2))
        + "&cbid.pools.default.pool2url=".spec_bytes() + pct(pool_field(ps, 1, 0))
        + "&cbid.pools.default.pool2user=".spec_bytes() + pct(pool_field(ps, 1, 1))
        + "&cbid.pools.default.pool2pw=".spec_bytes() + pct(pool_field(ps, 1, 2))
        + "&cbid.pools.default.pool3url=".spec_bytes() + pct(pool_field(ps, 2, 0))
        + "&cbid.pools.default.pool3user=".spec_bytes() + pct(pool_field(ps, 2, 1))
        + "&cbid.pools.default.pool3pw=".spec_bytes() + pct(pool_field(ps, 2, 2))
}

fn push_pool_field(out: &mut Vec<u8>, pools: &Vec<WhatsminerPool>, i: usize, which: u8)
    requires
        which < 3,
    ensures
        final(out)@ == old(out)@ + pct(pool_field(pools@, i as int, which as int)),
{
    if i < pools.len() {
        let field = if which == 0 {
            pools[i].url.as_str().as_bytes()
        } else if which == 1 {
            pools[i].worker.as_str().as_bytes()
        } else {
            pools[i].password.as_str().as_bytes()
        };
        let enc = url_encode(field);
        append_bytes(out, enc.as_slice());
    } else {
        proof {
            assert(pct(Seq::<u8>::empty()) =~= Seq::<u8>::empty());
            assert(out@ =~= old(out)@ + pct(pool_field(pools@, i as int, which as int)));
        }
    }
}

/// Build the pool configuration form body; a list shorter than three is
/// padded with empty slots.
pub fn pools_form_body(token: &[u8], coin: &[u8], pools: &Vec<WhatsminerPool>) -> (r: Vec<u8>)
    ensures
        r@ == pools_body_shape(token@, coin@, pools@),
{
    let mut out: Vec<u8> = Vec::new();
    append_bytes(&mut out, "token=".as_bytes());
    let te = url_encode(token);
    append_bytes(&mut out, te.as_slice());
    append_bytes(&mut out, "&cbi.submit=1&cbi.apply=1&cbid.pools.default.coin_type=".as_bytes());
    let ce = url_encode(coin);
    append_bytes(&mut out, ce.as_slice());
    append_bytes(&mut out, "&cbid.pools.default.pool1url=".as_bytes());
    push_pool_field(&mut out, pools, 0, 0);
    append_bytes(&mut out, "&cbid.pools.default.pool1user=".as_bytes());
    push_pool_field(&mut out, pools, 0, 1);
    append_bytes(&mut out, "&cbid.pools.default.pool1pw=".as_bytes());
    push_pool_field(&mut out, pools, 0, 2);
    append_bytes(&mut out, "&cbid.pools.default.pool2url=".as_bytes());
    push_pool_field(&mut out, pools, 1, 0);
    append_bytes(&mut out, "&cbid.pools.default.pool2user=".as_bytes());
    push_pool_field(&mut out, pools, 1, 1);
    append_bytes(&mut out, "&cbid.pools.default.pool2pw=".as_bytes());
    push_pool_field(&mut out, pools, 1, 2);
    append_bytes(&mut out, "&cbid.pools.default.pool3url=".as_bytes());
    push_pool_field(&mut out, pools, 2, 0);
    append_bytes(&mut out, "&cbid.pools.default.pool3user=".as_bytes());
    push_pool_field(&mut out, pools, 2, 1);
    append_bytes(&mut out, "&cbid.pools.default.pool3pw=".as_bytes());
    push_pool_field(&mut out, pools, 2, 2);
    proof {
        assert(out@ =~= pools_body_shape(token@, coin@, pools@));
    }
    out
}

/// The power mode form body: the token, the submit markers, and the
/// program's miner-type field set to the mode value.
pub open spec fn power_body_shape(token: Seq<u8>, program: Seq<u8>, mode: Seq<char>) -> Seq<u8> {
    "token=".spec_bytes() + pct(token) + "&cbi.submit=1&cbi.apply=1&".spec_bytes() + pct(
        "cbid.".spec_bytes() + program + ".default.miner_type".spec_bytes(),
    ) + "=".spec_bytes() + pct(vstd::utf8::encode_utf8(mode))
}

/// Build the power mode form body.
pub fn power_form_body(token: &[u8], program: &[u8], mode: &str) -> (r: Vec<u8>)
    ensures
        r@ == power_body_shape(token@, program@, mode@),
{
    let mut out: Vec<u8> = Vec::new();
    append_bytes(&mut out, "token=".as_bytes());
    let te = url_encode(token);
    append_bytes(&mut out, te.as_slice());
    append_bytes(&mut out, "&cbi.submit=1&cbi.apply=1&".as_bytes());
    let mut field: Vec<u8> = Vec::new();
    append_bytes(&mut field, "cbid.".as_bytes());
    append_bytes(&mut field, program);
    append_bytes(&mut field, ".default.miner_type".as_bytes());
    let fe = url_encode(field.as_slice());
    append_bytes(&mut out, fe.as_slice());
    append_bytes(&mut out, "=".as_bytes());
    let me = url_encode(mode.as_bytes());
    append_bytes(&mut out, me.as_slice());
    proof {
        assert(out@ =~= power_body_shape(token@, program@, mode@));
    }
    out
}

} // verus!
