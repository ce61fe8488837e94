//! The status protocol's wire format, and the neighbor-table lookup.
//!
//! A request is a single JSON envelope `{"command": <name>,
//! "parameter": ""}` on an unframed TCP stream; the peer closes the
//! connection to end its response. The socket work lives outside; this
//! module builds the exact request bytes and reads the operating
//! system's neighbor-table output for a best-effort MAC address.

use vstd::prelude::*;
use vstd::string::StringSliceAdditionalSpecFns;
use crate::btext::{is_bws, all_ascii, ascii_to_string, copy_range};
use crate::json::{Json, JsonV, jview, ser_json, json_to_bytes};
use crate::numbers::is_ascii_digit;
use crate::range::{find_byte, find_byte_exec};

verus! {

/// Default status protocol port.
pub const DEFAULT_PORT: u16 = 4028;

/// Default connection timeout in milliseconds.
pub const DEFAULT_TIMEOUT_MS: u64 = 1500;

/// The request envelope for a command name: a two-field JSON object
/// with an empty parameter.
pub open spec fn request_envelope(cmd: Seq<u8>) -> Seq<u8> {
    ser_json(
        JsonV::Obj(
            seq![
                ("command".spec_bytes(), JsonV::Str(cmd)),
                ("parameter".spec_bytes(), JsonV::Str(Seq::empty())),
            ],
        ),
    )
}

/// Build the exact request bytes for a command name.
pub fn build_request(command: &str) -> (r: Vec<u8>)
    ensures
        r@ == request_envelope(command.spec_bytes()),
{
    let cmd_bytes = command.as_bytes();
    let cmd = copy_range(cmd_bytes, 0, cmd_bytes.len());
    proof {
        assert(cmd@ =~= command.spec_bytes());
    }
    let kc = "command".as_bytes();
    let key_c = copy_range(kc, 0, kc.len());
    let kp = "parameter".as_bytes();
    let key_p = copy_range(kp, 0, kp.len());
    proof {
        assert(key_c@ =~= "command".spec_bytes());
        assert(key_p@ =~= "parameter".spec_bytes());
    }
    let mut fields: Vec<(Vec<u8>, Json)> = Vec::new();
    fields.push((key_c, Json::Str(cmd)));
    fields.push((key_p, Json::Str(Vec::new())));
    let ghost gfs = fields@;
    let obj = Json::Obj(fields);
    proof {
        crate::json::lemma_jview_fields_index(gfs);
        assert(jview(obj) == JsonV::Obj(crate::json::jview_fields(gfs)));
        assert(crate::json::jview_fields(gfs) =~= seq![
            ("command".spec_bytes(), JsonV::Str(command.spec_bytes())),
            ("parameter".spec_bytes(), JsonV::Str(Seq::empty())),
        ]);
    }
    json_to_bytes(&obj)
}

/// ASCII hex digit.
pub open spec fn is_hex_digit(b: u8) -> bool {
    is_ascii_digit(b) || (97 <= b && b <= 102) || (65 <= b && b <= 70)
}

/// ASCII uppercase of one byte.
pub open spec fn up_byte(b: u8) -> u8 {
    if 97 <= b && b <= 122 {
        (b - 32) as u8
    } else {
        b
    }
}

/// A MAC group: one or two hex digits.
pub open spec fn mac_group_ok(g: Seq<u8>) -> bool {
    (g.len() == 1 && is_hex_digit(g[0])) || (g.len() == 2 && is_hex_digit(g[0]) && is_hex_digit(
        g[1],
    ))
}

/// A group normalized: padded to two digits and uppercased.
pub open spec fn norm_group(g: Seq<u8>) -> Seq<u8> {
    if g.len() == 1 {
        seq![48u8, up_byte(g[0])]
    } else {
        seq![up_byte(g[0]), up_byte(g[1])]
    }
}

/// Whether a word is a MAC address: exactly six colon-separated groups
/// of one or two hex digits.
pub open spec fn is_mac_word(w: Seq<u8>) -> bool {
    let c1 = find_byte(w, 58, 0);
    let c2 = find_byte(w, 58, c1 + 1);
    let c3 = find_byte(w, 58, c2 + 1);
    let c4 = find_byte(w, 58, c3 + 1);
    let c5 = find_byte(w, 58, c4 + 1);
    &&& c1 < w.len()
    &&& c2 < w.len()
    &&& c3 < w.len()
    &&& c4 < w.len()
    &&& c5 < w.len()
    &&& find_byte(w, 58, c5 + 1) == w.len()
    &&& mac_group_ok(w.subrange(0, c1))
    &&& mac_group_ok(w.subrange(c1 + 1, c2))
    &&& mac_group_ok(w.subrange(c2 + 1, c3))
    &&& mac_group_ok(w.subrange(c3 + 1, c4))
    &&& mac_group_ok(w.subrange(c4 + 1, c5))
    &&& mac_group_ok(w.subrange(c5 + 1, w.len() as int))
}

/// The normalized form of a MAC word: each group two uppercase digits,
/// joined by colons.
pub open spec fn mac_norm(w: Seq<u8>) -> Seq<u8> {
    let c1 = find_byte(w, 58, 0);
    let c2 = find_byte(w, 58, c1 + 1);
    let c3 = find_byte(w, 58, c2 + 1);
    let c4 = find_byte(w, 58, c3 + 1);
    let c5 = find_byte(w, 58, c4 + 1);
    norm_group(w.subrange(0, c1)) + seq![58u8] + norm_group(w.subrange(c1 + 1, c2)) + seq![58u8]
        + norm_group(w.subrange(c2 + 1, c3)) + seq![58u8] + norm_group(w.subrange(c3 + 1, c4))
        + seq![58u8] + norm_group(w.subrange(c4 + 1, c5)) + seq![58u8] + norm_group(
        w.subrange(c5 + 1, w.len() as int),
    )
}

/// Scan whitespace-separated words for the first MAC address, with the
/// current word accumulated in `cur`.
pub open spec fn mac_scan(s: Seq<u8>, i: int, cur: Seq<u8>) -> Option<Seq<u8>>
    decreases s.len() - i,
{
    if !(0 <= i < s.len()) {
        if is_mac_word(cur) {
            Some(mac_norm(cur))
        } else {
            None
        }
    } else if is_bws(s[i]) {
        if is_mac_word(cur) {
            Some(mac_norm(cur))
        } else {
            mac_scan(s, i + 1, Seq::empty())
        }
    } else {
        mac_scan(s, i + 1, cur.push(s[i]))
    }
}

/// The first MAC address among the words of the neighbor-table output,
/// normalized.
pub open spec fn mac_of_output(s: Seq<u8>) -> Option<Seq<u8>> {
    mac_scan(s, 0, Seq::empty())
}

fn hex_exec(b: u8) -> (r: bool)
    ensures
        r == is_hex_digit(b),
{
    (48 <= b && b <= 57) || (97 <= b && b <= 102) || (65 <= b && b <= 70)
}

fn up_exec(b: u8) -> (r: u8)
    ensures
        r == up_byte(b),
{
    if 97 <= b && b <= 122 {
        b - 32
    } else {
        b
    }
}

fn group_check(w: &[u8], from: usize, to: usize) -> (r: bool)
    requires
        from <= to <= w@.len(),
    ensures
        r == mac_group_ok(w@.subrange(from as int, to as int)),
{
    if to - from == 1 {
        hex_exec(w[from])
    } else if to - from == 2 {
        hex_exec(w[from]) && hex_exec(w[from + 1])
    } else {
        false
    }
}

fn push_norm(out: &mut Vec<u8>, w: &[u8], from: usize, to: usize)
    requires
        from <= to <= w@.len(),
        mac_group_ok(w@.subrange(from as int, to as int)),
    ensures
        final(out)@ == old(out)@ + norm_group(w@.subrange(from as int, to as int)),
{
    if to - from == 1 {
        out.push(48);
        out.push(up_exec(w[from]));
        proof {
            assert(out@ =~= old(out)@ + norm_group(w@.subrange(from as int, to as int)));
        }
    } else {
        out.push(up_exec(w[from]));
        out.push(up_exec(w[from + 1]));
        proof {
            assert(out@ =~= old(out)@ + norm_group(w@.subrange(from as int, to as int)));
        }
    }
}

fn mac_word_exec(w: &[u8]) -> (r: Option<Vec<u8>>)
    ensures
        r is Some == is_mac_word(w@),
        r matches Some(v) ==> v@ == mac_norm(w@),
{
    let n = w.len();
    let c1 = find_byte_exec(w, 58, 0);
    if c1 == n {
        return None;
    }
    let c2 = find_byte_exec(w, 58, c1 + 1);
    if c2 == n {
        return None;
    }
    let c3 = find_byte_exec(w, 58, c2 + 1);
    if c3 == n {
        return None;
    }
    let c4 = find_byte_exec(w, 58, c3 + 1);
    if c4 == n {
        return None;
    }
    let c5 = find_byte_exec(w, 58, c4 + 1);
    if c5 == n {
        return None;
    }
    if find_byte_exec(w, 58, c5 + 1) != n {
        return None;
    }
    if !(group_check(w, 0, c1) && group_check(w, c1 + 1, c2) && group_check(w, c2 + 1, c3)
        && group_check(w, c3 + 1, c4) && group_check(w, c4 + 1, c5) && group_check(w, c5 + 1, n)) {
        return None;
    }
    let mut out: Vec<u8> = Vec::new();
    push_norm(&mut out, w, 0, c1);
    out.push(58);
    push_norm(&mut out, w, c1 + 1, c2);
    out.push(58);
    push_norm(&mut out, w, c2 + 1, c3);
    out.push(58);
    push_norm(&mut out, w, c3 + 1, c4);
    out.push(58);
    push_norm(&mut out, w, c4 + 1, c5);
    out.push(58);
    push_norm(&mut out, w, c5 + 1, n);
    proof {
        assert(out@ =~= mac_norm(w@));
    }
    Some(out)
}

fn mac_scan_exec(s: &[u8], b: usize, i: usize) -> (r: Option<Vec<u8>>)
    requires
        b <= i <= s@.len(),
    ensures
        r is Some == mac_scan(s@, i as int, s@.subrange(b as int, i as int)) is Some,
        r matches Some(v) ==> v@ == mac_scan(s@, i as int, s@.subrange(b as int, i as int)).unwrap(),
    decreases s@.len() - i,
{
    let n = s.len();
    if i >= n {
        let cur = copy_range(s, b, i);
        mac_word_exec(cur.as_slice())
    } else if crate::btext::is_ws_byte(s[i]) {
        let cur = copy_range(s, b, i);
        match mac_word_exec(cur.as_slice()) {
            Some(v) => Some(v),
            None => {
                proof {
                    assert(s@.subrange(i + 1, i + 1) =~= Seq::<u8>::empty());
                }
                mac_scan_exec(s, i + 1, i + 1)
            },
        }
    } else {
        proof {
            assert(s@.subrange(b as int, i + 1) =~= s@.subrange(b as int, i as int).push(
                s@[i as int],
            ));
        }
        mac_scan_exec(s, b, i + 1)
    }
}

proof fn lemma_norm_ascii(g: Seq<u8>)
    requires
        mac_group_ok(g),
    ensures
        norm_group(g).len() == 2,
        norm_group(g)[0] < 128,
        norm_group(g)[1] < 128,
{
}

proof fn lemma_mac_norm_ascii(w: Seq<u8>)
    requires
        is_mac_word(w),
    ensures
        all_ascii(mac_norm(w)),
{
    let c1 = find_byte(w, 58, 0);
    let c2 = find_byte(w, 58, c1 + 1);
    let c3 = find_byte(w, 58, c2 + 1);
    let c4 = find_byte(w, 58, c3 + 1);
    let c5 = find_byte(w, 58, c4 + 1);
    lemma_norm_ascii(w.subrange(0, c1));
    lemma_norm_ascii(w.subrange(c1 + 1, c2));
    lemma_norm_ascii(w.subrange(c2 + 1, c3));
    lemma_norm_ascii(w.subrange(c3 + 1, c4));
    lemma_norm_ascii(w.subrange(c4 + 1, c5));
    lemma_norm_ascii(w.subrange(c5 + 1, w.len() as int));
    assert forall|i: int| 0 <= i < mac_norm(w).len() implies #[trigger] mac_norm(w)[i] < 128 by {
        assert(mac_norm(w).len() == 17);
    }
}

proof fn lemma_mac_scan_ascii(s: Seq<u8>, i: int, cur: Seq<u8>)
    requires
        0 <= i <= s.len(),
        mac_scan(s, i, cur) is Some,
    ensures
        all_ascii(mac_scan(s, i, cur).unwrap()),
    decreases s.len() - i,
{
    if !(0 <= i < s.len()) {
        lemma_mac_norm_ascii(cur);
    } else if is_bws(s[i]) {
        if is_mac_word(cur) {
            lemma_mac_norm_ascii(cur);
        } else {
            lemma_mac_scan_ascii(s, i + 1, Seq::empty());
        }
    } else {
        lemma_mac_scan_ascii(s, i + 1, cur.push(s[i]));
    }
}

/// Parse a MAC address out of the operating system's neighbor-table
/// output: the first whitespace-separated word of six colon-separated
/// one-or-two-digit hex groups, normalized to two uppercase digits per
/// group.
pub fn parse_mac_from_arp_output(output: &str) -> (r: Option<String>)
    ensures
        r is Some == mac_of_output(output.spec_bytes()) is Some,
        r matches Some(s) ==> s@.len() == mac_of_output(output.spec_bytes()).unwrap().len()
            && (forall|i: int|
            0 <= i < s@.len() ==> #[trigger] s@[i] == mac_of_output(
                output.spec_bytes(),
            ).unwrap()[i] as char),
{
    let bytes = output.as_bytes();
    proof {
        assert(bytes@.subrange(0, 0) =~= Seq::<u8>::empty());
    }
    match mac_scan_exec(bytes, 0, 0) {
        Some(v) => {
            proof {
                lemma_mac_scan_ascii(bytes@, 0, Seq::empty());
            }
            Some(ascii_to_string(&v))
        },
        None => None,
    }
}

} // verus!
