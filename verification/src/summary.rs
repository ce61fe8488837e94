//! Parsing of the `summary` status response into a statistics snapshot.
//!
//! Two vendor families share one wire shape but differ in their fields.
//! Vendor detection happens once, from the summary response itself: a
//! firmware-version field, or a status description naming the vendor,
//! selects the Whatsminer parser; anything else is treated as Antminer.
//! Hashrates arrive in one of three encodings — a raw MH/s number, a raw
//! GH/s number, or a suffixed string — and are all converted to
//! thousandths of a TH/s.

use vstd::prelude::*;
use vstd::string::StringSliceAdditionalSpecFns;
use crate::btext::{contains_seq, lower_seq, to_lower_bytes, contains_bytes, all_ascii,
    bytes_to_string_lossy};
use crate::error::{MinerError, MinerResult};
use crate::json::{Json, JsonV, jview, jget, jat, jv_str, jv_milli, jv_u64, get_field, get_index,
    as_str_bytes, num_milli, num_u64, parse_json, parse_json_spec};
use crate::models::MinerStats;
use crate::readings::{hashrate_ok, hashrate_milli, parse_hashrate_bytes};

verus! {

/// Signed division truncating toward zero, as the hardware does.
pub open spec fn div_trunc(a: int, d: int) -> int {
    if a >= 0 {
        a / d
    } else {
        -((-a) / d)
    }
}

/// Truncating division of a reading by a positive unit factor.
fn div_milli(a: i64, d: u64) -> (r: i64)
    requires
        1000 <= d <= 1000000,
    ensures
        r == div_trunc(a as int, d as int),
{
    if a >= 0 {
        proof {
            vstd::arithmetic::div_mod::lemma_div_is_ordered_by_denominator(
                a as int,
                1,
                d as int,
            );
        }
        (a as u64 / d) as i64
    } else {
        let m = if a == i64::MIN {
            // Magnitude of the most negative value, divided first.
            proof {
                vstd::arithmetic::div_mod::lemma_div_is_ordered_by_denominator(
                    9223372036854775808,
                    1000,
                    d as int,
                );
            }
            (9223372036854775808u64 / d) as i64
        } else {
            proof {
                vstd::arithmetic::div_mod::lemma_div_is_ordered_by_denominator(
                    -(a as int),
                    1,
                    d as int,
                );
            }
            ((-a) as u64 / d) as i64
        };
        proof {
            if a == i64::MIN {
                assert((-(a as int)) == 9223372036854775808);
            }
        }
        -m
    }
}

/// Numeric field of a summary object, in thousandths.
pub open spec fn sum_num_milli(s: JsonV, key: Seq<u8>) -> Option<int> {
    match jget(s, key) {
        Some(v) => jv_milli(v),
        None => None,
    }
}

/// Unsigned integer field of a summary object.
pub open spec fn sum_u64_val(s: JsonV, key: Seq<u8>) -> Option<int> {
    match jget(s, key) {
        Some(v) => jv_u64(v),
        None => None,
    }
}

/// String field of a summary object.
pub open spec fn sum_str_val(s: JsonV, key: Seq<u8>) -> Option<Seq<u8>> {
    match jget(s, key) {
        Some(v) => jv_str(v),
        None => None,
    }
}

fn field_milli(s: &Json, key: &str) -> (r: Option<i64>)
    ensures
        r is Some == sum_num_milli(jview(*s), key.spec_bytes()) is Some,
        r matches Some(v) ==> v == sum_num_milli(jview(*s), key.spec_bytes()).unwrap(),
{
    match get_field(s, key.as_bytes()) {
        Some(v) => num_milli(v),
        None => None,
    }
}

fn field_u64(s: &Json, key: &str) -> (r: Option<u64>)
    ensures
        r is Some == sum_u64_val(jview(*s), key.spec_bytes()) is Some,
        r matches Some(v) ==> v == sum_u64_val(jview(*s), key.spec_bytes()).unwrap(),
{
    match get_field(s, key.as_bytes()) {
        Some(v) => num_u64(v),
        None => None,
    }
}

fn field_str<'a>(s: &'a Json, key: &str) -> (r: Option<&'a Vec<u8>>)
    ensures
        r is Some == sum_str_val(jview(*s), key.spec_bytes()) is Some,
        r matches Some(v) ==> v@ == sum_str_val(jview(*s), key.spec_bytes()).unwrap(),
{
    match get_field(s, key.as_bytes()) {
        Some(v) => as_str_bytes(v),
        None => None,
    }
}

/// The average hashrate an Antminer-style summary denotes, in
/// thousandths of a TH/s: an `MHS av` number, else a `GHS av` number,
/// else an `HS 5s` suffixed string, else zero. `None` when a suffixed
/// string is present but malformed.
pub open spec fn ant_avg(s: JsonV) -> Option<int> {
    match sum_num_milli(s, "MHS av".spec_bytes()) {
        Some(m) => Some(div_trunc(m, 1000000)),
        None => match sum_num_milli(s, "GHS av".spec_bytes()) {
            Some(g) => Some(div_trunc(g, 1000)),
            None => match sum_str_val(s, "HS 5s".spec_bytes()) {
                Some(h) => if hashrate_ok(h) {
                    Some(hashrate_milli(h))
                } else {
                    None
                },
                None => Some(0),
            },
        },
    }
}

/// The real-time hashrate of an Antminer-style summary: `GHS 5s`, else
/// `MHS 5s`, else the `HS 5s` string, else the average itself. All
/// three encodings of the table — raw MH/s, raw GH/s, suffixed string —
/// are deliberately accepted for the realtime reading too.
pub open spec fn ant_rt(s: JsonV, avg: int) -> Option<int> {
    match sum_num_milli(s, "GHS 5s".spec_bytes()) {
        Some(g) => Some(div_trunc(g, 1000)),
        None => match sum_num_milli(s, "MHS 5s".spec_bytes()) {
            Some(m) => Some(div_trunc(m, 1000000)),
            None => match sum_str_val(s, "HS 5s".spec_bytes()) {
                Some(h) => if hashrate_ok(h) {
                    Some(hashrate_milli(h))
                } else {
                    None
                },
                None => Some(avg),
            },
        },
    }
}

/// Uptime seconds reported by a summary; zero when absent.
pub open spec fn sum_uptime(s: JsonV) -> int {
    match sum_u64_val(s, "Elapsed".spec_bytes()) {
        Some(u) => u,
        None => 0,
    }
}

/// Whether an Antminer-style summary yields a snapshot.
pub open spec fn ant_summary_ok(s: JsonV) -> bool {
    &&& ant_avg(s) is Some
    &&& ant_rt(s, ant_avg(s).unwrap()) is Some
}

/// What the Antminer parser reads from a summary: the two hashrates and
/// the uptime; temperatures, fans, pools and labels are left for the
/// detail commands.
pub open spec fn ant_stats_match(st: MinerStats, s: JsonV) -> bool {
    &&& st.hashrate_avg == ant_avg(s).unwrap()
    &&& st.hashrate_rt == ant_rt(s, ant_avg(s).unwrap()).unwrap()
    &&& st.uptime == sum_uptime(s)
    &&& st.temp_outlet_min@.len() == 0
    &&& st.temp_outlet_max@.len() == 0
    &&& st.temp_inlet_min@.len() == 0
    &&& st.temp_inlet_max@.len() == 0
    &&& st.fan_speeds@.len() == 0
    &&& st.pool1 is None && st.worker1 is None
    &&& st.pool2 is None && st.worker2 is None
    &&& st.pool3 is None && st.worker3 is None
    &&& st.model is None && st.firmware is None && st.software is None
    &&& st.hardware is None && st.mac_address is None
}

proof fn lemma_milli_range(s: JsonV, key: Seq<u8>)
    requires
        sum_num_milli(s, key) is Some,
    ensures
        -1000000000000001000 < sum_num_milli(s, key).unwrap() < 1000000000000001000,
{
    match jget(s, key) {
        Some(v) => {
            crate::json::lemma_jv_milli_range(v);
        },
        None => {},
    }
}

fn hashrate_of_string(h: &Vec<u8>) -> (r: MinerResult<i64>)
    ensures
        r is Ok == hashrate_ok(h@),
        r matches Ok(v) ==> v == hashrate_milli(h@),
        r matches Err(e) ==> e is InvalidResponse,
{
    parse_hashrate_bytes(h.as_slice())
}

/// Parse an Antminer-style summary object into a snapshot.
pub fn antminer_parse_summary(summary: &Json) -> (r: MinerResult<MinerStats>)
    ensures
        r is Ok == ant_summary_ok(jview(*summary)),
        r matches Ok(st) ==> ant_stats_match(st, jview(*summary)),
        r matches Err(e) ==> e is InvalidResponse,
{
    let ghost s = jview(*summary);
    let avg: i64 = match field_milli(summary, "MHS av") {
        Some(m) => {
            proof {
                lemma_milli_range(s, "MHS av".spec_bytes());
            }
            div_milli(m, 1000000)
        },
        None => match field_milli(summary, "GHS av") {
            Some(g) => {
                proof {
                    lemma_milli_range(s, "GHS av".spec_bytes());
                }
                div_milli(g, 1000)
            },
            None => match field_str(summary, "HS 5s") {
                Some(h) => match hashrate_of_string(h) {
                    Ok(v) => v,
                    Err(e) => {
                        return Err(e);
                    },
                },
                None => 0,
            },
        },
    };
    let rt: i64 = match field_milli(summary, "GHS 5s") {
        Some(g) => {
            proof {
                lemma_milli_range(s, "GHS 5s".spec_bytes());
            }
            div_milli(g, 1000)
        },
        None => match field_milli(summary, "MHS 5s") {
            Some(m) => {
                proof {
                    lemma_milli_range(s, "MHS 5s".spec_bytes());
                }
                div_milli(m, 1000000)
            },
            None => match field_str(summary, "HS 5s") {
                Some(h) => match hashrate_of_string(h) {
                    Ok(v) => v,
                    Err(e) => {
                        return Err(e);
                    },
                },
                None => avg,
            },
        },
    };
    let uptime: u64 = match field_u64(summary, "Elapsed") {
        Some(u) => u,
        None => 0,
    };
    Ok(MinerStats {
        hashrate_rt: rt,
        hashrate_avg: avg,
        temp_outlet_min: Vec::new(),
        temp_outlet_max: Vec::new(),
        temp_inlet_min: Vec::new(),
        temp_inlet_max: Vec::new(),
        fan_speeds: Vec::new(),
        uptime,
        pool1: None,
        worker1: None,
        pool2: None,
        worker2: None,
        pool3: None,
        worker3: None,
        model: None,
        firmware: None,
        software: None,
        hardware: None,
        mac_address: None,
    })
}

/// Remove every single-quote character from a byte string.
pub open spec fn strip_quotes(s: Seq<u8>) -> Seq<u8>
    decreases s.len(),
{
    if s.len() == 0 {
        Seq::empty()
    } else {
        strip_quotes(s.drop_last()) + (if s.last() == 39 {
            Seq::<u8>::empty()
        } else {
            seq![s.last()]
        })
    }
}

fn strip_quotes_exec(s: &[u8]) -> (r: Vec<u8>)
    ensures
        r@ == strip_quotes(s@),
{
    let n = s.len();
    let mut out: Vec<u8> = Vec::new();
    let mut i: usize = 0;
    while i < n
        invariant
            n == s@.len(),
            0 <= i <= n,
            out@ == strip_quotes(s@.take(i as int)),
        decreases n - i,
    {
        proof {
            assert(s@.take(i + 1).drop_last() =~= s@.take(i as int));
            assert(s@.take(i + 1).last() == s@[i as int]);
        }
        if s[i] != 39 {
            out.push(s[i]);
        }
        proof {
            assert(out@ =~= strip_quotes(s@.take(i + 1)));
        }
        i = i + 1;
    }
    proof {
        assert(s@.take(n as int) =~= s@);
    }
    out
}

/// The real-time hashrate of a Whatsminer-style summary: `MHS 5s`, else
/// the `HS 5s` string, else zero.
pub open spec fn wm_rt(s: JsonV) -> Option<int> {
    match sum_num_milli(s, "MHS 5s".spec_bytes()) {
        Some(m) => Some(div_trunc(m, 1000000)),
        None => match sum_str_val(s, "HS 5s".spec_bytes()) {
            Some(h) => if hashrate_ok(h) {
                Some(hashrate_milli(h))
            } else {
                None
            },
            None => Some(0),
        },
    }
}

/// The average hashrate of a Whatsminer-style summary: `MHS av`, else
/// the real-time value.
pub open spec fn wm_avg(s: JsonV, rt: int) -> int {
    match sum_num_milli(s, "MHS av".spec_bytes()) {
        Some(m) => div_trunc(m, 1000000),
        None => rt,
    }
}

/// A fan speed field, clamped into 32 bits.
pub open spec fn wm_fan(s: JsonV, key: Seq<u8>) -> Option<int> {
    match sum_u64_val(s, key) {
        Some(v) => Some(
            if v > 0xFFFFFFFF {
                0xFFFFFFFF
            } else {
                v
            },
        ),
        None => None,
    }
}

/// One temperature slot from an optional reading.
pub open spec fn opt_slot_i64(v: Option<int>) -> Seq<Option<i64>> {
    match v {
        Some(x) => seq![Some(x as i64)],
        None => Seq::empty(),
    }
}

/// One fan slot from an optional reading.
pub open spec fn opt_slot_u32(v: Option<int>) -> Seq<Option<u32>> {
    match v {
        Some(x) => seq![Some(x as u32)],
        None => Seq::empty(),
    }
}

/// Whether a Whatsminer-style summary yields a snapshot.
pub open spec fn wm_summary_ok(s: JsonV) -> bool {
    wm_rt(s) is Some
}

/// What the Whatsminer parser reads from a summary: hashrates, chip and
/// environment temperatures, the two fan speeds, uptime and the firmware
/// label with its stray quote characters removed.
pub open spec fn wm_stats_match(st: MinerStats, s: JsonV) -> bool {
    &&& st.hashrate_rt == wm_rt(s).unwrap()
    &&& st.hashrate_avg == wm_avg(s, wm_rt(s).unwrap())
    &&& st.uptime == sum_uptime(s)
    &&& st.temp_outlet_min@ == opt_slot_i64(sum_num_milli(s, "Chip Temp Min".spec_bytes()))
    &&& st.temp_outlet_max@ == opt_slot_i64(sum_num_milli(s, "Chip Temp Max".spec_bytes()))
    &&& st.temp_inlet_min@ == opt_slot_i64(sum_num_milli(s, "Temperature".spec_bytes()))
    &&& st.temp_inlet_max@ == opt_slot_i64(sum_num_milli(s, "Temperature".spec_bytes()))
    &&& st.fan_speeds@ == opt_slot_u32(wm_fan(s, "Fan Speed In".spec_bytes())) + opt_slot_u32(
        wm_fan(s, "Fan Speed Out".spec_bytes()),
    )
    &&& (match sum_str_val(s, "Firmware Version".spec_bytes()) {
        Some(b) => st.firmware matches Some(f) && (all_ascii(strip_quotes(b)) ==> f@.len()
            == strip_quotes(b).len() && (forall|i: int|
            0 <= i < strip_quotes(b).len() ==> #[trigger] f@[i] == strip_quotes(b)[i] as char)),
        None => st.firmware is None,
    })
    &&& st.pool1 is None && st.worker1 is None
    &&& st.pool2 is None && st.worker2 is None
    &&& st.pool3 is None && st.worker3 is None
    &&& st.model is None && st.software is None
    &&& st.hardware is None && st.mac_address is None
}

fn temp_slot(v: Option<i64>) -> (r: Vec<Option<i64>>)
    ensures
        v matches Some(x) ==> r@ == seq![Some(x)],
        v is None ==> r@.len() == 0,
{
    let mut out: Vec<Option<i64>> = Vec::new();
    match v {
        Some(x) => {
            out.push(Some(x));
            proof {
                assert(out@ =~= seq![Some(x)]);
            }
        },
        None => {},
    }
    out
}

/// Parse a Whatsminer-style summary object into a snapshot.
pub fn whatsminer_parse_summary(summary: &Json) -> (r: MinerResult<MinerStats>)
    ensures
        r is Ok == wm_summary_ok(jview(*summary)),
        r matches Ok(st) ==> wm_stats_match(st, jview(*summary)),
        r matches Err(e) ==> e is InvalidResponse,
{
    let ghost s = jview(*summary);
    let rt: i64 = match field_milli(summary, "MHS 5s") {
        Some(m) => {
            proof {
                lemma_milli_range(s, "MHS 5s".spec_bytes());
            }
            div_milli(m, 1000000)
        },
        None => match field_str(summary, "HS 5s") {
            Some(h) => match hashrate_of_string(h) {
                Ok(v) => v,
                Err(e) => {
                    return Err(e);
                },
            },
            None => 0,
        },
    };
    let avg: i64 = match field_milli(summary, "MHS av") {
        Some(m) => {
            proof {
                lemma_milli_range(s, "MHS av".spec_bytes());
            }
            div_milli(m, 1000000)
        },
        None => rt,
    };
    let chip_min = field_milli(summary, "Chip Temp Min");
    let chip_max = field_milli(summary, "Chip Temp Max");
    let env = field_milli(summary, "Temperature");
    let mut fans: Vec<Option<u32>> = Vec::new();
    match field_u64(summary, "Fan Speed In") {
        Some(v) => {
            let c: u32 = if v > 0xFFFFFFFF {
                0xFFFFFFFFu32
            } else {
                v as u32
            };
            fans.push(Some(c));
        },
        None => {},
    }
    match field_u64(summary, "Fan Speed Out") {
        Some(v) => {
            let c: u32 = if v > 0xFFFFFFFF {
                0xFFFFFFFFu32
            } else {
                v as u32
            };
            fans.push(Some(c));
        },
        None => {},
    }
    proof {
        assert(fans@ =~= opt_slot_u32(wm_fan(s, "Fan Speed In".spec_bytes())) + opt_slot_u32(
            wm_fan(s, "Fan Speed Out".spec_bytes()),
        ));
    }
    let firmware: Option<String> = match field_str(summary, "Firmware Version") {
        Some(b) => {
            let stripped = strip_quotes_exec(b.as_slice());
            Some(bytes_to_string_lossy(stripped.as_slice()))
        },
        None => None,
    };
    let uptime: u64 = match field_u64(summary, "Elapsed") {
        Some(u) => u,
        None => 0,
    };
    let tom = temp_slot(chip_min);
    let tox = temp_slot(chip_max);
    let tim = temp_slot(env);
    let tix = temp_slot(env);
    proof {
        assert(tom@ =~= opt_slot_i64(sum_num_milli(s, "Chip Temp Min".spec_bytes())));
        assert(tox@ =~= opt_slot_i64(sum_num_milli(s, "Chip Temp Max".spec_bytes())));
        assert(tim@ =~= opt_slot_i64(sum_num_milli(s, "Temperature".spec_bytes())));
        assert(tix@ =~= opt_slot_i64(sum_num_milli(s, "Temperature".spec_bytes())));
    }
    Ok(MinerStats {
        hashrate_rt: rt,
        hashrate_avg: avg,
        temp_outlet_min: tom,
        temp_outlet_max: tox,
        temp_inlet_min: tim,
        temp_inlet_max: tix,
        fan_speeds: fans,
        uptime,
        pool1: None,
        worker1: None,
        pool2: None,
        worker2: None,
        pool3: None,
        worker3: None,
        model: None,
        firmware,
        software: None,
        hardware: None,
        mac_address: None,
    })
}

/// The Antminer-style response parser.
pub struct AntminerParser;

/// The Whatsminer-style response parser.
pub struct WhatsminerParser;

/// The closed set of vendor parsers, chosen once per device by runtime
/// detection.
pub enum MinerParser {
    Antminer(AntminerParser),
    Whatsminer(WhatsminerParser),
}

impl MinerParser {
    /// Parse a summary object with the detected vendor's rules.
    pub fn parse_summary(&self, summary: &Json) -> (r: MinerResult<MinerStats>)
        ensures
            self is Antminer ==> ({
                &&& r is Ok == ant_summary_ok(jview(*summary))
                &&& (r matches Ok(st) ==> ant_stats_match(st, jview(*summary)))
            }),
            self is Whatsminer ==> ({
                &&& r is Ok == wm_summary_ok(jview(*summary))
                &&& (r matches Ok(st) ==> wm_stats_match(st, jview(*summary)))
            }),
            r matches Err(e) ==> e is InvalidResponse,
    {
        match self {
            MinerParser::Antminer(_) => antminer_parse_summary(summary),
            MinerParser::Whatsminer(_) => whatsminer_parse_summary(summary),
        }
    }
}

/// The summary object of a full status response: first element of its
/// `SUMMARY` array.
pub open spec fn resp_summary(root: JsonV) -> Option<JsonV> {
    match jget(root, "SUMMARY".spec_bytes()) {
        Some(a) => jat(a, 0),
        None => None,
    }
}

/// The status description string of a response, if any.
pub open spec fn resp_status_desc(root: JsonV) -> Option<Seq<u8>> {
    match jget(root, "STATUS".spec_bytes()) {
        Some(a) => match jat(a, 0) {
            Some(st0) => match jget(st0, "Description".spec_bytes()) {
                Some(d) => jv_str(d),
                None => None,
            },
            None => None,
        },
        None => None,
    }
}

/// Vendor detection: a firmware-version field in the summary, or a
/// status description containing the vendor marker, selects Whatsminer.
pub open spec fn resp_is_whatsminer(root: JsonV) -> bool {
    ||| (match resp_summary(root) {
        Some(s) => jget(s, "Firmware Version".spec_bytes()) is Some,
        None => false,
    })
    ||| (match resp_status_desc(root) {
        Some(d) => contains_seq(lower_seq(d), "whatsminer".spec_bytes()),
        None => false,
    })
}

/// Choose the vendor parser for a status response.
pub fn detect_parser(root: &Json) -> (r: MinerParser)
    ensures
        r is Whatsminer == resp_is_whatsminer(jview(*root)),
{
    let fw = match get_field(root, "SUMMARY".as_bytes()) {
        Some(a) => match get_index(a, 0) {
            Some(s) => match get_field(s, "Firmware Version".as_bytes()) {
                Some(_) => true,
                None => false,
            },
            None => false,
        },
        None => false,
    };
    if fw {
        return MinerParser::Whatsminer(WhatsminerParser);
    }
    let marker = match get_field(root, "STATUS".as_bytes()) {
        Some(a) => match get_index(a, 0) {
            Some(st0) => match get_field(st0, "Description".as_bytes()) {
                Some(d) => match as_str_bytes(d) {
                    Some(b) => {
                        let low = to_lower_bytes(b.as_slice());
                        contains_bytes(low.as_slice(), "whatsminer".as_bytes())
                    },
                    None => false,
                },
                None => false,
            },
            None => false,
        },
        None => false,
    };
    if marker {
        MinerParser::Whatsminer(WhatsminerParser)
    } else {
        MinerParser::Antminer(AntminerParser)
    }
}

/// Whether the response's status block reports success: a `STATUS` array
/// whose first element, if any, carries the flag `"S"`. A missing or
/// non-array `STATUS` fails.
pub open spec fn resp_status_ok(root: JsonV) -> bool {
    match jget(root, "STATUS".spec_bytes()) {
        Some(a) => match a {
            JsonV::Arr(es) => {
                if es.len() == 0 {
                    true
                } else {
                    match jget(es[0], "STATUS".spec_bytes()) {
                        Some(v) => match jv_str(v) {
                            Some(f) => f == "S".spec_bytes(),
                            None => false,
                        },
                        None => false,
                    }
                }
            },
            _ => false,
        },
        None => false,
    }
}

fn status_ok_exec(root: &Json) -> (r: bool)
    ensures
        r == resp_status_ok(jview(*root)),
{
    match get_field(root, "STATUS".as_bytes()) {
        Some(a) => {
            match a {
                Json::Arr(es) => {
                    proof {
                        crate::json::lemma_jview_elems_index(es@);
                    }
                    if es.len() == 0 {
                        true
                    } else {
                        match get_field(&es[0], "STATUS".as_bytes()) {
                            Some(v) => match as_str_bytes(v) {
                                Some(f) => crate::btext::bytes_eq(
                                    f.as_slice(),
                                    "S".as_bytes(),
                                ),
                                None => false,
                            },
                            None => false,
                        }
                    }
                },
                _ => false,
            }
        },
        None => false,
    }
}

/// The parsed JSON root of a raw status response, after garbage
/// trimming: a text with no brace-delimited span yields nothing rather
/// than a guess.
pub open spec fn resp_root(text: Seq<char>) -> Option<JsonV> {
    match crate::cleanup::clean_json_view(text) {
        Some(c) => parse_json_spec(vstd::utf8::encode_utf8(c)),
        None => None,
    }
}

/// Whether a raw `summary` response yields a snapshot: it parses as
/// JSON after cleanup, its status block reports success, it carries a
/// summary object, and the detected vendor's fields are readable.
pub open spec fn summary_response_ok(text: Seq<char>) -> bool {
    match resp_root(text) {
        None => false,
        Some(root) => {
            &&& resp_status_ok(root)
            &&& resp_summary(root) is Some
            &&& (if resp_is_whatsminer(root) {
                wm_summary_ok(resp_summary(root).unwrap())
            } else {
                ant_summary_ok(resp_summary(root).unwrap())
            })
        },
    }
}

/// Parse a raw `summary` response into a statistics snapshot: trim the
/// garbage, parse the JSON, check the status block, detect the vendor
/// and read its summary fields. A text with no brace-delimited span is
/// abandoned as `InvalidResponse` rather than guessed at; a span that
/// is not JSON is a `ParseError`; any further rejection is
/// `InvalidResponse`.
pub fn parse_summary_response(text: &str) -> (r: MinerResult<MinerStats>)
    ensures
        r is Ok == summary_response_ok(text@),
        r matches Ok(st) ==> ({
            let root = resp_root(text@).unwrap();
            let s = resp_summary(root).unwrap();
            if resp_is_whatsminer(root) {
                wm_stats_match(st, s)
            } else {
                ant_stats_match(st, s)
            }
        }),
        r matches Err(e) ==> (if crate::cleanup::clean_json_view(text@) is None {
            e is InvalidResponse
        } else if resp_root(text@) is None {
            e is ParseError
        } else {
            e is InvalidResponse
        }),
{
    let body = match crate::cleanup::extract_clean_json(text) {
        Some(b) => b,
        None => {
            return Err(MinerError::InvalidResponse);
        },
    };
    let root = match parse_json(body.as_str().as_bytes()) {
        Some(v) => v,
        None => {
            return Err(MinerError::ParseError(String::from_str("not a JSON object")));
        },
    };
    if !status_ok_exec(&root) {
        return Err(MinerError::InvalidResponse);
    }
    let summary = match get_field(&root, "SUMMARY".as_bytes()) {
        Some(a) => match get_index(a, 0) {
            Some(s) => s,
            None => {
                return Err(MinerError::InvalidResponse);
            },
        },
        None => {
            return Err(MinerError::InvalidResponse);
        },
    };
    let parser = detect_parser(&root);
    parser.parse_summary(summary)
}

} // verus!
