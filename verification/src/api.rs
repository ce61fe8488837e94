//! Small caller-facing helpers around the core.

use vstd::prelude::*;
use vstd::string::StringSliceAdditionalSpecFns;
use crate::btext::{u64_dec_bytes, push_u64_dec, lemma_u64_dec_bytes_digits, all_ascii,
    ascii_to_string};
use crate::range::{range_expand, parse_ip_range, ipv4_str_bytes};

verus! {

/// The characters of a number's decimal digit string.
pub open spec fn dec_chars(n: int) -> Seq<char> {
    Seq::new(u64_dec_bytes(n).len(), |i: int| u64_dec_bytes(n)[i] as char)
}

/// A plain connectivity probe label for one address.
pub fn test_connection(ip: String) -> (r: String)
    ensures
        r@ == "Testing connection to "@ + ip@,
{
    let mut msg = String::from_str("Testing connection to ");
    msg.append(ip.as_str());
    msg
}

/// Validate an address range string without starting a scan: report how
/// many addresses it would cover, or that it is invalid, embedding the
/// underlying error's text.
pub fn validate_ip_range(range: String) -> (r: Result<String, String>)
    ensures
        r is Ok == range_expand(vstd::utf8::encode_utf8(range@)) is Some,
        r matches Ok(msg) ==> msg@ == "Valid range: "@ + dec_chars(
            range_expand(vstd::utf8::encode_utf8(range@)).unwrap().len() as int,
        ) + " IPs"@,
        r matches Err(msg) ==> msg@ == "Invalid range: "@ + "invalid address range"@,
{
    match parse_ip_range(range.as_str()) {
        Ok(ips) => {
            let mut digits: Vec<u8> = Vec::new();
            push_u64_dec(ips.len() as u64, &mut digits);
            proof {
                lemma_u64_dec_bytes_digits(ips@.len() as int);
            }
            let ds = ascii_to_string(&digits);
            let mut msg = String::from_str("Valid range: ");
            msg.append(ds.as_str());
            msg.append(" IPs");
            proof {
                assert(msg@ =~= "Valid range: "@ + dec_chars(ips@.len() as int) + " IPs"@);
            }
            Ok(msg)
        },
        Err(e) => {
            let mut msg = String::from_str("Invalid range: ");
            msg.append(e.message().as_str());
            Err(msg)
        },
    }
}

/// The /24 network index of an address: its upper three octets.
pub open spec fn net24(a: u32) -> int {
    a as int / 256
}

/// An address that local-range detection skips: loopback (first octet
/// 127) or link-local (169.254).
pub open spec fn skipped_addr(a: u32) -> bool {
    a as int / 0x1000000 == 127 || (a as int / 0x1000000 == 169 && (a as int / 0x10000) % 256
        == 254)
}

/// The dash-range text of a /24 network: its `.1` to its `.254`.
pub open spec fn net24_range_chars(p: int) -> Seq<char> {
    let lo = ipv4_str_bytes(p * 256 + 1);
    let hi = ipv4_str_bytes(p * 256 + 254);
    Seq::new(lo.len(), |i: int| lo[i] as char) + seq!['-'] + Seq::new(
        hi.len(),
        |i: int| hi[i] as char,
    )
}

/// Some entry of the network list is `p`.
pub open spec fn has_net(nets: Seq<u32>, p: int) -> bool {
    exists|i: int| 0 <= i < nets.len() && (#[trigger] nets[i]) as int == p
}

/// Network `p` belongs to one of the first `k` addresses that detection
/// keeps.
pub open spec fn net_from(addrs: Seq<u32>, k: int, p: int) -> bool {
    exists|m: int|
        0 <= m < k && !skipped_addr(#[trigger] addrs[m]) && net24(addrs[m]) == p
}

/// `s` is the range text of some kept address's network.
pub open spec fn listed_from(addrs: Seq<u32>, s: Seq<char>) -> bool {
    exists|k: int|
        0 <= k < addrs.len() && !skipped_addr(#[trigger] addrs[k]) && s == net24_range_chars(
            net24(addrs[k]),
        )
}

/// Some entry of the range list is the range text of network `p`.
pub open spec fn range_listed(r: Seq<String>, p: int) -> bool {
    exists|i: int| 0 <= i < r.len() && (#[trigger] r[i])@ == net24_range_chars(p)
}

/// Turn the machine's own addresses into scan ranges: one `.1`–`.254`
/// dash range per distinct /24 network, loopback (127.x.x.x) and
/// link-local (169.254.x.x) addresses skipped; distinct networks come
/// out ascending by construction. Every entry belongs to a kept
/// address, and every kept address's network is represented.
pub fn local_range_strings(addrs: &Vec<u32>) -> (r: Vec<String>)
    ensures
        forall|x: int| 0 <= x < r@.len() ==> listed_from(addrs@, (#[trigger] r@[x])@),
        forall|k: int|
            0 <= k < addrs@.len() && !skipped_addr(#[trigger] addrs@[k]) ==> range_listed(
                r@,
                net24(addrs@[k]),
            ),
{
    let nets = build_nets(addrs);
    let n = addrs.len();
    let mut out: Vec<String> = Vec::new();
    let mut i: usize = 0;
    while i < nets.len()
        invariant
            0 <= i <= nets@.len(),
            out@.len() == i,
            n == addrs@.len(),
            forall|k2: int| 0 <= k2 < nets@.len() ==> (#[trigger] nets@[k2]) < 0x1000000,
            forall|x: int|
                0 <= x < nets@.len() ==> net_from(addrs@, n as int, (#[trigger] nets@[x]) as int),
            forall|x: int|
                0 <= x < i ==> (#[trigger] out@[x])@ == net24_range_chars(nets@[x] as int),
        decreases nets@.len() - i,
    {
        out.push(net24_range_string(nets[i]));
        i = i + 1;
    }
    proof {
        assert forall|x: int| 0 <= x < out@.len() implies listed_from(
            addrs@,
            (#[trigger] out@[x])@,
        ) by {
            let m = choose|m: int|
                0 <= m < n && !skipped_addr(#[trigger] addrs@[m]) && net24(addrs@[m])
                    == nets@[x] as int;
            assert(out@[x]@ == net24_range_chars(net24(addrs@[m])));
        }
        assert forall|k: int|
            0 <= k < addrs@.len() && !skipped_addr(#[trigger] addrs@[k]) implies range_listed(
            out@,
            net24(addrs@[k]),
        ) by {
            assert(has_net(nets@, net24(addrs@[k])));
            let x = choose|x: int|
                0 <= x < nets@.len() && (#[trigger] nets@[x]) as int == net24(addrs@[k]);
            assert(out@[x]@ == net24_range_chars(net24(addrs@[k])));
        }
    }
    out
}

#[verifier::spinoff_prover]
fn build_nets(addrs: &Vec<u32>) -> (nets: Vec<u32>)
    ensures
        forall|i: int, j: int| 0 <= i < j < nets@.len() ==> nets@[i] < nets@[j],
        forall|i: int| 0 <= i < nets@.len() ==> (#[trigger] nets@[i]) < 0x1000000,
        forall|i: int|
            0 <= i < nets@.len() ==> net_from(addrs@, addrs@.len() as int, (
            #[trigger] nets@[i]) as int),
        forall|m: int|
            0 <= m < addrs@.len() && !skipped_addr(#[trigger] addrs@[m]) ==> has_net(
                nets@,
                net24(addrs@[m]),
            ),
{
    let n = addrs.len();
    let mut nets: Vec<u32> = Vec::new();
    let mut k: usize = 0;
    while k < n
        invariant
            n == addrs@.len(),
            0 <= k <= n,
            forall|i: int, j: int| 0 <= i < j < nets@.len() ==> nets@[i] < nets@[j],
            forall|i: int| 0 <= i < nets@.len() ==> (#[trigger] nets@[i]) < 0x1000000,
            forall|i: int|
                0 <= i < nets@.len() ==> net_from(addrs@, k as int, (#[trigger] nets@[i]) as int),
            forall|m: int|
                0 <= m < k && !skipped_addr(#[trigger] addrs@[m]) ==> has_net(
                    nets@,
                    net24(addrs@[m]),
                ),
        decreases n - k,
    {
        let a = addrs[k];
        let first = a / 0x1000000;
        let second = (a / 0x10000) % 256;
        if !(first == 127 || (first == 169 && second == 254)) {
            let p = a / 256;
            let ghost prev = nets@;
            insert_sorted_unique(&mut nets, p);
            proof {
                assert(!skipped_addr(addrs@[k as int]));
                assert(p as int == net24(addrs@[k as int]));
                assert forall|i: int| 0 <= i < nets@.len() implies (#[trigger] nets@[i])
                    < 0x1000000 by {
                    if nets@[i] != p {
                        let j = choose|j: int| 0 <= j < prev.len() && prev[j] == nets@[i];
                        assert(prev[j] < 0x1000000);
                    }
                }
                assert forall|i: int| 0 <= i < nets@.len() implies net_from(
                    addrs@,
                    k + 1,
                    (#[trigger] nets@[i]) as int,
                ) by {
                    if nets@[i] == p {
                        assert(!skipped_addr(addrs@[k as int]) && net24(addrs@[k as int])
                            == nets@[i] as int);
                    } else {
                        let j = choose|j: int| 0 <= j < prev.len() && prev[j] == nets@[i];
                        assert(net_from(addrs@, k as int, prev[j] as int));
                        let m = choose|m: int|
                            0 <= m < k && !skipped_addr(#[trigger] addrs@[m]) && net24(addrs@[m])
                                == prev[j] as int;
                        assert(0 <= m < k + 1 && !skipped_addr(addrs@[m]) && net24(addrs@[m])
                            == nets@[i] as int);
                    }
                }
                assert forall|m: int|
                    0 <= m < k + 1 && !skipped_addr(#[trigger] addrs@[m]) implies has_net(
                    nets@,
                    net24(addrs@[m]),
                ) by {
                    if m < k {
                        assert(has_net(prev, net24(addrs@[m])));
                        let j = choose|j: int|
                            0 <= j < prev.len() && (#[trigger] prev[j]) as int == net24(addrs@[m]);
                        let x = choose|x: int|
                            0 <= x < nets@.len() && (#[trigger] nets@[x]) == prev[j];
                        assert(nets@[x] as int == net24(addrs@[m]));
                    } else {
                        let x = choose|x: int| 0 <= x < nets@.len() && (#[trigger] nets@[x]) == p;
                        assert(nets@[x] as int == net24(addrs@[m]));
                    }
                }
            }
        } else {
            proof {
                assert(skipped_addr(addrs@[k as int]));
            }
        }
        k = k + 1;
    }
    nets
}

fn insert_sorted_unique(nets: &mut Vec<u32>, p: u32)
    requires
        forall|i: int, j: int| 0 <= i < j < old(nets)@.len() ==> old(nets)@[i] < old(nets)@[j],
    ensures
        forall|i: int, j: int|
            0 <= i < j < final(nets)@.len() ==> final(nets)@[i] < final(nets)@[j],
        forall|i: int|
            0 <= i < final(nets)@.len() ==> ((#[trigger] final(nets)@[i]) == p || exists|j: int|
                0 <= j < old(nets)@.len() && old(nets)@[j] == final(nets)@[i]),
        exists|i: int| 0 <= i < final(nets)@.len() && (#[trigger] final(nets)@[i]) == p,
        forall|j: int|
            0 <= j < old(nets)@.len() ==> exists|i: int|
                0 <= i < final(nets)@.len() && (#[trigger] final(nets)@[i]) == (
                #[trigger] old(nets)@[j]),
{
    let n = nets.len();
    let mut i: usize = 0;
    while i < n && nets[i] < p
        invariant
            n == nets@.len(),
            0 <= i <= n,
            nets@ == old(nets)@,
            forall|k: int| 0 <= k < i ==> (#[trigger] nets@[k]) < p,
        decreases n - i,
    {
        i = i + 1;
    }
    if i < n && nets[i] == p {
        proof {
            assert forall|j: int|
                0 <= j < old(nets)@.len() implies exists|x: int|
                0 <= x < nets@.len() && (#[trigger] nets@[x]) == (#[trigger] old(nets)@[j]) by {
                assert(nets@[j] == old(nets)@[j]);
            }
        }
        return ;
    }
    let ghost before = nets@;
    nets.insert(i, p);
    proof {
        assert(nets@ =~= before.insert(i as int, p));
        assert forall|a: int, b: int| 0 <= a < b < nets@.len() implies nets@[a] < nets@[b] by {
            if a < i && b < i {
                assert(nets@[a] == before[a] && nets@[b] == before[b]);
            } else if a < i && b == i {
                assert(nets@[a] == before[a] && nets@[b] == p);
            } else if a < i && b > i {
                assert(nets@[a] == before[a] && nets@[b] == before[b - 1]);
                assert(before[a] < p);
                if i < before.len() {
                    assert(p < before[i as int] || p == before[i as int]);
                }
            } else if a == i {
                assert(nets@[a] == p);
                assert(nets@[b] == before[b - 1]);
                assert(b - 1 >= i);
                assert(!(before[i as int] < p) && before[i as int] != p) by {
                    if i < before.len() {
                    }
                }
            } else {
                assert(nets@[a] == before[a - 1] && nets@[b] == before[b - 1]);
            }
        }
        assert(nets@[i as int] == p);
        assert forall|j: int|
            0 <= j < before.len() implies exists|x: int|
            0 <= x < nets@.len() && (#[trigger] nets@[x]) == (#[trigger] before[j]) by {
            if j < i {
                assert(nets@[j] == before[j]);
            } else {
                assert(nets@[j + 1] == before[j]);
            }
        }
    }
}

fn net24_range_string(p: u32) -> (r: String)
    requires
        p < 0x1000000,
    ensures
        r@ == net24_range_chars(p as int),
{
    let lo_addr = p * 256 + 1;
    let hi_addr = p * 256 + 254;
    let mut v: Vec<u8> = Vec::new();
    push_ipv4(lo_addr, &mut v);
    v.push(45);
    push_ipv4(hi_addr, &mut v);
    let ghost lo = ipv4_str_bytes(p as int * 256 + 1);
    let ghost hi = ipv4_str_bytes(p as int * 256 + 254);
    proof {
        lemma_ipv4_str_ascii(p as int * 256 + 1);
        lemma_ipv4_str_ascii(p as int * 256 + 254);
        assert(all_ascii(v@)) by {
            assert(v@ =~= lo + seq![45u8] + hi);
        }
    }
    let s = ascii_to_string(&v);
    proof {
        assert(v@ =~= lo + seq![45u8] + hi);
        assert(s@ =~= net24_range_chars(p as int));
    }
    s
}

fn push_ipv4(a: u32, out: &mut Vec<u8>)
    ensures
        final(out)@ == old(out)@ + ipv4_str_bytes(a as int),
{
    push_u64_dec((a / 0x1000000) as u64, out);
    out.push(46);
    push_u64_dec(((a / 0x10000) % 256) as u64, out);
    out.push(46);
    push_u64_dec(((a / 256) % 256) as u64, out);
    out.push(46);
    push_u64_dec((a % 256) as u64, out);
    proof {
        assert(out@ =~= old(out)@ + ipv4_str_bytes(a as int));
    }
}

proof fn lemma_ipv4_str_ascii(a: int)
    requires
        a >= 0,
    ensures
        all_ascii(ipv4_str_bytes(a)),
{
    lemma_u64_dec_bytes_digits(a / 0x1000000);
    lemma_u64_dec_bytes_digits((a / 0x10000) % 256);
    lemma_u64_dec_bytes_digits((a / 256) % 256);
    lemma_u64_dec_bytes_digits(a % 256);
    let s = ipv4_str_bytes(a);
    let p1 = u64_dec_bytes(a / 0x1000000);
    let p2 = u64_dec_bytes((a / 0x10000) % 256);
    let p3 = u64_dec_bytes((a / 256) % 256);
    let p4 = u64_dec_bytes(a % 256);
    assert forall|i: int| 0 <= i < s.len() implies #[trigger] s[i] < 128 by {
        assert(s =~= p1 + seq![46u8] + p2 + seq![46u8] + p3 + seq![46u8] + p4);
        if i < p1.len() {
            assert(s[i] == p1[i]);
        } else if i == p1.len() {
            assert(s[i] == 46);
        } else if i < p1.len() + 1 + p2.len() {
            assert(s[i] == p2[i - p1.len() - 1]);
        } else if i == p1.len() + 1 + p2.len() {
            assert(s[i] == 46);
        } else if i < p1.len() + 1 + p2.len() + 1 + p3.len() {
            assert(s[i] == p3[i - p1.len() - 1 - p2.len() - 1]);
        } else if i == p1.len() + 1 + p2.len() + 1 + p3.len() {
            assert(s[i] == 46);
        } else {
            assert(s[i] == p4[i - p1.len() - 1 - p2.len() - 1 - p3.len() - 1]);
        }
    }
}

} // verus!
