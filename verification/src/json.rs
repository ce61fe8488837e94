//! The JSON shape of the status protocol, held by the library itself.
//!
//! Device responses and configuration documents are plain JSON objects.
//! The library parses them into a tree whose number literals and string
//! contents are kept verbatim as bytes: re-serializing a tree therefore
//! reproduces unknown fields exactly, which the read-modify-write
//! configuration path depends on. String contents keep their escape
//! sequences unresolved; the keys and values this library reads never
//! contain any. Number literals, exponent form included, are understood
//! by the fixed-point reader; out-of-range ones are carried through
//! untouched but read as absent.

use vstd::prelude::*;
use crate::btext::append_bytes;

verus! {

/// A JSON value, with literals kept verbatim.
pub enum Json {
    Null,
    Bool(bool),
    /// A number literal, byte for byte as it appeared.
    Num(Vec<u8>),
    /// A string's contents between its quotes, escapes unresolved.
    Str(Vec<u8>),
    Arr(Vec<Json>),
    Obj(Vec<(Vec<u8>, Json)>),
}

/// The mathematical shape of a JSON value.
pub enum JsonV {
    Null,
    Bool(bool),
    Num(Seq<u8>),
    Str(Seq<u8>),
    Arr(Seq<JsonV>),
    Obj(Seq<(Seq<u8>, JsonV)>),
}

/// The shape of a JSON tree.
pub open spec fn jview(v: Json) -> JsonV
    decreases v,
{
    match v {
        Json::Null => JsonV::Null,
        Json::Bool(b) => JsonV::Bool(b),
        Json::Num(l) => JsonV::Num(l@),
        Json::Str(c) => JsonV::Str(c@),
        Json::Arr(es) => JsonV::Arr(jview_elems(es@)),
        Json::Obj(fs) => JsonV::Obj(jview_fields(fs@)),
    }
}

pub open spec fn jview_elems(es: Seq<Json>) -> Seq<JsonV>
    decreases es,
{
    if es.len() == 0 {
        Seq::empty()
    } else {
        seq![jview(es[0])] + jview_elems(es.drop_first())
    }
}

pub open spec fn jview_fields(fs: Seq<(Vec<u8>, Json)>) -> Seq<(Seq<u8>, JsonV)>
    decreases fs,
{
    if fs.len() == 0 {
        Seq::empty()
    } else {
        seq![(fs[0].0@, jview(fs[0].1))] + jview_fields(fs.drop_first())
    }
}

pub proof fn lemma_jview_elems_index(es: Seq<Json>)
    ensures
        jview_elems(es).len() == es.len(),
        forall|i: int| 0 <= i < es.len() ==> #[trigger] jview_elems(es)[i] == jview(es[i]),
    decreases es,
{
    if es.len() > 0 {
        lemma_jview_elems_index(es.drop_first());
        assert forall|i: int| 0 <= i < es.len() implies #[trigger] jview_elems(es)[i] == jview(
            es[i],
        ) by {
            if i > 0 {
                assert(jview_elems(es)[i] == jview_elems(es.drop_first())[i - 1]);
                assert(es.drop_first()[i - 1] == es[i]);
            }
        }
    }
}

pub proof fn lemma_jview_fields_index(fs: Seq<(Vec<u8>, Json)>)
    ensures
        jview_fields(fs).len() == fs.len(),
        forall|i: int| 0 <= i < fs.len() ==> #[trigger] jview_fields(fs)[i] == (
            fs[i].0@,
            jview(fs[i].1),
        ),
    decreases fs,
{
    if fs.len() > 0 {
        lemma_jview_fields_index(fs.drop_first());
        assert forall|i: int| 0 <= i < fs.len() implies #[trigger] jview_fields(fs)[i] == (
            fs[i].0@,
            jview(fs[i].1),
        ) by {
            if i > 0 {
                assert(jview_fields(fs)[i] == jview_fields(fs.drop_first())[i - 1]);
                assert(fs.drop_first()[i - 1] == fs[i]);
            }
        }
    }
}

/// The canonical serialization of a JSON shape: no inserted whitespace,
/// literals byte for byte.
pub open spec fn ser_json(v: JsonV) -> Seq<u8>
    decreases v, 0int, 0int,
{
    match v {
        JsonV::Null => seq![110u8, 117u8, 108u8, 108u8],
        JsonV::Bool(b) => if b {
            seq![116u8, 114u8, 117u8, 101u8]
        } else {
            seq![102u8, 97u8, 108u8, 115u8, 101u8]
        },
        JsonV::Num(l) => l,
        JsonV::Str(c) => seq![34u8] + c + seq![34u8],
        JsonV::Arr(es) => seq![91u8] + ser_elems(es, 0) + seq![93u8],
        JsonV::Obj(fs) => seq![123u8] + ser_fields(fs, 0) + seq![125u8],
    }
}

pub open spec fn ser_elems(es: Seq<JsonV>, i: int) -> Seq<u8>
    decreases es, es.len() - i, 1int,
{
    if 0 <= i < es.len() {
        (if i > 0 {
            seq![44u8]
        } else {
            Seq::<u8>::empty()
        }) + ser_json(es[i]) + ser_elems(es, i + 1)
    } else {
        Seq::empty()
    }
}

pub open spec fn ser_fields(fs: Seq<(Seq<u8>, JsonV)>, i: int) -> Seq<u8>
    decreases fs, fs.len() - i, 1int,
{
    if 0 <= i < fs.len() {
        (if i > 0 {
            seq![44u8]
        } else {
            Seq::<u8>::empty()
        }) + seq![34u8] + fs[i].0 + seq![34u8, 58u8] + ser_json(fs[i].1) + ser_fields(fs, i + 1)
    } else {
        Seq::empty()
    }
}

/// Append the canonical serialization of `v` to `out`.
pub fn write_json(v: &Json, out: &mut Vec<u8>)
    ensures
        final(out)@ == old(out)@ + ser_json(jview(*v)),
    decreases *v, 0int, 0int,
{
    match v {
        Json::Null => {
            out.push(110);
            out.push(117);
            out.push(108);
            out.push(108);
            proof {
                assert(out@ =~= old(out)@ + ser_json(jview(*v)));
            }
        },
        Json::Bool(b) => {
            if *b {
                out.push(116);
                out.push(114);
                out.push(117);
                out.push(101);
            } else {
                out.push(102);
                out.push(97);
                out.push(108);
                out.push(115);
                out.push(101);
            }
            proof {
                assert(out@ =~= old(out)@ + ser_json(jview(*v)));
            }
        },
        Json::Num(l) => {
            append_bytes(out, l.as_slice());
            proof {
                assert(out@ =~= old(out)@ + ser_json(jview(*v)));
            }
        },
        Json::Str(c) => {
            out.push(34);
            append_bytes(out, c.as_slice());
            out.push(34);
            proof {
                assert(out@ =~= old(out)@ + ser_json(jview(*v)));
            }
        },
        Json::Arr(es) => {
            out.push(91);
            write_elems(es, 0, out);
            out.push(93);
            proof {
                assert(out@ =~= old(out)@ + ser_json(jview(*v)));
            }
        },
        Json::Obj(fs) => {
            out.push(123);
            write_fields(fs, 0, out);
            out.push(125);
            proof {
                assert(out@ =~= old(out)@ + ser_json(jview(*v)));
            }
        },
    }
}

fn write_elems(es: &Vec<Json>, i: usize, out: &mut Vec<u8>)
    requires
        i <= es@.len(),
    ensures
        final(out)@ == old(out)@ + ser_elems(jview_elems(es@), i as int),
    decreases es@, es@.len() - i, 1int,
{
    proof {
        lemma_jview_elems_index(es@);
    }
    if i < es.len() {
        if i > 0 {
            out.push(44);
        }
        write_json(&es[i], out);
        write_elems(es, i + 1, out);
        proof {
            assert(out@ =~= old(out)@ + ser_elems(jview_elems(es@), i as int));
        }
    } else {
        proof {
            assert(out@ =~= old(out)@ + ser_elems(jview_elems(es@), i as int));
        }
    }
}

fn write_fields(fs: &Vec<(Vec<u8>, Json)>, i: usize, out: &mut Vec<u8>)
    requires
        i <= fs@.len(),
    ensures
        final(out)@ == old(out)@ + ser_fields(jview_fields(fs@), i as int),
    decreases fs@, fs@.len() - i, 1int,
{
    proof {
        lemma_jview_fields_index(fs@);
    }
    if i < fs.len() {
        if i > 0 {
            out.push(44);
        }
        out.push(34);
        append_bytes(out, fs[i].0.as_slice());
        out.push(34);
        out.push(58);
        write_json(&fs[i].1, out);
        write_fields(fs, i + 1, out);
        proof {
            assert(out@ =~= old(out)@ + ser_fields(jview_fields(fs@), i as int));
        }
    } else {
        proof {
            assert(out@ =~= old(out)@ + ser_fields(jview_fields(fs@), i as int));
        }
    }
}

/// The canonical serialization of `v` as a byte vector.
pub fn json_to_bytes(v: &Json) -> (r: Vec<u8>)
    ensures
        r@ == ser_json(jview(*v)),
{
    let mut out: Vec<u8> = Vec::new();
    write_json(v, &mut out);
    out
}

/// JSON insignificant whitespace.
pub open spec fn json_ws(b: u8) -> bool {
    b == 32 || b == 9 || b == 10 || b == 13
}

/// Index of the first byte at or after `i` that is not JSON whitespace.
pub open spec fn wsk(s: Seq<u8>, i: int) -> int
    decreases s.len() - i,
{
    if 0 <= i < s.len() && json_ws(s[i]) {
        wsk(s, i + 1)
    } else {
        i
    }
}

fn ws_exec(b: u8) -> (r: bool)
    ensures
        r == json_ws(b),
{
    b == 32 || b == 9 || b == 10 || b == 13
}

fn wsk_exec(s: &[u8], from: usize) -> (r: usize)
    requires
        from <= s@.len(),
    ensures
        r == wsk(s@, from as int),
        from <= r <= s@.len(),
{
    let n = s.len();
    let mut k: usize = from;
    while k < n && ws_exec(s[k])
        invariant
            n == s@.len(),
            from <= k <= n,
            wsk(s@, from as int) == wsk(s@, k as int),
        decreases n - k,
    {
        k = k + 1;
    }
    k
}

/// Position of the closing quote of a string whose contents start at `i`;
/// a backslash carries the following byte verbatim. `None` when the
/// string never closes.
pub open spec fn str_end(s: Seq<u8>, i: int) -> Option<int>
    decreases s.len() - i,
{
    if 0 <= i < s.len() {
        if s[i] == 34 {
            Some(i)
        } else if s[i] == 92 {
            if i + 2 <= s.len() {
                str_end(s, i + 2)
            } else {
                None
            }
        } else {
            str_end(s, i + 1)
        }
    } else {
        None
    }
}

proof fn lemma_str_end_bounds(s: Seq<u8>, i: int)
    requires
        0 <= i <= s.len(),
    ensures
        str_end(s, i) matches Some(e) ==> i <= e < s.len() && s[e] == 34,
    decreases s.len() - i,
{
    if i < s.len() {
        if s[i] == 92 {
            if i + 2 <= s.len() {
                lemma_str_end_bounds(s, i + 2);
            }
        } else if s[i] != 34 {
            lemma_str_end_bounds(s, i + 1);
        }
    }
}

fn str_end_exec(s: &[u8], from: usize) -> (r: Option<usize>)
    requires
        from <= s@.len(),
    ensures
        r is Some == str_end(s@, from as int) is Some,
        r matches Some(e) ==> e == str_end(s@, from as int).unwrap() && from <= e < s@.len(),
{
    let n = s.len();
    let mut k: usize = from;
    loop
        invariant
            n == s@.len(),
            from <= k <= n,
            str_end(s@, from as int) == str_end(s@, k as int),
        decreases n - k,
    {
        if k >= n {
            return None;
        }
        if s[k] == 34 {
            proof {
                lemma_str_end_bounds(s@, from as int);
            }
            return Some(k);
        }
        if s[k] == 92 {
            if n - k >= 2 {
                k = k + 2;
            } else {
                return None;
            }
        } else {
            k = k + 1;
        }
    }
}

/// Index of the first non-digit byte at or after `i`.
pub open spec fn digits_end(s: Seq<u8>, i: int) -> int
    decreases s.len() - i,
{
    if 0 <= i < s.len() && 48 <= s[i] <= 57 {
        digits_end(s, i + 1)
    } else {
        i
    }
}

fn digits_end_exec(s: &[u8], from: usize) -> (r: usize)
    requires
        from <= s@.len(),
    ensures
        r == digits_end(s@, from as int),
        from <= r <= s@.len(),
{
    let n = s.len();
    let mut k: usize = from;
    while k < n && 48 <= s[k] && s[k] <= 57
        invariant
            n == s@.len(),
            from <= k <= n,
            digits_end(s@, from as int) == digits_end(s@, k as int),
        decreases n - k,
    {
        k = k + 1;
    }
    k
}

/// End of a number literal starting at `i`: an optional minus sign, then
/// digit runs with an optional dot and an optional exponent part.
pub open spec fn num_end(s: Seq<u8>, i: int) -> int {
    let j = if 0 <= i < s.len() && s[i] == 45 {
        i + 1
    } else {
        i
    };
    let k = digits_end(s, j);
    let k2 = if k < s.len() && s[k] == 46 {
        digits_end(s, k + 1)
    } else {
        k
    };
    if k2 < s.len() && (s[k2] == 101 || s[k2] == 69) {
        let m = if k2 + 1 < s.len() && (s[k2 + 1] == 43 || s[k2 + 1] == 45) {
            k2 + 2
        } else {
            k2 + 1
        };
        digits_end(s, m)
    } else {
        k2
    }
}

fn num_end_exec(s: &[u8], from: usize) -> (r: usize)
    requires
        from <= s@.len(),
    ensures
        r == num_end(s@, from as int),
        from <= r <= s@.len(),
{
    let n = s.len();
    let j = if from < n && s[from] == 45 {
        from + 1
    } else {
        from
    };
    let k = digits_end_exec(s, j);
    let k2 = if k < n && s[k] == 46 {
        digits_end_exec(s, k + 1)
    } else {
        k
    };
    if k2 < n && (s[k2] == 101 || s[k2] == 69) {
        let m = if k2 + 1 < n && (s[k2 + 1] == 43 || s[k2 + 1] == 45) {
            k2 + 2
        } else {
            k2 + 1
        };
        digits_end_exec(s, m)
    } else {
        k2
    }
}

/// Parse one JSON value starting at `i` (after whitespace), returning its
/// shape and the index just past it. The fuel bounds recursion depth; one
/// unit is spent for each `[`, `{` or `,`, so a fuel of the input length
/// plus two never runs out.
pub open spec fn pv(s: Seq<u8>, i: int, fuel: nat) -> Option<(JsonV, int)>
    decreases fuel, 0int,
{
    if fuel == 0 {
        None
    } else {
        let j = wsk(s, i);
        if !(0 <= j < s.len()) {
            None
        } else {
            let b = s[j];
            if b == 110 {
                if j + 4 <= s.len() && s[j + 1] == 117 && s[j + 2] == 108 && s[j + 3] == 108 {
                    Some((JsonV::Null, j + 4))
                } else {
                    None
                }
            } else if b == 116 {
                if j + 4 <= s.len() && s[j + 1] == 114 && s[j + 2] == 117 && s[j + 3] == 101 {
                    Some((JsonV::Bool(true), j + 4))
                } else {
                    None
                }
            } else if b == 102 {
                if j + 5 <= s.len() && s[j + 1] == 97 && s[j + 2] == 108 && s[j + 3] == 115 && s[j
                    + 4] == 101 {
                    Some((JsonV::Bool(false), j + 5))
                } else {
                    None
                }
            } else if b == 34 {
                match str_end(s, j + 1) {
                    Some(e) => Some((JsonV::Str(s.subrange(j + 1, e)), e + 1)),
                    None => None,
                }
            } else if b == 45 || (48 <= b && b <= 57) {
                let j2 = if b == 45 {
                    j + 1
                } else {
                    j
                };
                if j2 < s.len() && 48 <= s[j2] <= 57 {
                    Some((JsonV::Num(s.subrange(j, num_end(s, j))), num_end(s, j)))
                } else {
                    None
                }
            } else if b == 91 {
                let k = wsk(s, j + 1);
                if k < s.len() && s[k] == 93 {
                    Some((JsonV::Arr(Seq::empty()), k + 1))
                } else {
                    match pelems(s, j + 1, (fuel - 1) as nat) {
                        Some((vs, e)) => Some((JsonV::Arr(vs), e)),
                        None => None,
                    }
                }
            } else if b == 123 {
                let k = wsk(s, j + 1);
                if k < s.len() && s[k] == 125 {
                    Some((JsonV::Obj(Seq::empty()), k + 1))
                } else {
                    match pfields(s, j + 1, (fuel - 1) as nat) {
                        Some((fs, e)) => Some((JsonV::Obj(fs), e)),
                        None => None,
                    }
                }
            } else {
                None
            }
        }
    }
}

/// Parse the elements of an array from `i` up to and past its `]`.
pub open spec fn pelems(s: Seq<u8>, i: int, fuel: nat) -> Option<(Seq<JsonV>, int)>
    decreases fuel, 1int,
{
    if fuel == 0 {
        None
    } else {
        match pv(s, i, fuel) {
            None => None,
            Some((v, e)) => {
                let k = wsk(s, e);
                if k < s.len() && s[k] == 44 {
                    match pelems(s, k + 1, (fuel - 1) as nat) {
                        Some((vs, e2)) => Some((seq![v] + vs, e2)),
                        None => None,
                    }
                } else if k < s.len() && s[k] == 93 {
                    Some((seq![v], k + 1))
                } else {
                    None
                }
            },
        }
    }
}

/// Parse the members of an object from `i` up to and past its `}`.
pub open spec fn pfields(s: Seq<u8>, i: int, fuel: nat) -> Option<(Seq<(Seq<u8>, JsonV)>, int)>
    decreases fuel, 1int,
{
    if fuel == 0 {
        None
    } else {
        let j = wsk(s, i);
        if !(j < s.len() && s[j] == 34) {
            None
        } else {
            match str_end(s, j + 1) {
                None => None,
                Some(ke) => {
                    let key = s.subrange(j + 1, ke);
                    let c = wsk(s, ke + 1);
                    if !(c < s.len() && s[c] == 58) {
                        None
                    } else {
                        match pv(s, c + 1, fuel) {
                            None => None,
                            Some((v, e)) => {
                                let k = wsk(s, e);
                                if k < s.len() && s[k] == 44 {
                                    match pfields(s, k + 1, (fuel - 1) as nat) {
                                        Some((fs, e2)) => Some((seq![(key, v)] + fs, e2)),
                                        None => None,
                                    }
                                } else if k < s.len() && s[k] == 125 {
                                    Some((seq![(key, v)], k + 1))
                                } else {
                                    None
                                }
                            },
                        }
                    }
                },
            }
        }
    }
}

/// The JSON shape of a full text: one value, surrounded by nothing but
/// whitespace. Texts longer than 2^60 bytes are rejected outright.
pub open spec fn parse_json_spec(s: Seq<u8>) -> Option<JsonV> {
    if s.len() > 0x1000000000000000 {
        None
    } else {
        match pv(s, 0, (s.len() + 2) as nat) {
            Some((v, e)) => if wsk(s, e) == s.len() {
                Some(v)
            } else {
                None
            },
            None => None,
        }
    }
}

fn pv_exec(s: &[u8], i: usize, fuel: u64) -> (r: Option<(Json, usize)>)
    requires
        i <= s@.len(),
    ensures
        r is Some == pv(s@, i as int, fuel as nat) is Some,
        r matches Some(p) ==> ({
            let q = pv(s@, i as int, fuel as nat).unwrap();
            &&& jview(p.0) == q.0
            &&& p.1 == q.1
            &&& p.1 <= s@.len()
        }),
    decreases fuel, 0int,
{
    if fuel == 0 {
        return None;
    }
    let n = s.len();
    let j = wsk_exec(s, i);
    if j >= n {
        return None;
    }
    let b = s[j];
    if b == 110 {
        if n - j >= 4 && s[j + 1] == 117 && s[j + 2] == 108 && s[j + 3] == 108 {
            Some((Json::Null, j + 4))
        } else {
            None
        }
    } else if b == 116 {
        if n - j >= 4 && s[j + 1] == 114 && s[j + 2] == 117 && s[j + 3] == 101 {
            Some((Json::Bool(true), j + 4))
        } else {
            None
        }
    } else if b == 102 {
        if n - j >= 5 && s[j + 1] == 97 && s[j + 2] == 108 && s[j + 3] == 115 && s[j + 4] == 101 {
            Some((Json::Bool(false), j + 5))
        } else {
            None
        }
    } else if b == 34 {
        match str_end_exec(s, j + 1) {
            Some(e) => {
                let content = crate::btext::copy_range(s, j + 1, e);
                Some((Json::Str(content), e + 1))
            },
            None => None,
        }
    } else if b == 45 || (48 <= b && b <= 57) {
        let j2 = if b == 45 {
            j + 1
        } else {
            j
        };
        if j2 < n && 48 <= s[j2] && s[j2] <= 57 {
            let e = num_end_exec(s, j);
            let lit = crate::btext::copy_range(s, j, e);
            Some((Json::Num(lit), e))
        } else {
            None
        }
    } else if b == 91 {
        let k = wsk_exec(s, j + 1);
        if k < n && s[k] == 93 {
            let es: Vec<Json> = Vec::new();
            proof {
                assert(jview_elems(es@) =~= Seq::<JsonV>::empty());
            }
            Some((Json::Arr(es), k + 1))
        } else {
            match pelems_exec(s, j + 1, fuel - 1) {
                Some((vs, e)) => Some((Json::Arr(vs), e)),
                None => None,
            }
        }
    } else if b == 123 {
        let k = wsk_exec(s, j + 1);
        if k < n && s[k] == 125 {
            let fs: Vec<(Vec<u8>, Json)> = Vec::new();
            proof {
                assert(jview_fields(fs@) =~= Seq::<(Seq<u8>, JsonV)>::empty());
            }
            Some((Json::Obj(fs), k + 1))
        } else {
            match pfields_exec(s, j + 1, fuel - 1) {
                Some((fs, e)) => Some((Json::Obj(fs), e)),
                None => None,
            }
        }
    } else {
        None
    }
}

fn pelems_exec(s: &[u8], i: usize, fuel: u64) -> (r: Option<(Vec<Json>, usize)>)
    requires
        i <= s@.len(),
    ensures
        r is Some == pelems(s@, i as int, fuel as nat) is Some,
        r matches Some(p) ==> ({
            let q = pelems(s@, i as int, fuel as nat).unwrap();
            &&& jview_elems(p.0@) == q.0
            &&& p.1 == q.1
            &&& p.1 <= s@.len()
        }),
    decreases fuel, 1int,
{
    if fuel == 0 {
        return None;
    }
    let n = s.len();
    match pv_exec(s, i, fuel) {
        None => None,
        Some((v, e)) => {
            let k = wsk_exec(s, e);
            if k < n && s[k] == 44 {
                match pelems_exec(s, k + 1, fuel - 1) {
                    Some((vs2, e2)) => {
                        let mut vs = vs2;
                        vs.insert(0, v);
                        proof {
                            let ghost q = pelems(s@, i as int, fuel as nat).unwrap();
                            assert(vs@ =~= seq![v].add(vs2@));
                            lemma_jview_elems_prepend(v, vs2@);
                        }
                        Some((vs, e2))
                    },
                    None => None,
                }
            } else if k < n && s[k] == 93 {
                let mut vs: Vec<Json> = Vec::new();
                vs.push(v);
                proof {
                    assert(vs@ =~= seq![v]);
                    assert(vs@[0] == v);
                    assert(vs@.drop_first() =~= Seq::<Json>::empty());
                    assert(jview_elems(Seq::<Json>::empty()) =~= Seq::<JsonV>::empty());
                    assert(jview_elems(vs@) =~= seq![jview(v)]);
                }
                Some((vs, k + 1))
            } else {
                None
            }
        },
    }
}

proof fn lemma_jview_elems_prepend(v: Json, rest: Seq<Json>)
    ensures
        jview_elems(seq![v].add(rest)) == seq![jview(v)] + jview_elems(rest),
{
    let whole = seq![v].add(rest);
    assert(whole.len() == rest.len() + 1);
    assert(whole[0] == v);
    assert(whole.drop_first() =~= rest);
}

proof fn lemma_jview_fields_prepend(k: Vec<u8>, v: Json, rest: Seq<(Vec<u8>, Json)>)
    ensures
        jview_fields(seq![(k, v)].add(rest)) == seq![(k@, jview(v))] + jview_fields(rest),
{
    let whole = seq![(k, v)].add(rest);
    assert(whole.len() == rest.len() + 1);
    assert(whole[0] == (k, v));
    assert(whole.drop_first() =~= rest);
}

fn pfields_exec(s: &[u8], i: usize, fuel: u64) -> (r: Option<(Vec<(Vec<u8>, Json)>, usize)>)
    requires
        i <= s@.len(),
    ensures
        r is Some == pfields(s@, i as int, fuel as nat) is Some,
        r matches Some(p) ==> ({
            let q = pfields(s@, i as int, fuel as nat).unwrap();
            &&& jview_fields(p.0@) == q.0
            &&& p.1 == q.1
            &&& p.1 <= s@.len()
        }),
    decreases fuel, 1int,
{
    if fuel == 0 {
        return None;
    }
    let n = s.len();
    let j = wsk_exec(s, i);
    if !(j < n && s[j] == 34) {
        return None;
    }
    match str_end_exec(s, j + 1) {
        None => None,
        Some(ke) => {
            let key = crate::btext::copy_range(s, j + 1, ke);
            let c = wsk_exec(s, ke + 1);
            if !(c < n && s[c] == 58) {
                return None;
            }
            match pv_exec(s, c + 1, fuel) {
                None => None,
                Some((v, e)) => {
                    let k = wsk_exec(s, e);
                    if k < n && s[k] == 44 {
                        match pfields_exec(s, k + 1, fuel - 1) {
                            Some((fs2, e2)) => {
                                let mut fs = fs2;
                                fs.insert(0, (key, v));
                                proof {
                                    assert(fs@ =~= seq![(key, v)].add(fs2@));
                                    lemma_jview_fields_prepend(key, v, fs2@);
                                }
                                Some((fs, e2))
                            },
                            None => None,
                        }
                    } else if k < n && s[k] == 125 {
                        let mut fs: Vec<(Vec<u8>, Json)> = Vec::new();
                        fs.push((key, v));
                        proof {
                            assert(fs@ =~= seq![(key, v)]);
                            assert(fs@[0] == (key, v));
                            assert(fs@.drop_first() =~= Seq::<(Vec<u8>, Json)>::empty());
                            assert(jview_fields(Seq::<(Vec<u8>, Json)>::empty())
                                =~= Seq::<(Seq<u8>, JsonV)>::empty());
                            assert(jview_fields(fs@) =~= seq![(key@, jview(v))]);
                        }
                        Some((fs, k + 1))
                    } else {
                        None
                    }
                },
            }
        },
    }
}

/// Parse a full JSON text into a tree. Succeeds exactly when the text is
/// one JSON value surrounded by nothing but whitespace.
pub fn parse_json(s: &[u8]) -> (r: Option<Json>)
    ensures
        r is Some == parse_json_spec(s@) is Some,
        r matches Some(v) ==> jview(v) == parse_json_spec(s@).unwrap(),
{
    if (s.len() as u64) > 0x1000000000000000u64 {
        return None;
    }
    let fuel = (s.len() as u64) + 2;
    match pv_exec(s, 0, fuel) {
        None => None,
        Some((v, e)) => {
            let k = wsk_exec(s, e);
            if k == s.len() {
                Some(v)
            } else {
                None
            }
        },
    }
}

/// Value under `key` in an object's fields, searching from `i`; first
/// match wins.
pub open spec fn obj_get_from(fs: Seq<(Seq<u8>, JsonV)>, key: Seq<u8>, i: int) -> Option<JsonV>
    decreases fs.len() - i,
{
    if !(0 <= i < fs.len()) {
        None
    } else if fs[i].0 == key {
        Some(fs[i].1)
    } else {
        obj_get_from(fs, key, i + 1)
    }
}

/// Value under `key`, when the shape is an object that has it.
pub open spec fn jget(v: JsonV, key: Seq<u8>) -> Option<JsonV> {
    match v {
        JsonV::Obj(fs) => obj_get_from(fs, key, 0),
        _ => None,
    }
}

/// Element `i`, when the shape is an array that is long enough.
pub open spec fn jat(v: JsonV, i: int) -> Option<JsonV> {
    match v {
        JsonV::Arr(es) => if 0 <= i < es.len() {
            Some(es[i])
        } else {
            None
        },
        _ => None,
    }
}

/// Look up a field of a JSON object by key; `None` on any other shape or
/// when the key is absent.
pub fn get_field<'a>(v: &'a Json, key: &[u8]) -> (r: Option<&'a Json>)
    ensures
        r is Some == jget(jview(*v), key@) is Some,
        r matches Some(f) ==> jview(*f) == jget(jview(*v), key@).unwrap(),
{
    match v {
        Json::Obj(fs) => {
            proof {
                lemma_jview_fields_index(fs@);
            }
            let ghost gfs = jview_fields(fs@);
            let n = fs.len();
            let mut i: usize = 0;
            while i < n
                invariant
                    jview(*v) == JsonV::Obj(gfs),
                    n == fs@.len(),
                    0 <= i <= n,
                    gfs == jview_fields(fs@),
                    gfs.len() == n,
                    forall|k: int| 0 <= k < n ==> #[trigger] gfs[k] == (fs@[k].0@, jview(fs@[k].1)),
                    obj_get_from(gfs, key@, 0) == obj_get_from(gfs, key@, i as int),
                decreases n - i,
            {
                if crate::btext::bytes_eq(fs[i].0.as_slice(), key) {
                    proof {
                        assert(gfs[i as int].0 == key@);
                        assert(obj_get_from(gfs, key@, i as int) == Some(gfs[i as int].1));
                        assert(jview(fs@[i as int].1) == gfs[i as int].1);
                    }
                    return Some(&fs[i].1);
                }
                proof {
                    assert(gfs[i as int].0 != key@);
                }
                i = i + 1;
            }
            None
        },
        _ => None,
    }
}

/// Element `i` of a JSON array; `None` on any other shape or out of
/// range.
pub fn get_index<'a>(v: &'a Json, i: usize) -> (r: Option<&'a Json>)
    ensures
        r is Some == jat(jview(*v), i as int) is Some,
        r matches Some(f) ==> jview(*f) == jat(jview(*v), i as int).unwrap(),
{
    match v {
        Json::Arr(es) => {
            proof {
                lemma_jview_elems_index(es@);
            }
            if i < es.len() {
                Some(&es[i])
            } else {
                None
            }
        },
        _ => None,
    }
}

/// The raw bytes of a JSON string value.
pub open spec fn jv_str(v: JsonV) -> Option<Seq<u8>> {
    match v {
        JsonV::Str(c) => Some(c),
        _ => None,
    }
}

pub fn as_str_bytes<'a>(v: &'a Json) -> (r: Option<&'a Vec<u8>>)
    ensures
        r is Some == jv_str(jview(*v)) is Some,
        r matches Some(c) ==> c@ == jv_str(jview(*v)).unwrap(),
{
    match v {
        Json::Str(c) => Some(c),
        _ => None,
    }
}

/// A JSON boolean value.
pub open spec fn jv_bool(v: JsonV) -> Option<bool> {
    match v {
        JsonV::Bool(b) => Some(b),
        _ => None,
    }
}

pub fn as_bool(v: &Json) -> (r: Option<bool>)
    ensures
        r == jv_bool(jview(*v)),
{
    match v {
        Json::Bool(b) => Some(*b),
        _ => None,
    }
}

/// Thousandths denoted by an unsigned numeral, exponent form included:
/// a plain numeral reads directly; with an `e`/`E` part, the mantissa's
/// thousandths are scaled by the power of ten, truncating downward. An
/// exponent of more than two digits, or a value reaching 10^15 units,
/// is rejected as out of range.
pub open spec fn num_mag_milli(mag: Seq<u8>) -> Option<int> {
    let e = crate::numbers::exp_pos(mag, 0);
    if e == mag.len() {
        if crate::numbers::dec_ok(mag) {
            Some(crate::numbers::dec_milli(mag))
        } else {
            None
        }
    } else {
        let mant = mag.take(e);
        let rest = mag.skip(e + 1);
        let eneg = rest.len() > 0 && rest[0] == 45;
        let edig = if rest.len() > 0 && (rest[0] == 45 || rest[0] == 43) {
            rest.drop_first()
        } else {
            rest
        };
        if crate::numbers::dec_ok(mant) && crate::numbers::all_digits(edig) && 1 <= edig.len()
            <= 2 {
            let m = crate::numbers::dec_milli(mant);
            let k = crate::numbers::digits_val(edig);
            let scaled = if eneg {
                m / crate::numbers::pow10(k as nat)
            } else {
                m * crate::numbers::pow10(k as nat)
            };
            if scaled < 1000000000000001000 {
                Some(scaled)
            } else {
                None
            }
        } else {
            None
        }
    }
}

/// The value of a JSON number in thousandths of a unit, when its
/// (optionally signed) literal denotes one in range.
pub open spec fn jv_milli(v: JsonV) -> Option<int> {
    match v {
        JsonV::Num(l) => {
            match num_mag_milli(crate::readings::magnitude_of(l)) {
                Some(m) => Some(
                    if crate::readings::is_negative(l) {
                        -m
                    } else {
                        m
                    },
                ),
                None => None,
            }
        },
        _ => None,
    }
}

/// Every value a number field can denote stays within the 64-bit count
/// of thousandths.
pub proof fn lemma_jv_milli_range(v: JsonV)
    requires
        jv_milli(v) is Some,
    ensures
        -1000000000000001000 < jv_milli(v).unwrap() < 1000000000000001000,
{
    match v {
        JsonV::Num(l) => {
            let mag = crate::readings::magnitude_of(l);
            lemma_num_mag_milli_range(mag);
        },
        _ => {},
    }
}

proof fn lemma_num_mag_milli_range(mag: Seq<u8>)
    requires
        num_mag_milli(mag) is Some,
    ensures
        0 <= num_mag_milli(mag).unwrap() < 1000000000000001000,
{
    let e = crate::numbers::exp_pos(mag, 0);
    if e == mag.len() {
        crate::readings::lemma_dec_milli_range(mag);
    } else {
        let mant = mag.take(e);
        let rest = mag.skip(e + 1);
        let eneg = rest.len() > 0 && rest[0] == 45;
        let edig = if rest.len() > 0 && (rest[0] == 45 || rest[0] == 43) {
            rest.drop_first()
        } else {
            rest
        };
        let m = crate::numbers::dec_milli(mant);
        let k = crate::numbers::digits_val(edig);
        crate::readings::lemma_dec_milli_range(mant);
        crate::numbers::lemma_digits_val_bound(edig);
        crate::numbers::lemma_pow10_pos(k as nat);
        if eneg {
            vstd::arithmetic::div_mod::lemma_div_pos_is_pos(m, crate::numbers::pow10(k as nat));
        } else {
            assert(m * crate::numbers::pow10(k as nat) >= 0) by (nonlinear_arith)
                requires
                    m >= 0,
                    crate::numbers::pow10(k as nat) >= 1,
            ;
        }
    }
}

pub fn num_milli(v: &Json) -> (r: Option<i64>)
    ensures
        r is Some == jv_milli(jview(*v)) is Some,
        r matches Some(x) ==> x == jv_milli(jview(*v)).unwrap(),
{
    match v {
        Json::Num(l) => {
            let n = l.len();
            let (neg, mstart) = if n > 0 && l[0] == 45 {
                (true, 1usize)
            } else {
                (false, 0usize)
            };
            let mag = crate::btext::copy_range(l.as_slice(), mstart, n);
            proof {
                assert(mag@ =~= crate::readings::magnitude_of(l@));
            }
            match num_mag_milli_exec(mag.as_slice()) {
                None => None,
                Some(m) => {
                    if neg {
                        Some(-(m as i64))
                    } else {
                        Some(m as i64)
                    }
                },
            }
        },
        _ => None,
    }
}

fn num_mag_milli_exec(mag: &[u8]) -> (r: Option<u64>)
    ensures
        r is Some == num_mag_milli(mag@) is Some,
        r matches Some(m) ==> m == num_mag_milli(mag@).unwrap() && m < 1000000000000001000,
{
    let n = mag.len();
    let mut e: usize = 0;
    while e < n && !(mag[e] == 101 || mag[e] == 69)
        invariant
            n == mag@.len(),
            0 <= e <= n,
            crate::numbers::exp_pos(mag@, 0) == crate::numbers::exp_pos(mag@, e as int),
        decreases n - e,
    {
        e = e + 1;
    }
    assert(crate::numbers::exp_pos(mag@, 0) == e as int);
    if e == n {
        proof {
            assert(mag@.take(n as int) =~= mag@);
        }
        match crate::numbers::parse_dec_milli(mag) {
            None => None,
            Some(m) => {
                proof {
                    crate::readings::lemma_dec_milli_range(mag@);
                }
                Some(m)
            },
        }
    } else {
        let mant = crate::btext::copy_range(mag, 0, e);
        proof {
            assert(mant@ =~= mag@.take(e as int));
        }
        let m = match crate::numbers::parse_dec_milli(mant.as_slice()) {
            Some(m) => m,
            None => {
                return None;
            },
        };
        proof {
            crate::readings::lemma_dec_milli_range(mant@);
        }
        let rstart = e + 1;
        let ghost rest = mag@.skip(e + 1);
        if rstart >= n {
            proof {
                assert(rest.len() == 0);
            }
            return None;
        }
        proof {
            assert(rest[0] == mag@[rstart as int]);
        }
        let (eneg, dstart) = if mag[rstart] == 45 {
            (true, rstart + 1)
        } else if mag[rstart] == 43 {
            (false, rstart + 1)
        } else {
            (false, rstart)
        };
        let ghost edig = if rest.len() > 0 && (rest[0] == 45 || rest[0] == 43) {
            rest.drop_first()
        } else {
            rest
        };
        proof {
            assert(edig =~= mag@.subrange(dstart as int, n as int));
        }
        let dlen = n - dstart;
        if dlen == 0 || dlen > 2 {
            return None;
        }
        let d0 = mag[dstart];
        if !(48 <= d0 && d0 <= 57) {
            proof {
                assert(edig[0] == mag@[dstart as int]);
                assert(!crate::numbers::is_ascii_digit(edig[0]));
            }
            return None;
        }
        let mut k: u32 = (d0 - 48) as u32;
        if dlen == 2 {
            let d1 = mag[dstart + 1];
            if !(48 <= d1 && d1 <= 57) {
                proof {
                    assert(edig[1] == mag@[dstart + 1]);
                    assert(!crate::numbers::is_ascii_digit(edig[1]));
                }
                return None;
            }
            k = k * 10 + ((d1 - 48) as u32);
            proof {
                let s0 = seq![mag@[dstart as int]];
                assert(crate::numbers::digits_val(Seq::<u8>::empty()) == 0);
                assert(s0.drop_last() =~= Seq::<u8>::empty());
                assert(s0.last() == mag@[dstart as int]);
                assert(crate::numbers::digits_val(s0) == d0 - 48);
                assert(edig =~= seq![mag@[dstart as int], mag@[dstart + 1]]);
                assert(edig.drop_last() =~= s0);
                assert(edig.last() == mag@[dstart + 1]);
                assert(crate::numbers::digits_val(edig) == (d0 - 48) * 10 + (d1 - 48));
            }
        } else {
            proof {
                assert(crate::numbers::digits_val(Seq::<u8>::empty()) == 0);
                assert(edig =~= seq![mag@[dstart as int]]);
                assert(edig.drop_last() =~= Seq::<u8>::empty());
                assert(edig.last() == mag@[dstart as int]);
                assert(crate::numbers::digits_val(edig) == d0 - 48);
            }
        }
        proof {
            assert(crate::numbers::all_digits(edig)) by {
                assert(forall|i: int|
                    0 <= i < edig.len() ==> #[trigger] edig[i] == mag@[dstart + i]);
            }
        }
        let ghost m0 = crate::numbers::dec_milli(mant@);
        if eneg {
            // Scale down: divide by ten, `k` times.
            proof {
                crate::numbers::lemma_pow10_pos(k as nat);
                vstd::arithmetic::div_mod::lemma_div_is_ordered_by_denominator(
                    m0,
                    1,
                    crate::numbers::pow10(k as nat),
                );
                assert(m0 / 1 == m0);
                assert(num_mag_milli(mag@) == Some(m0 / crate::numbers::pow10(k as nat)));
            }
            let mut v = m;
            let mut j: u32 = 0;
            while j < k
                invariant
                    0 <= j <= k,
                    m == m0,
                    0 <= m0 < 1000000000000001000,
                    v == m0 / crate::numbers::pow10(j as nat),
                    num_mag_milli(mag@) == Some(m0 / crate::numbers::pow10(k as nat)),
                decreases k - j,
            {
                proof {
                    crate::numbers::lemma_pow10_pos(j as nat);
                    vstd::arithmetic::div_mod::lemma_div_denominator(
                        m0,
                        crate::numbers::pow10(j as nat),
                        10,
                    );
                    assert(crate::numbers::pow10((j + 1) as nat) == 10 * crate::numbers::pow10(
                        j as nat,
                    ));
                }
                v = v / 10;
                j = j + 1;
            }
            Some(v)
        } else {
            // Scale up: multiply by ten, `k` times, rejecting overflow.
            proof {
                assert(num_mag_milli(mag@) == (if m0 * crate::numbers::pow10(k as nat)
                    < 1000000000000001000 {
                    Some(m0 * crate::numbers::pow10(k as nat))
                } else {
                    None::<int>
                }));
            }
            let mut v = m;
            let mut j: u32 = 0;
            while j < k
                invariant
                    0 <= j <= k,
                    m == m0,
                    0 <= m0 < 1000000000000001000,
                    v == m0 * crate::numbers::pow10(j as nat),
                    v < 1000000000000001000,
                    num_mag_milli(mag@) == (if m0 * crate::numbers::pow10(k as nat)
                        < 1000000000000001000 {
                        Some(m0 * crate::numbers::pow10(k as nat))
                    } else {
                        None::<int>
                    }),
                decreases k - j,
            {
                let w = v * 10;
                proof {
                    assert(crate::numbers::pow10((j + 1) as nat) == 10 * crate::numbers::pow10(
                        j as nat,
                    ));
                    assert(w == m0 * crate::numbers::pow10((j + 1) as nat)) by (nonlinear_arith)
                        requires
                            v == m0 * crate::numbers::pow10(j as nat),
                            w == v * 10,
                            crate::numbers::pow10((j + 1) as nat) == 10 * crate::numbers::pow10(
                                j as nat,
                            ),
                    ;
                }
                if w >= 1000000000000001000 {
                    proof {
                        crate::numbers::lemma_pow10_mono((j + 1) as nat, k as nat);
                        assert(m0 * crate::numbers::pow10((j + 1) as nat) <= m0
                            * crate::numbers::pow10(k as nat)) by (nonlinear_arith)
                            requires
                                m0 >= 0,
                                crate::numbers::pow10((j + 1) as nat) <= crate::numbers::pow10(
                                    k as nat,
                                ),
                        ;
                    }
                    return None;
                }
                v = w;
                j = j + 1;
            }
            Some(v)
        }
    }
}

/// The value of a JSON number whose literal is a plain unsigned integer
/// of at most fifteen digits.
pub open spec fn jv_u64(v: JsonV) -> Option<int> {
    match v {
        JsonV::Num(l) => if crate::numbers::all_digits(l) && 1 <= l.len() <= 15 {
            Some(crate::numbers::digits_val(l))
        } else {
            None
        },
        _ => None,
    }
}

pub fn num_u64(v: &Json) -> (r: Option<u64>)
    ensures
        r is Some == jv_u64(jview(*v)) is Some,
        r matches Some(x) ==> x == jv_u64(jview(*v)).unwrap(),
{
    match v {
        Json::Num(l) => {
            let n = l.len();
            if n == 0 || n > 15 {
                return None;
            }
            let mut val: u64 = 0;
            let mut i: usize = 0;
            while i < n
                invariant
                    jview(*v) == JsonV::Num(l@),
                    n == l@.len(),
                    1 <= n <= 15,
                    0 <= i <= n,
                    crate::numbers::all_digits(l@.take(i as int)),
                    val == crate::numbers::digits_val(l@.take(i as int)),
                decreases n - i,
            {
                let b = l[i];
                if !(48 <= b && b <= 57) {
                    proof {
                        assert(!crate::numbers::is_ascii_digit(l@[i as int]));
                        assert(!crate::numbers::all_digits(l@));
                    }
                    return None;
                }
                proof {
                    let pre = l@.take(i as int);
                    assert(l@.take(i + 1).drop_last() =~= pre);
                    assert(l@.take(i + 1).last() == l@[i as int]);
                    crate::numbers::lemma_digits_val_bound(pre);
                    crate::numbers::lemma_pow10_mono(pre.len() as nat, 14);
                    assert(crate::numbers::pow10(14) == 100000000000000) by {
                        reveal_with_fuel(crate::numbers::pow10, 15);
                    }
                }
                val = val * 10 + ((b - 48) as u64);
                i = i + 1;
            }
            proof {
                assert(l@.take(n as int) =~= l@);
            }
            Some(val)
        },
        _ => None,
    }
}

/// The object's fields with the first binding of `key` (searching from
/// `i`) replaced by `val`, or with `(key, val)` appended when absent.
pub open spec fn obj_set_from(
    fs: Seq<(Seq<u8>, JsonV)>,
    key: Seq<u8>,
    val: JsonV,
    i: int,
) -> Seq<(Seq<u8>, JsonV)>
    decreases fs.len() - i,
{
    if !(0 <= i < fs.len()) {
        fs.push((key, val))
    } else if fs[i].0 == key {
        fs.update(i, (key, val))
    } else {
        obj_set_from(fs, key, val, i + 1)
    }
}

/// Replace (or add) the field `key` of a JSON object with `val`,
/// leaving every other field byte for byte as it was. Any other shape is
/// left unchanged.
pub fn set_field(v: &mut Json, key: &[u8], val: Json)
    ensures
        jview(*final(v)) == (match jview(*old(v)) {
            JsonV::Obj(fs) => JsonV::Obj(obj_set_from(fs, key@, jview(val), 0)),
            other => other,
        }),
{
    let ghost gval = jview(val);
    match v {
        Json::Obj(fs) => {
            proof {
                lemma_jview_fields_index(fs@);
            }
            let ghost gfs = jview_fields(fs@);
            let idx = find_field_idx(fs, key);
            let key_vec = crate::btext::copy_range(key, 0, key.len());
            proof {
                assert(key_vec@ =~= key@);
            }
            match idx {
                Some(i) => {
                    fs[i] = (key_vec, val);
                    proof {
                        lemma_jview_fields_index(fs@);
                        lemma_obj_set_found(gfs, key@, gval, i as int);
                        assert(jview_fields(fs@) =~= obj_set_from(gfs, key@, gval, 0));
                    }
                },
                None => {
                    fs.push((key_vec, val));
                    proof {
                        lemma_jview_fields_index(fs@);
                        lemma_obj_set_absent(gfs, key@, gval);
                        assert(jview_fields(fs@) =~= obj_set_from(gfs, key@, gval, 0));
                    }
                },
            }
        },
        _ => {
        },
    }
}

fn find_field_idx(fs: &Vec<(Vec<u8>, Json)>, key: &[u8]) -> (r: Option<usize>)
    ensures
        ({
            let gfs = jview_fields(fs@);
            match r {
                Some(i) => i < fs@.len() && gfs[i as int].0 == key@ && (forall|k: int|
                    0 <= k < i ==> (#[trigger] gfs[k]).0 != key@),
                None => forall|k: int| 0 <= k < gfs.len() ==> (#[trigger] gfs[k]).0 != key@,
            }
        }),
{
    proof {
        lemma_jview_fields_index(fs@);
    }
    let ghost gfs = jview_fields(fs@);
    let n = fs.len();
    let mut i: usize = 0;
    while i < n
        invariant
            n == fs@.len(),
            0 <= i <= n,
            gfs == jview_fields(fs@),
            gfs.len() == n,
            forall|k: int| 0 <= k < n ==> #[trigger] gfs[k] == (fs@[k].0@, jview(fs@[k].1)),
            forall|k: int| 0 <= k < i ==> (#[trigger] gfs[k]).0 != key@,
        decreases n - i,
    {
        if crate::btext::bytes_eq(fs[i].0.as_slice(), key) {
            proof {
                assert(gfs[i as int].0 == key@);
            }
            return Some(i);
        }
        proof {
            assert(gfs[i as int].0 != key@);
        }
        i = i + 1;
    }
    None
}

proof fn lemma_obj_set_found(fs: Seq<(Seq<u8>, JsonV)>, key: Seq<u8>, val: JsonV, i: int)
    requires
        0 <= i < fs.len(),
        fs[i].0 == key,
        forall|k: int| 0 <= k < i ==> (#[trigger] fs[k]).0 != key,
    ensures
        obj_set_from(fs, key, val, 0) == fs.update(i, (key, val)),
    decreases i,
{
    lemma_obj_set_found_from(fs, key, val, 0, i);
}

proof fn lemma_obj_set_found_from(fs: Seq<(Seq<u8>, JsonV)>, key: Seq<u8>, val: JsonV, j: int, i: int)
    requires
        0 <= j <= i < fs.len(),
        fs[i].0 == key,
        forall|k: int| j <= k < i ==> (#[trigger] fs[k]).0 != key,
    ensures
        obj_set_from(fs, key, val, j) == fs.update(i, (key, val)),
    decreases i - j,
{
    if j < i {
        lemma_obj_set_found_from(fs, key, val, j + 1, i);
    }
}

proof fn lemma_obj_set_absent(fs: Seq<(Seq<u8>, JsonV)>, key: Seq<u8>, val: JsonV)
    requires
        forall|k: int| 0 <= k < fs.len() ==> (#[trigger] fs[k]).0 != key,
    ensures
        obj_set_from(fs, key, val, 0) == fs.push((key, val)),
{
    lemma_obj_set_absent_from(fs, key, val, 0);
}

proof fn lemma_obj_set_absent_from(fs: Seq<(Seq<u8>, JsonV)>, key: Seq<u8>, val: JsonV, j: int)
    requires
        0 <= j <= fs.len(),
        forall|k: int| j <= k < fs.len() ==> (#[trigger] fs[k]).0 != key,
    ensures
        obj_set_from(fs, key, val, j) == fs.push((key, val)),
    decreases fs.len() - j,
{
    if j < fs.len() {
        lemma_obj_set_absent_from(fs, key, val, j + 1);
    }
}

} // verus!
