//! The follow-up detail commands: `stats`, `pools`, `version` and the
//! vendor-specific device details.
//!
//! Each follow-up tolerates failure on its own: a response that does not
//! parse leaves the corresponding snapshot fields untouched rather than
//! failing the whole operation. Temperatures arrive under `temp_chip*`
//! and `temp_pcb*` keys as numbers or dash-delimited lists — older
//! firmware also reports chip readings under bare `temp{N}` keys; fans
//! under `fan*` keys, reported ascending without repeats in the four
//! slots; pools are ordered by their reported priority before filling
//! the three slots.

use vstd::prelude::*;
use vstd::string::StringSliceAdditionalSpecFns;
use crate::btext::{contains_seq, all_ascii, bytes_to_string_lossy, copy_range, bytes_eq};
use crate::json::{Json, JsonV, jview, jget, jv_str, jv_milli, jv_u64, get_field, get_index,
    as_str_bytes, num_milli, num_u64, lemma_jview_fields_index, lemma_jview_elems_index,
    jview_fields, jview_elems};
use crate::models::{MinerStats, stats_eq};
use crate::readings::temp_pair;
use crate::summary::resp_root;

verus! {

/// `p` is a prefix of `s`.
pub open spec fn prefix_of(p: Seq<u8>, s: Seq<u8>) -> bool {
    s.len() >= p.len() && s.subrange(0, p.len() as int) == p
}

fn starts_with_bytes(s: &[u8], p: &[u8]) -> (r: bool)
    ensures
        r == prefix_of(p@, s@),
{
    if s.len() < p.len() {
        return false;
    }
    let head = copy_range(s, 0, p.len());
    bytes_eq(head.as_slice(), p)
}

/// The (min, max) pair one detail value denotes: a dash-delimited string
/// goes through the temperature reader; a plain positive number stands
/// for both ends.
pub open spec fn temp_value_pair(val: JsonV) -> Option<(int, int)> {
    match val {
        JsonV::Str(b) => temp_pair(b),
        JsonV::Num(_) => match jv_milli(val) {
            Some(m) => if m > 0 {
                Some((m, m))
            } else {
                None
            },
            None => None,
        },
        _ => None,
    }
}

fn temp_pair_of_value(v: &Json) -> (r: Option<(i64, i64)>)
    ensures
        r is Some == temp_value_pair(jview(*v)) is Some,
        r matches Some(p) ==> p.0 == temp_value_pair(jview(*v)).unwrap().0 && p.1
            == temp_value_pair(jview(*v)).unwrap().1,
{
    match v {
        Json::Str(b) => {
            match crate::readings::parse_temp_string_bytes(b.as_slice()) {
                (Some(mn), Some(mx)) => Some((mn, mx)),
                _ => None,
            }
        },
        Json::Num(_) => {
            match num_milli(v) {
                Some(m) => if m > 0 {
                    Some((m, m))
                } else {
                    None
                },
                None => None,
            }
        },
        _ => None,
    }
}

/// A bare `temp{N}` key, as older firmware reports chip temperatures:
/// it starts with `temp` and names no PCB reading, no count, and no
/// underscore-qualified family.
pub open spec fn generic_temp_key(key: Seq<u8>) -> bool {
    &&& prefix_of("temp".spec_bytes(), key)
    &&& !contains_seq(key, "pcb".spec_bytes())
    &&& !contains_seq(key, "num".spec_bytes())
    &&& !contains_seq(key, "_".spec_bytes())
}

/// The pairs contributed by one object field: the named key family reads
/// strings and numbers; with `generic` set (the chip pass), a bare
/// `temp{N}` key also contributes its plain positive number.
pub open spec fn temp_contribution(
    key: Seq<u8>,
    val: JsonV,
    prefix: Seq<u8>,
    generic: bool,
) -> Seq<(int, int)> {
    if prefix_of(prefix, key) {
        match temp_value_pair(val) {
            Some(p) => seq![p],
            None => Seq::empty(),
        }
    } else if generic && generic_temp_key(key) {
        match jv_milli(val) {
            Some(m) => if m > 0 {
                seq![(m, m)]
            } else {
                Seq::empty()
            },
            None => Seq::empty(),
        }
    } else {
        Seq::empty()
    }
}

/// The fan speed one field contributes: a `fan*` key that does not name
/// a count, with a positive integer value, clamped to 32 bits.
pub open spec fn fan_contribution(key: Seq<u8>, val: JsonV) -> Seq<int> {
    if prefix_of("fan".spec_bytes(), key) && !contains_seq(key, "num".spec_bytes()) {
        match jv_u64(val) {
            Some(v) => if v > 0 {
                seq![
                    if v > 0xFFFFFFFF {
                        0xFFFFFFFFint
                    } else {
                        v
                    },
                ]
            } else {
                Seq::empty()
            },
            None => Seq::empty(),
        }
    } else {
        Seq::empty()
    }
}

/// Pairs of the key family among the first `j` fields of an object.
pub open spec fn temps_fields(
    fs: Seq<(Seq<u8>, JsonV)>,
    j: int,
    prefix: Seq<u8>,
    generic: bool,
) -> Seq<(int, int)>
    decreases j,
{
    if j <= 0 || j > fs.len() {
        Seq::empty()
    } else {
        temps_fields(fs, j - 1, prefix, generic) + temp_contribution(
            fs[j - 1].0,
            fs[j - 1].1,
            prefix,
            generic,
        )
    }
}

pub open spec fn fans_fields(fs: Seq<(Seq<u8>, JsonV)>, j: int) -> Seq<int>
    decreases j,
{
    if j <= 0 || j > fs.len() {
        Seq::empty()
    } else {
        fans_fields(fs, j - 1) + fan_contribution(fs[j - 1].0, fs[j - 1].1)
    }
}

pub open spec fn temps_obj(v: JsonV, prefix: Seq<u8>, generic: bool) -> Seq<(int, int)> {
    match v {
        JsonV::Obj(fs) => temps_fields(fs, fs.len() as int, prefix, generic),
        _ => Seq::empty(),
    }
}

pub open spec fn fans_obj(v: JsonV) -> Seq<int> {
    match v {
        JsonV::Obj(fs) => fans_fields(fs, fs.len() as int),
        _ => Seq::empty(),
    }
}

/// Pairs across the first `i` objects of the `STATS` array.
pub open spec fn temps_elems(
    es: Seq<JsonV>,
    i: int,
    prefix: Seq<u8>,
    generic: bool,
) -> Seq<(int, int)>
    decreases i,
{
    if i <= 0 || i > es.len() {
        Seq::empty()
    } else {
        temps_elems(es, i - 1, prefix, generic) + temps_obj(es[i - 1], prefix, generic)
    }
}

pub open spec fn fans_elems(es: Seq<JsonV>, i: int) -> Seq<int>
    decreases i,
{
    if i <= 0 || i > es.len() {
        Seq::empty()
    } else {
        fans_elems(es, i - 1) + fans_obj(es[i - 1])
    }
}

/// All (min, max) pairs of the key family across the response's `STATS`
/// array.
pub open spec fn stats_temps(root: JsonV, prefix: Seq<u8>, generic: bool) -> Seq<(int, int)> {
    match jget(root, "STATS".spec_bytes()) {
        Some(a) => match a {
            JsonV::Arr(es) => temps_elems(es, es.len() as int, prefix, generic),
            _ => Seq::empty(),
        },
        None => Seq::empty(),
    }
}

/// All fan speeds across the response's `STATS` array.
pub open spec fn stats_fans(root: JsonV) -> Seq<int> {
    match jget(root, "STATS".spec_bytes()) {
        Some(a) => match a {
            JsonV::Arr(es) => fans_elems(es, es.len() as int),
            _ => Seq::empty(),
        },
        None => Seq::empty(),
    }
}

pub open spec fn firsts(ps: Seq<(int, int)>) -> Seq<Option<i64>> {
    Seq::new(ps.len(), |i: int| Some(ps[i].0 as i64))
}

pub open spec fn seconds(ps: Seq<(int, int)>) -> Seq<Option<i64>> {
    Seq::new(ps.len(), |i: int| Some(ps[i].1 as i64))
}

pub open spec fn fan_opts(vs: Seq<int>) -> Seq<Option<u32>> {
    Seq::new(vs.len(), |i: int| Some(vs[i] as u32))
}

pub open spec fn ints_of(vs: Seq<u32>) -> Seq<int> {
    Seq::new(vs.len(), |i: int| vs[i] as int)
}

/// Index of the first element at or after `i` that is at least `v`.
pub open spec fn first_geq(acc: Seq<int>, v: int, i: int) -> int
    decreases acc.len() - i,
{
    if !(0 <= i < acc.len()) {
        acc.len() as int
    } else if acc[i] >= v {
        i
    } else {
        first_geq(acc, v, i + 1)
    }
}

/// Insert `v` into an ascending list at its place, unless present.
pub open spec fn ins_sorted(acc: Seq<int>, v: int) -> Seq<int> {
    let i = first_geq(acc, v, 0);
    if i < acc.len() && acc[i] == v {
        acc
    } else {
        acc.insert(i, v)
    }
}

/// The first `k` readings accumulated in ascending order, duplicates
/// dropped.
pub open spec fn sorted_unique(vs: Seq<int>, k: int) -> Seq<int>
    decreases k,
{
    if k <= 0 || k > vs.len() {
        Seq::empty()
    } else {
        ins_sorted(sorted_unique(vs, k - 1), vs[k - 1])
    }
}

/// The snapshot's fan slots: every reported fan speed, ascending and
/// duplicate-free — several objects repeat the same fans — cut to the
/// four slots the snapshot carries.
pub open spec fn fans_final(root: JsonV) -> Seq<int> {
    let s = sorted_unique(stats_fans(root), stats_fans(root).len() as int);
    if s.len() <= 4 {
        s
    } else {
        s.take(4)
    }
}

fn temps_of_obj(
    v: &Json,
    prefix: &[u8],
    generic: bool,
    out_min: &mut Vec<Option<i64>>,
    out_max: &mut Vec<Option<i64>>,
)
    ensures
        final(out_min)@ == old(out_min)@ + firsts(temps_obj(jview(*v), prefix@, generic)),
        final(out_max)@ == old(out_max)@ + seconds(temps_obj(jview(*v), prefix@, generic)),
{
    match v {
        Json::Obj(fs) => {
            proof {
                lemma_jview_fields_index(fs@);
            }
            let ghost gfs = jview_fields(fs@);
            let n = fs.len();
            let mut j: usize = 0;
            while j < n
                invariant
                    jview(*v) == JsonV::Obj(gfs),
                    n == fs@.len(),
                    0 <= j <= n,
                    gfs == jview_fields(fs@),
                    gfs.len() == n,
                    forall|k: int|
                        0 <= k < n ==> #[trigger] gfs[k] == (fs@[k].0@, jview(fs@[k].1)),
                    out_min@ == old(out_min)@ + firsts(
                        temps_fields(gfs, j as int, prefix@, generic),
                    ),
                    out_max@ == old(out_max)@ + seconds(
                        temps_fields(gfs, j as int, prefix@, generic),
                    ),
                decreases n - j,
            {
                let ghost pre = temps_fields(gfs, j as int, prefix@, generic);
                let ghost piece = temp_contribution(
                    gfs[j as int].0,
                    gfs[j as int].1,
                    prefix@,
                    generic,
                );
                if starts_with_bytes(fs[j].0.as_slice(), prefix) {
                    match temp_pair_of_value(&fs[j].1) {
                        Some(p) => {
                            out_min.push(Some(p.0));
                            out_max.push(Some(p.1));
                        },
                        None => {},
                    }
                } else if generic && starts_with_bytes(fs[j].0.as_slice(), "temp".as_bytes())
                    && !crate::btext::contains_bytes(fs[j].0.as_slice(), "pcb".as_bytes())
                    && !crate::btext::contains_bytes(fs[j].0.as_slice(), "num".as_bytes())
                    && !crate::btext::contains_bytes(fs[j].0.as_slice(), "_".as_bytes()) {
                    match num_milli(&fs[j].1) {
                        Some(m) => {
                            if m > 0 {
                                out_min.push(Some(m));
                                out_max.push(Some(m));
                            }
                        },
                        None => {},
                    }
                }
                proof {
                    assert(temps_fields(gfs, j + 1, prefix@, generic) == pre + piece);
                    assert(firsts(pre + piece) =~= firsts(pre) + firsts(piece));
                    assert(seconds(pre + piece) =~= seconds(pre) + seconds(piece));
                    assert(out_min@ =~= old(out_min)@ + firsts(
                        temps_fields(gfs, j + 1, prefix@, generic),
                    ));
                    assert(out_max@ =~= old(out_max)@ + seconds(
                        temps_fields(gfs, j + 1, prefix@, generic),
                    ));
                }
                j = j + 1;
            }
        },
        _ => {
            proof {
                assert(out_min@ =~= old(out_min)@ + firsts(
                    temps_obj(jview(*v), prefix@, generic),
                ));
                assert(out_max@ =~= old(out_max)@ + seconds(
                    temps_obj(jview(*v), prefix@, generic),
                ));
            }
        },
    }
}

fn fans_of_obj(v: &Json, out: &mut Vec<u32>)
    ensures
        ints_of(final(out)@) == ints_of(old(out)@) + fans_obj(jview(*v)),
{
    match v {
        Json::Obj(fs) => {
            proof {
                lemma_jview_fields_index(fs@);
            }
            let ghost gfs = jview_fields(fs@);
            let n = fs.len();
            let mut j: usize = 0;
            while j < n
                invariant
                    jview(*v) == JsonV::Obj(gfs),
                    n == fs@.len(),
                    0 <= j <= n,
                    gfs == jview_fields(fs@),
                    gfs.len() == n,
                    forall|k: int|
                        0 <= k < n ==> #[trigger] gfs[k] == (fs@[k].0@, jview(fs@[k].1)),
                    ints_of(out@) == ints_of(old(out)@) + fans_fields(gfs, j as int),
                decreases n - j,
            {
                let ghost pre = fans_fields(gfs, j as int);
                let ghost piece = fan_contribution(gfs[j as int].0, gfs[j as int].1);
                if starts_with_bytes(fs[j].0.as_slice(), "fan".as_bytes()) && !crate::btext::contains_bytes(
                    fs[j].0.as_slice(),
                    "num".as_bytes(),
                ) {
                    match num_u64(&fs[j].1) {
                        Some(s) => {
                            if s > 0 {
                                let c: u32 = if s > 0xFFFFFFFF {
                                    0xFFFFFFFFu32
                                } else {
                                    s as u32
                                };
                                let ghost pv = out@;
                                out.push(c);
                                proof {
                                    assert(piece =~= seq![c as int]);
                                    assert(ints_of(out@) =~= ints_of(pv).push(c as int));
                                }
                            }
                        },
                        None => {},
                    }
                }
                proof {
                    assert(fans_fields(gfs, j + 1) == pre + piece);
                    assert(ints_of(out@) =~= ints_of(old(out)@) + fans_fields(gfs, j + 1));
                }
                j = j + 1;
            }
        },
        _ => {
            proof {
                assert(ints_of(out@) =~= ints_of(old(out)@) + fans_obj(jview(*v)));
            }
        },
    }
}

/// Put one fan reading into its ascending place, unless already there.
fn insert_fan(fans: &mut Vec<u32>, v: u32)
    ensures
        ints_of(final(fans)@) == ins_sorted(ints_of(old(fans)@), v as int),
{
    let ghost acc = ints_of(fans@);
    let n = fans.len();
    let mut i: usize = 0;
    while i < n && fans[i] < v
        invariant
            n == fans@.len(),
            acc == ints_of(fans@),
            0 <= i <= n,
            first_geq(acc, v as int, 0) == first_geq(acc, v as int, i as int),
        decreases n - i,
    {
        proof {
            assert(acc[i as int] == fans@[i as int] as int);
        }
        i = i + 1;
    }
    proof {
        if i < n {
            assert(acc[i as int] == fans@[i as int] as int);
        }
        assert(first_geq(acc, v as int, 0) == i as int);
    }
    if i < n && fans[i] == v {
        proof {
            assert(acc[i as int] == v as int);
            assert(ints_of(fans@) =~= ins_sorted(acc, v as int));
        }
        return ;
    }
    let ghost before = fans@;
    fans.insert(i, v);
    proof {
        assert(fans@ =~= before.insert(i as int, v));
        assert(ints_of(fans@) =~= ints_of(before).insert(i as int, v as int));
        assert(ints_of(fans@) =~= ins_sorted(acc, v as int));
    }
}

/// Read every temperature pair and fan speed out of a parsed `stats`
/// response and install them in the snapshot; all other fields are kept.
/// The chip pass also reads bare `temp{N}` keys; the fan slots come out
/// ascending, duplicate-free and at most four.
pub fn apply_stats_root(stats: &mut MinerStats, root: &Json)
    ensures
        final(stats).temp_outlet_min@ == firsts(
            stats_temps(jview(*root), "temp_chip".spec_bytes(), true),
        ),
        final(stats).temp_outlet_max@ == seconds(
            stats_temps(jview(*root), "temp_chip".spec_bytes(), true),
        ),
        final(stats).temp_inlet_min@ == firsts(
            stats_temps(jview(*root), "temp_pcb".spec_bytes(), false),
        ),
        final(stats).temp_inlet_max@ == seconds(
            stats_temps(jview(*root), "temp_pcb".spec_bytes(), false),
        ),
        final(stats).fan_speeds@ == fan_opts(fans_final(jview(*root))),
        final(stats).hashrate_rt == old(stats).hashrate_rt,
        final(stats).hashrate_avg == old(stats).hashrate_avg,
        final(stats).uptime == old(stats).uptime,
        final(stats).pool1 == old(stats).pool1 && final(stats).worker1 == old(stats).worker1,
        final(stats).pool2 == old(stats).pool2 && final(stats).worker2 == old(stats).worker2,
        final(stats).pool3 == old(stats).pool3 && final(stats).worker3 == old(stats).worker3,
        final(stats).model == old(stats).model,
        final(stats).firmware == old(stats).firmware,
        final(stats).software == old(stats).software,
        final(stats).hardware == old(stats).hardware,
        final(stats).mac_address == old(stats).mac_address,
{
    let mut omin: Vec<Option<i64>> = Vec::new();
    let mut omax: Vec<Option<i64>> = Vec::new();
    let mut imin: Vec<Option<i64>> = Vec::new();
    let mut imax: Vec<Option<i64>> = Vec::new();
    let mut raw_fans: Vec<u32> = Vec::new();
    match get_field(root, "STATS".as_bytes()) {
        Some(a) => {
            match a {
                Json::Arr(es) => {
                    proof {
                        lemma_jview_elems_index(es@);
                    }
                    let ghost ges = jview_elems(es@);
                    let n = es.len();
                    let mut i: usize = 0;
                    while i < n
                        invariant
                            jview(*a) == JsonV::Arr(ges),
                            n == es@.len(),
                            0 <= i <= n,
                            ges == jview_elems(es@),
                            ges.len() == n,
                            forall|k: int| 0 <= k < n ==> #[trigger] ges[k] == jview(es@[k]),
                            omin@ == firsts(
                                temps_elems(ges, i as int, "temp_chip".spec_bytes(), true),
                            ),
                            omax@ == seconds(
                                temps_elems(ges, i as int, "temp_chip".spec_bytes(), true),
                            ),
                            imin@ == firsts(
                                temps_elems(ges, i as int, "temp_pcb".spec_bytes(), false),
                            ),
                            imax@ == seconds(
                                temps_elems(ges, i as int, "temp_pcb".spec_bytes(), false),
                            ),
                            ints_of(raw_fans@) == fans_elems(ges, i as int),
                        decreases n - i,
                    {
                        temps_of_obj(&es[i], "temp_chip".as_bytes(), true, &mut omin, &mut omax);
                        temps_of_obj(&es[i], "temp_pcb".as_bytes(), false, &mut imin, &mut imax);
                        fans_of_obj(&es[i], &mut raw_fans);
                        proof {
                            let gc = "temp_chip".spec_bytes();
                            let gp = "temp_pcb".spec_bytes();
                            assert(temps_elems(ges, i + 1, gc, true) == temps_elems(
                                ges,
                                i as int,
                                gc,
                                true,
                            ) + temps_obj(ges[i as int], gc, true));
                            assert(temps_elems(ges, i + 1, gp, false) == temps_elems(
                                ges,
                                i as int,
                                gp,
                                false,
                            ) + temps_obj(ges[i as int], gp, false));
                            assert(fans_elems(ges, i + 1) == fans_elems(ges, i as int) + fans_obj(
                                ges[i as int],
                            ));
                            assert(firsts(temps_elems(ges, i as int, gc, true) + temps_obj(
                                ges[i as int],
                                gc,
                                true,
                            )) =~= firsts(temps_elems(ges, i as int, gc, true)) + firsts(temps_obj(
                                ges[i as int],
                                gc,
                                true,
                            )));
                            assert(seconds(temps_elems(ges, i as int, gc, true) + temps_obj(
                                ges[i as int],
                                gc,
                                true,
                            )) =~= seconds(temps_elems(ges, i as int, gc, true)) + seconds(
                                temps_obj(ges[i as int], gc, true),
                            ));
                            assert(firsts(temps_elems(ges, i as int, gp, false) + temps_obj(
                                ges[i as int],
                                gp,
                                false,
                            )) =~= firsts(temps_elems(ges, i as int, gp, false)) + firsts(
                                temps_obj(ges[i as int], gp, false),
                            ));
                            assert(seconds(temps_elems(ges, i as int, gp, false) + temps_obj(
                                ges[i as int],
                                gp,
                                false,
                            )) =~= seconds(temps_elems(ges, i as int, gp, false)) + seconds(
                                temps_obj(ges[i as int], gp, false),
                            ));
                        }
                        i = i + 1;
                    }
                },
                _ => {
                    proof {
                        assert(firsts(Seq::<(int, int)>::empty()) =~= Seq::<Option<i64>>::empty());
                        assert(seconds(Seq::<(int, int)>::empty()) =~= Seq::<Option<i64>>::empty());
                        assert(ints_of(raw_fans@) =~= Seq::<int>::empty());
                    }
                },
            }
        },
        None => {
            proof {
                assert(firsts(Seq::<(int, int)>::empty()) =~= Seq::<Option<i64>>::empty());
                assert(seconds(Seq::<(int, int)>::empty()) =~= Seq::<Option<i64>>::empty());
                assert(ints_of(raw_fans@) =~= Seq::<int>::empty());
            }
        },
    }
    let ghost wire = stats_fans(jview(*root));
    proof {
        assert(ints_of(raw_fans@) == wire);
    }
    // Order the fan readings, drop repeats, and keep the four slots.
    let mut sorted_f: Vec<u32> = Vec::new();
    let m = raw_fans.len();
    let mut j: usize = 0;
    while j < m
        invariant
            m == raw_fans@.len(),
            0 <= j <= m,
            ints_of(raw_fans@) == wire,
            ints_of(sorted_f@) == sorted_unique(wire, j as int),
        decreases m - j,
    {
        proof {
            assert(ints_of(raw_fans@)[j as int] == raw_fans@[j as int] as int);
        }
        insert_fan(&mut sorted_f, raw_fans[j]);
        proof {
            assert(sorted_unique(wire, j + 1) == ins_sorted(sorted_unique(wire, j as int), wire[
                j as int]));
        }
        j = j + 1;
    }
    if sorted_f.len() > 4 {
        sorted_f.truncate(4);
        proof {
            assert(ints_of(sorted_f@) =~= fans_final(jview(*root)));
        }
    } else {
        proof {
            assert(ints_of(sorted_f@) =~= fans_final(jview(*root)));
        }
    }
    let mut fout: Vec<Option<u32>> = Vec::new();
    let fl = sorted_f.len();
    let mut k: usize = 0;
    while k < fl
        invariant
            fl == sorted_f@.len(),
            0 <= k <= fl,
            fout@.len() == k,
            forall|x: int| 0 <= x < k ==> #[trigger] fout@[x] == Some(sorted_f@[x]),
        decreases fl - k,
    {
        fout.push(Some(sorted_f[k]));
        k = k + 1;
    }
    proof {
        assert(fout@ =~= fan_opts(fans_final(jview(*root))));
    }
    stats.temp_outlet_min = omin;
    stats.temp_outlet_max = omax;
    stats.temp_inlet_min = imin;
    stats.temp_inlet_max = imax;
    stats.fan_speeds = fout;
}

/// Parse a raw `stats` response and install its readings; a response
/// that does not parse as JSON leaves the snapshot untouched.
pub fn apply_stats_response(stats: &mut MinerStats, text: &str)
    ensures
        resp_root(text@) is None ==> stats_eq(*final(stats), *old(stats)),
        resp_root(text@) matches Some(root) ==> ({
            &&& final(stats).temp_outlet_min@ == firsts(
                stats_temps(root, "temp_chip".spec_bytes(), true),
            )
            &&& final(stats).temp_outlet_max@ == seconds(
                stats_temps(root, "temp_chip".spec_bytes(), true),
            )
            &&& final(stats).temp_inlet_min@ == firsts(
                stats_temps(root, "temp_pcb".spec_bytes(), false),
            )
            &&& final(stats).temp_inlet_max@ == seconds(
                stats_temps(root, "temp_pcb".spec_bytes(), false),
            )
            &&& final(stats).fan_speeds@ == fan_opts(fans_final(root))
            &&& final(stats).hashrate_rt == old(stats).hashrate_rt
            &&& final(stats).hashrate_avg == old(stats).hashrate_avg
            &&& final(stats).uptime == old(stats).uptime
            &&& final(stats).pool1 == old(stats).pool1
            &&& final(stats).worker1 == old(stats).worker1
            &&& final(stats).pool2 == old(stats).pool2
            &&& final(stats).worker2 == old(stats).worker2
            &&& final(stats).pool3 == old(stats).pool3
            &&& final(stats).worker3 == old(stats).worker3
            &&& final(stats).model == old(stats).model
            &&& final(stats).firmware == old(stats).firmware
            &&& final(stats).software == old(stats).software
            &&& final(stats).hardware == old(stats).hardware
            &&& final(stats).mac_address == old(stats).mac_address
        }),
{
    let body = match crate::cleanup::extract_clean_json(text) {
        Some(b) => b,
        None => {
            return ;
        },
    };
    match crate::json::parse_json(body.as_str().as_bytes()) {
        Some(root) => {
            apply_stats_root(stats, &root);
        },
        None => {},
    }
}

/// One pool record read from a `POOLS` array element: its reported
/// priority, URL and worker name. All three must be present.
pub open spec fn pool_entry(v: JsonV) -> Option<(int, Seq<u8>, Seq<u8>)> {
    let url = match jget(v, "URL".spec_bytes()) {
        Some(u) => jv_str(u),
        None => None,
    };
    let user = match jget(v, "User".spec_bytes()) {
        Some(u) => jv_str(u),
        None => None,
    };
    let prio = match jget(v, "Priority".spec_bytes()) {
        Some(p) => jv_u64(p),
        None => None,
    };
    if url is Some && user is Some && prio is Some {
        Some((prio.unwrap(), url.unwrap(), user.unwrap()))
    } else {
        None
    }
}

/// The pool records of the first `i` elements; any malformed element
/// spoils the whole list, as a strict decoder would.
pub open spec fn pools_list(es: Seq<JsonV>, i: int) -> Option<Seq<(int, Seq<u8>, Seq<u8>)>>
    decreases i,
{
    if i <= 0 || i > es.len() {
        Some(Seq::empty())
    } else {
        match pools_list(es, i - 1) {
            None => None,
            Some(acc) => match pool_entry(es[i - 1]) {
                Some(e) => Some(acc.push(e)),
                None => None,
            },
        }
    }
}

/// The pool records of a `pools` response, if well formed.
pub open spec fn resp_pools(root: JsonV) -> Option<Seq<(int, Seq<u8>, Seq<u8>)>> {
    match jget(root, "POOLS".spec_bytes()) {
        Some(a) => match a {
            JsonV::Arr(es) => pools_list(es, es.len() as int),
            _ => None,
        },
        None => None,
    }
}

/// Index of the first record with minimal priority in the suffix from
/// `i`.
pub open spec fn min_idx(ps: Seq<(int, Seq<u8>, Seq<u8>)>, i: int) -> int
    decreases ps.len() - i,
{
    if i >= ps.len() - 1 {
        i
    } else {
        let m = min_idx(ps, i + 1);
        if ps[i].0 <= ps[m].0 {
            i
        } else {
            m
        }
    }
}

/// The pool records in device-reported priority order, ascending, up to
/// the three slots the snapshot carries: repeatedly the earliest record
/// of minimal priority, as a stable sort would place them.
pub open spec fn pools_slots(ps: Seq<(int, Seq<u8>, Seq<u8>)>) -> Seq<(int, Seq<u8>, Seq<u8>)> {
    if ps.len() == 0 {
        Seq::empty()
    } else {
        let m0 = min_idx(ps, 0);
        let ps1 = ps.remove(m0);
        if ps1.len() == 0 {
            seq![ps[m0]]
        } else {
            let m1 = min_idx(ps1, 0);
            let ps2 = ps1.remove(m1);
            if ps2.len() == 0 {
                seq![ps[m0], ps1[m1]]
            } else {
                let m2 = min_idx(ps2, 0);
                seq![ps[m0], ps1[m1], ps2[m2]]
            }
        }
    }
}

struct PoolRec {
    priority: u64,
    url: Vec<u8>,
    user: Vec<u8>,
}

spec fn rec_v(r: PoolRec) -> (int, Seq<u8>, Seq<u8>) {
    (r.priority as int, r.url@, r.user@)
}

spec fn recs_v(rs: Seq<PoolRec>) -> Seq<(int, Seq<u8>, Seq<u8>)> {
    Seq::new(rs.len(), |i: int| rec_v(rs[i]))
}

fn pool_entry_exec(v: &Json) -> (r: Option<PoolRec>)
    ensures
        r is Some == pool_entry(jview(*v)) is Some,
        r matches Some(p) ==> rec_v(p) == pool_entry(jview(*v)).unwrap(),
{
    let url = match get_field(v, "URL".as_bytes()) {
        Some(u) => match as_str_bytes(u) {
            Some(b) => copy_range(b.as_slice(), 0, b.len()),
            None => {
                return None;
            },
        },
        None => {
            return None;
        },
    };
    let user = match get_field(v, "User".as_bytes()) {
        Some(u) => match as_str_bytes(u) {
            Some(b) => copy_range(b.as_slice(), 0, b.len()),
            None => {
                return None;
            },
        },
        None => {
            return None;
        },
    };
    let prio = match get_field(v, "Priority".as_bytes()) {
        Some(p) => match num_u64(p) {
            Some(x) => x,
            None => {
                return None;
            },
        },
        None => {
            return None;
        },
    };
    proof {
        assert(url@ =~= pool_entry(jview(*v)).unwrap().1);
        assert(user@ =~= pool_entry(jview(*v)).unwrap().2);
    }
    Some(PoolRec { priority: prio, url, user })
}

fn find_min(ps: &Vec<PoolRec>) -> (r: usize)
    requires
        ps@.len() >= 1,
    ensures
        r == min_idx(recs_v(ps@), 0),
        r < ps@.len(),
{
    let n = ps.len();
    let ghost g = recs_v(ps@);
    let mut idx: usize = n - 1;
    let mut k: usize = n - 1;
    while k > 0
        invariant
            n == ps@.len(),
            g == recs_v(ps@),
            g.len() == n,
            0 <= k <= n - 1,
            k <= idx < n,
            idx == min_idx(g, k as int),
        decreases k,
    {
        k = k - 1;
        proof {
            assert(g[k as int].0 == ps@[k as int].priority as int);
            assert(g[idx as int].0 == ps@[idx as int].priority as int);
        }
        if ps[k].priority <= ps[idx].priority {
            idx = k;
        }
    }
    idx
}

/// Read and order the pool records of a parsed `pools` response, filling
/// the snapshot's three slots by ascending reported priority; a
/// malformed response clears no field and sets none.
pub fn apply_pools_root(stats: &mut MinerStats, root: &Json)
    ensures
        resp_pools(jview(*root)) is None ==> stats_eq(*final(stats), *old(stats)),
        resp_pools(jview(*root)) matches Some(ps) ==> ({
            let slots = pools_slots(ps);
            &&& pool_slot_matches(final(stats).pool1, final(stats).worker1, slots, 0)
            &&& pool_slot_matches(final(stats).pool2, final(stats).worker2, slots, 1)
            &&& pool_slot_matches(final(stats).pool3, final(stats).worker3, slots, 2)
            &&& final(stats).hashrate_rt == old(stats).hashrate_rt
            &&& final(stats).hashrate_avg == old(stats).hashrate_avg
            &&& final(stats).temp_outlet_min@ == old(stats).temp_outlet_min@
            &&& final(stats).temp_outlet_max@ == old(stats).temp_outlet_max@
            &&& final(stats).temp_inlet_min@ == old(stats).temp_inlet_min@
            &&& final(stats).temp_inlet_max@ == old(stats).temp_inlet_max@
            &&& final(stats).fan_speeds@ == old(stats).fan_speeds@
            &&& final(stats).uptime == old(stats).uptime
            &&& final(stats).model == old(stats).model
            &&& final(stats).firmware == old(stats).firmware
            &&& final(stats).software == old(stats).software
            &&& final(stats).hardware == old(stats).hardware
            &&& final(stats).mac_address == old(stats).mac_address
        }),
{
    let recs = match collect_pools(root) {
        Some(r) => r,
        None => {
            return ;
        },
    };
    let mut rest = recs;
    let mut slot: usize = 0;
    let mut urls: Vec<Option<String>> = Vec::new();
    let mut users: Vec<Option<String>> = Vec::new();
    let ghost ps = resp_pools(jview(*root)).unwrap();
    let ghost slots = pools_slots(ps);
    // Slot 1.
    if rest.len() > 0 {
        let m = find_min(&rest);
        let ghost before = recs_v(rest@);
        let e = rest.remove(m);
        proof {
            assert(recs_v(rest@) =~= before.remove(m as int));
        }
        stats.pool1 = Some(bytes_to_string_lossy(e.url.as_slice()));
        stats.worker1 = Some(bytes_to_string_lossy(e.user.as_slice()));
        proof {
            assert(rec_v(e) == slots[0]);
        }
        // Slot 2.
        if rest.len() > 0 {
            let m1 = find_min(&rest);
            let ghost before1 = recs_v(rest@);
            let e1 = rest.remove(m1);
            proof {
                assert(recs_v(rest@) =~= before1.remove(m1 as int));
            }
            stats.pool2 = Some(bytes_to_string_lossy(e1.url.as_slice()));
            stats.worker2 = Some(bytes_to_string_lossy(e1.user.as_slice()));
            proof {
                assert(rec_v(e1) == slots[1]);
            }
            // Slot 3.
            if rest.len() > 0 {
                let m2 = find_min(&rest);
                let e2 = rest.remove(m2);
                stats.pool3 = Some(bytes_to_string_lossy(e2.url.as_slice()));
                stats.worker3 = Some(bytes_to_string_lossy(e2.user.as_slice()));
                proof {
                    assert(rec_v(e2) == slots[2]);
                }
            } else {
                stats.pool3 = None;
                stats.worker3 = None;
            }
        } else {
            stats.pool2 = None;
            stats.worker2 = None;
            stats.pool3 = None;
            stats.worker3 = None;
        }
    } else {
        stats.pool1 = None;
        stats.worker1 = None;
        stats.pool2 = None;
        stats.worker2 = None;
        stats.pool3 = None;
        stats.worker3 = None;
    }
}

/// Whether one (pool, worker) slot pair carries exactly the given sorted
/// record, ASCII bytes as characters; vacant when the record list is too
/// short.
pub open spec fn pool_slot_matches(
    pool: Option<String>,
    worker: Option<String>,
    slots: Seq<(int, Seq<u8>, Seq<u8>)>,
    i: int,
) -> bool {
    if i < slots.len() {
        &&& pool matches Some(p) && (all_ascii(slots[i].1) ==> p@.len() == slots[i].1.len() && (
        forall|k: int| 0 <= k < slots[i].1.len() ==> #[trigger] p@[k] == slots[i].1[k] as char))
        &&& worker matches Some(w) && (all_ascii(slots[i].2) ==> w@.len() == slots[i].2.len() && (
        forall|k: int| 0 <= k < slots[i].2.len() ==> #[trigger] w@[k] == slots[i].2[k] as char))
    } else {
        pool is None && worker is None
    }
}

proof fn lemma_pools_list_none(es: Seq<JsonV>, i: int, j: int)
    requires
        1 <= i <= j <= es.len(),
        pools_list(es, i) is None,
    ensures
        pools_list(es, j) is None,
    decreases j - i,
{
    if i < j {
        lemma_pools_list_none(es, i, j - 1);
    }
}

fn collect_pools(root: &Json) -> (r: Option<Vec<PoolRec>>)
    ensures
        r is Some == resp_pools(jview(*root)) is Some,
        r matches Some(v) ==> recs_v(v@) == resp_pools(jview(*root)).unwrap(),
{
    match get_field(root, "POOLS".as_bytes()) {
        Some(a) => {
            match a {
                Json::Arr(es) => {
                    proof {
                        lemma_jview_elems_index(es@);
                    }
                    let ghost ges = jview_elems(es@);
                    let n = es.len();
                    let mut out: Vec<PoolRec> = Vec::new();
                    let mut i: usize = 0;
                    while i < n
                        invariant
                            jview(*a) == JsonV::Arr(ges),
                            jget(jview(*root), "POOLS".spec_bytes()) == Some(JsonV::Arr(ges)),
                            n == es@.len(),
                            0 <= i <= n,
                            ges == jview_elems(es@),
                            ges.len() == n,
                            forall|k: int| 0 <= k < n ==> #[trigger] ges[k] == jview(es@[k]),
                            pools_list(ges, i as int) is Some,
                            recs_v(out@) == pools_list(ges, i as int).unwrap(),
                        decreases n - i,
                    {
                        match pool_entry_exec(&es[i]) {
                            Some(rec) => {
                                let ghost before = out@;
                                out.push(rec);
                                proof {
                                    assert(recs_v(out@) =~= recs_v(before).push(rec_v(
                                        out@[before.len() as int],
                                    )));
                                }
                            },
                            None => {
                                proof {
                                    assert(pools_list(ges, i + 1) is None);
                                    lemma_pools_list_none(ges, i + 1, n as int);
                                }
                                return None;
                            },
                        }
                        i = i + 1;
                    }
                    Some(out)
                },
                _ => None,
            }
        },
        None => None,
    }
}

/// Parse a raw `pools` response and fill the snapshot's pool slots; a
/// response that does not parse leaves the snapshot untouched.
pub fn apply_pools_response(stats: &mut MinerStats, text: &str)
    ensures
        ({
            let rootopt = resp_root(text@);
            match rootopt {
                None => stats_eq(*final(stats), *old(stats)),
                Some(root) => {
                    match resp_pools(root) {
                        None => stats_eq(*final(stats), *old(stats)),
                        Some(ps) => {
                            let slots = pools_slots(ps);
                            &&& pool_slot_matches(final(stats).pool1, final(stats).worker1, slots, 0)
                            &&& pool_slot_matches(final(stats).pool2, final(stats).worker2, slots, 1)
                            &&& pool_slot_matches(final(stats).pool3, final(stats).worker3, slots, 2)
                            &&& final(stats).hashrate_rt == old(stats).hashrate_rt
                            &&& final(stats).hashrate_avg == old(stats).hashrate_avg
                            &&& final(stats).temp_outlet_min@ == old(stats).temp_outlet_min@
                            &&& final(stats).temp_outlet_max@ == old(stats).temp_outlet_max@
                            &&& final(stats).temp_inlet_min@ == old(stats).temp_inlet_min@
                            &&& final(stats).temp_inlet_max@ == old(stats).temp_inlet_max@
                            &&& final(stats).fan_speeds@ == old(stats).fan_speeds@
                            &&& final(stats).uptime == old(stats).uptime
                            &&& final(stats).model == old(stats).model
                            &&& final(stats).firmware == old(stats).firmware
                            &&& final(stats).software == old(stats).software
                            &&& final(stats).hardware == old(stats).hardware
                            &&& final(stats).mac_address == old(stats).mac_address
                        },
                    }
                },
            }
        }),
{
    let body = match crate::cleanup::extract_clean_json(text) {
        Some(b) => b,
        None => {
            return ;
        },
    };
    match crate::json::parse_json(body.as_str().as_bytes()) {
        Some(root) => {
            apply_pools_root(stats, &root);
        },
        None => {},
    }
}

/// Word accumulator over whitespace-separated tokens.
pub open spec fn words_scan(s: Seq<u8>, i: int, cur: Seq<u8>, acc: Seq<Seq<u8>>) -> Seq<Seq<u8>>
    decreases s.len() - i,
{
    if !(0 <= i < s.len()) {
        if cur.len() > 0 {
            acc.push(cur)
        } else {
            acc
        }
    } else if crate::btext::is_bws(s[i]) {
        if cur.len() > 0 {
            words_scan(s, i + 1, Seq::empty(), acc.push(cur))
        } else {
            words_scan(s, i + 1, Seq::empty(), acc)
        }
    } else {
        words_scan(s, i + 1, cur.push(s[i]), acc)
    }
}

/// The whitespace-separated words of a byte string.
pub open spec fn words_of(s: Seq<u8>) -> Seq<Seq<u8>> {
    words_scan(s, 0, Seq::empty(), Seq::empty())
}

spec fn deep_bytes(vs: Seq<Vec<u8>>) -> Seq<Seq<u8>> {
    Seq::new(vs.len(), |i: int| vs[i]@)
}

fn words_exec(s: &[u8]) -> (r: Vec<Vec<u8>>)
    ensures
        deep_bytes(r@) == words_of(s@),
{
    let n = s.len();
    let mut out: Vec<Vec<u8>> = Vec::new();
    let mut b: usize = 0;
    let mut i: usize = 0;
    proof {
        assert(s@.subrange(0, 0) =~= Seq::<u8>::empty());
        assert(deep_bytes(out@) =~= Seq::<Seq<u8>>::empty());
    }
    while i < n
        invariant
            n == s@.len(),
            0 <= b <= i <= n,
            words_scan(s@, i as int, s@.subrange(b as int, i as int), deep_bytes(out@))
                == words_of(s@),
        decreases n - i,
    {
        let ghost cur = s@.subrange(b as int, i as int);
        if crate::btext::is_ws_byte(s[i]) {
            if i > b {
                let w = copy_range(s, b, i);
                let ghost before = out@;
                out.push(w);
                proof {
                    assert(deep_bytes(out@) =~= deep_bytes(before).push(cur));
                }
            }
            b = i + 1;
            proof {
                assert(s@.subrange(i + 1, i + 1) =~= Seq::<u8>::empty());
            }
        } else {
            proof {
                assert(s@.subrange(b as int, i + 1) =~= cur.push(s@[i as int]));
            }
        }
        i = i + 1;
    }
    if i > b {
        let w = copy_range(s, b, i);
        let ghost before = out@;
        out.push(w);
        proof {
            assert(deep_bytes(out@) =~= deep_bytes(before).push(s@.subrange(b as int, i as int)));
        }
    }
    out
}

/// The two-digit month number of an English month abbreviation.
pub open spec fn month_num(m: Seq<u8>) -> Option<Seq<u8>> {
    if m == "Jan".spec_bytes() {
        Some("01".spec_bytes())
    } else if m == "Feb".spec_bytes() {
        Some("02".spec_bytes())
    } else if m == "Mar".spec_bytes() {
        Some("03".spec_bytes())
    } else if m == "Apr".spec_bytes() {
        Some("04".spec_bytes())
    } else if m == "May".spec_bytes() {
        Some("05".spec_bytes())
    } else if m == "Jun".spec_bytes() {
        Some("06".spec_bytes())
    } else if m == "Jul".spec_bytes() {
        Some("07".spec_bytes())
    } else if m == "Aug".spec_bytes() {
        Some("08".spec_bytes())
    } else if m == "Sep".spec_bytes() {
        Some("09".spec_bytes())
    } else if m == "Oct".spec_bytes() {
        Some("10".spec_bytes())
    } else if m == "Nov".spec_bytes() {
        Some("11".spec_bytes())
    } else if m == "Dec".spec_bytes() {
        Some("12".spec_bytes())
    } else {
        None
    }
}

/// The `YYYYMMDD` date of a firmware compile-time string such as
/// `Fri Feb  7 18:12:53 CST 2025`: the year word, the month number, and
/// the day word padded to two digits.
pub open spec fn compile_date(s: Seq<u8>) -> Option<Seq<u8>> {
    let ws = words_of(s);
    if ws.len() < 6 {
        None
    } else {
        match month_num(ws[1]) {
            None => None,
            Some(mo) => {
                let day = if ws[2].len() == 1 {
                    seq![48u8] + ws[2]
                } else {
                    ws[2]
                };
                Some(ws[5] + mo + day)
            },
        }
    }
}

fn month_num_exec(m: &[u8]) -> (r: Option<Vec<u8>>)
    ensures
        r is Some == month_num(m@) is Some,
        r matches Some(v) ==> v@ == month_num(m@).unwrap(),
{
    if bytes_eq(m, "Jan".as_bytes()) {
        return Some(copy_all("01".as_bytes()));
    }
    if bytes_eq(m, "Feb".as_bytes()) {
        return Some(copy_all("02".as_bytes()));
    }
    if bytes_eq(m, "Mar".as_bytes()) {
        return Some(copy_all("03".as_bytes()));
    }
    if bytes_eq(m, "Apr".as_bytes()) {
        return Some(copy_all("04".as_bytes()));
    }
    if bytes_eq(m, "May".as_bytes()) {
        return Some(copy_all("05".as_bytes()));
    }
    if bytes_eq(m, "Jun".as_bytes()) {
        return Some(copy_all("06".as_bytes()));
    }
    if bytes_eq(m, "Jul".as_bytes()) {
        return Some(copy_all("07".as_bytes()));
    }
    if bytes_eq(m, "Aug".as_bytes()) {
        return Some(copy_all("08".as_bytes()));
    }
    if bytes_eq(m, "Sep".as_bytes()) {
        return Some(copy_all("09".as_bytes()));
    }
    if bytes_eq(m, "Oct".as_bytes()) {
        return Some(copy_all("10".as_bytes()));
    }
    if bytes_eq(m, "Nov".as_bytes()) {
        return Some(copy_all("11".as_bytes()));
    }
    if bytes_eq(m, "Dec".as_bytes()) {
        return Some(copy_all("12".as_bytes()));
    }
    None
}

fn copy_all(s: &[u8]) -> (r: Vec<u8>)
    ensures
        r@ == s@,
{
    let r = copy_range(s, 0, s.len());
    proof {
        assert(s@.subrange(0, s@.len() as int) =~= s@);
    }
    r
}

/// Turn a firmware compile-time string into its `YYYYMMDD` form.
pub fn parse_compile_time(s: &str) -> (r: Option<String>)
    ensures
        r is Some == compile_date(s.spec_bytes()) is Some,
        r matches Some(out) ==> (all_ascii(compile_date(s.spec_bytes()).unwrap()) ==> out@.len()
            == compile_date(s.spec_bytes()).unwrap().len() && (forall|i: int|
            0 <= i < out@.len() ==> #[trigger] out@[i] == compile_date(
                s.spec_bytes(),
            ).unwrap()[i] as char)),
{
    parse_compile_bytes(s.as_bytes())
}

/// The first `VERSION` record of a parsed `version` response.
pub open spec fn resp_version0(root: JsonV) -> Option<JsonV> {
    match jget(root, "VERSION".spec_bytes()) {
        Some(a) => crate::json::jat(a, 0),
        None => None,
    }
}

/// A string field of the first `VERSION` record.
pub open spec fn version_field(root: JsonV, key: Seq<u8>) -> Option<Seq<u8>> {
    match resp_version0(root) {
        Some(v0) => match jget(v0, key) {
            Some(v) => jv_str(v),
            None => None,
        },
        None => None,
    }
}

fn version_field_exec<'a>(root: &'a Json, key: &str) -> (r: Option<&'a Vec<u8>>)
    ensures
        r is Some == version_field(jview(*root), key.spec_bytes()) is Some,
        r matches Some(b) ==> b@ == version_field(jview(*root), key.spec_bytes()).unwrap(),
{
    match get_field(root, "VERSION".as_bytes()) {
        Some(a) => match get_index(a, 0) {
            Some(v0) => match get_field(v0, key.as_bytes()) {
                Some(v) => as_str_bytes(v),
                None => None,
            },
            None => None,
        },
        None => None,
    }
}

/// Whether an optional string equals the lossy ASCII decoding of an
/// optional byte string.
pub open spec fn opt_label_matches(o: Option<String>, b: Option<Seq<u8>>) -> bool {
    match b {
        Some(bs) => o matches Some(s) && (all_ascii(bs) ==> s@.len() == bs.len() && (forall|i: int|
            0 <= i < bs.len() ==> #[trigger] s@[i] == bs[i] as char)),
        None => o is None,
    }
}

/// The software label of a `version` response: `Bmminer ` followed by
/// the reported BMMiner version.
pub open spec fn version_software(root: JsonV) -> Option<Seq<u8>> {
    match version_field(root, "BMMiner".spec_bytes()) {
        Some(b) => Some("Bmminer ".spec_bytes() + b),
        None => None,
    }
}

/// The firmware label of a `version` response: the compile time
/// formatted as `YYYYMMDD`.
pub open spec fn version_firmware(root: JsonV) -> Option<Seq<u8>> {
    match version_field(root, "CompileTime".spec_bytes()) {
        Some(b) => compile_date(b),
        None => None,
    }
}

/// Parse a raw `version` response and install the hardware, firmware
/// and software labels; a response that does not parse leaves the
/// snapshot untouched.
pub fn apply_version_response(stats: &mut MinerStats, text: &str)
    ensures
        ({
            let rootopt = resp_root(text@);
            match rootopt {
                None => stats_eq(*final(stats), *old(stats)),
                Some(root) => {
                    &&& opt_label_matches(
                        final(stats).hardware,
                        version_field(root, "Miner".spec_bytes()),
                    )
                    &&& opt_label_matches(final(stats).firmware, version_firmware(root))
                    &&& opt_label_matches(final(stats).software, version_software(root))
                    &&& final(stats).hashrate_rt == old(stats).hashrate_rt
                    &&& final(stats).hashrate_avg == old(stats).hashrate_avg
                    &&& final(stats).temp_outlet_min@ == old(stats).temp_outlet_min@
                    &&& final(stats).temp_outlet_max@ == old(stats).temp_outlet_max@
                    &&& final(stats).temp_inlet_min@ == old(stats).temp_inlet_min@
                    &&& final(stats).temp_inlet_max@ == old(stats).temp_inlet_max@
                    &&& final(stats).fan_speeds@ == old(stats).fan_speeds@
                    &&& final(stats).uptime == old(stats).uptime
                    &&& final(stats).pool1 == old(stats).pool1
                    &&& final(stats).worker1 == old(stats).worker1
                    &&& final(stats).pool2 == old(stats).pool2
                    &&& final(stats).worker2 == old(stats).worker2
                    &&& final(stats).pool3 == old(stats).pool3
                    &&& final(stats).worker3 == old(stats).worker3
                    &&& final(stats).model == old(stats).model
                    &&& final(stats).mac_address == old(stats).mac_address
                },
            }
        }),
{
    let body = match crate::cleanup::extract_clean_json(text) {
        Some(b) => b,
        None => {
            return ;
        },
    };
    let root = match crate::json::parse_json(body.as_str().as_bytes()) {
        Some(v) => v,
        None => {
            return ;
        },
    };
    stats.hardware = match version_field_exec(&root, "Miner") {
        Some(b) => Some(bytes_to_string_lossy(b.as_slice())),
        None => None,
    };
    stats.firmware = match version_field_exec(&root, "CompileTime") {
        Some(b) => parse_compile_bytes(b.as_slice()),
        None => None,
    };
    stats.software = match version_field_exec(&root, "BMMiner") {
        Some(b) => {
            let mut out: Vec<u8> = Vec::new();
            crate::btext::append_bytes(&mut out, "Bmminer ".as_bytes());
            crate::btext::append_bytes(&mut out, b.as_slice());
            Some(bytes_to_string_lossy(out.as_slice()))
        },
        None => None,
    };
}

fn parse_compile_bytes(s: &[u8]) -> (r: Option<String>)
    ensures
        r is Some == compile_date(s@) is Some,
        r matches Some(out) ==> (all_ascii(compile_date(s@).unwrap()) ==> out@.len()
            == compile_date(s@).unwrap().len() && (forall|i: int|
            0 <= i < out@.len() ==> #[trigger] out@[i] == compile_date(s@).unwrap()[i] as char)),
{
    let ws = words_exec(s);
    if ws.len() < 6 {
        proof {
            assert(deep_bytes(ws@).len() == ws@.len());
        }
        return None;
    }
    proof {
        assert(deep_bytes(ws@)[1] == ws@[1]@);
        assert(deep_bytes(ws@)[2] == ws@[2]@);
        assert(deep_bytes(ws@)[5] == ws@[5]@);
    }
    let mo = match month_num_exec(ws[1].as_slice()) {
        Some(v) => v,
        None => {
            return None;
        },
    };
    let mut out: Vec<u8> = Vec::new();
    crate::btext::append_bytes(&mut out, ws[5].as_slice());
    crate::btext::append_bytes(&mut out, mo.as_slice());
    if ws[2].len() == 1 {
        out.push(48);
    }
    crate::btext::append_bytes(&mut out, ws[2].as_slice());
    proof {
        assert(out@ =~= compile_date(s@).unwrap());
    }
    Some(bytes_to_string_lossy(out.as_slice()))
}

/// The model label of a `version` response: its `Type` field.
pub open spec fn version_model(text: Seq<char>) -> Option<Seq<u8>> {
    match resp_root(text) {
        Some(root) => version_field(root, "Type".spec_bytes()),
        None => None,
    }
}

/// Extract the miner model from a raw `version` response, tolerating
/// trailing garbage.
pub fn extract_model_from_version(response: &str) -> (r: Option<String>)
    ensures
        r is Some == version_model(response@) is Some,
        r matches Some(s) ==> opt_label_matches(Some(s), version_model(response@)),
{
    let body = match crate::cleanup::extract_clean_json(response) {
        Some(b) => b,
        None => {
            return None;
        },
    };
    let root = match crate::json::parse_json(body.as_str().as_bytes()) {
        Some(v) => v,
        None => {
            return None;
        },
    };
    match version_field_exec(&root, "Type") {
        Some(b) => Some(bytes_to_string_lossy(b.as_slice())),
        None => None,
    }
}

/// The model label of a Whatsminer `devdetails` response:
/// `WhatsMiner - ` followed by the first record's `Model` field.
pub open spec fn devdetails_model(root: JsonV) -> Option<Seq<u8>> {
    match jget(root, "DEVDETAILS".spec_bytes()) {
        Some(a) => match crate::json::jat(a, 0) {
            Some(v0) => match jget(v0, "Model".spec_bytes()) {
                Some(v) => match jv_str(v) {
                    Some(b) => Some("WhatsMiner - ".spec_bytes() + b),
                    None => None,
                },
                None => None,
            },
            None => None,
        },
        None => None,
    }
}

/// Parse a raw `devdetails` response and install the model label; a
/// response that does not parse, or one without a first record, leaves
/// the snapshot untouched.
pub fn apply_devdetails_response(stats: &mut MinerStats, text: &str)
    ensures
        ({
            let rootopt = resp_root(text@);
            match rootopt {
                None => stats_eq(*final(stats), *old(stats)),
                Some(root) => {
                    if jget(root, "DEVDETAILS".spec_bytes()) is Some && (match jget(
                        root,
                        "DEVDETAILS".spec_bytes(),
                    ) {
                        Some(a) => crate::json::jat(a, 0) is Some,
                        None => false,
                    }) {
                        &&& opt_label_matches(final(stats).model, devdetails_model(root))
                        &&& final(stats).hashrate_rt == old(stats).hashrate_rt
                        &&& final(stats).hashrate_avg == old(stats).hashrate_avg
                        &&& final(stats).temp_outlet_min@ == old(stats).temp_outlet_min@
                        &&& final(stats).temp_outlet_max@ == old(stats).temp_outlet_max@
                        &&& final(stats).temp_inlet_min@ == old(stats).temp_inlet_min@
                        &&& final(stats).temp_inlet_max@ == old(stats).temp_inlet_max@
                        &&& final(stats).fan_speeds@ == old(stats).fan_speeds@
                        &&& final(stats).uptime == old(stats).uptime
                        &&& final(stats).pool1 == old(stats).pool1
                        &&& final(stats).worker1 == old(stats).worker1
                        &&& final(stats).pool2 == old(stats).pool2
                        &&& final(stats).worker2 == old(stats).worker2
                        &&& final(stats).pool3 == old(stats).pool3
                        &&& final(stats).worker3 == old(stats).worker3
                        &&& final(stats).firmware == old(stats).firmware
                        &&& final(stats).software == old(stats).software
                        &&& final(stats).hardware == old(stats).hardware
                        &&& final(stats).mac_address == old(stats).mac_address
                    } else {
                        stats_eq(*final(stats), *old(stats))
                    }
                },
            }
        }),
{
    let body = match crate::cleanup::extract_clean_json(text) {
        Some(b) => b,
        None => {
            return ;
        },
    };
    let root = match crate::json::parse_json(body.as_str().as_bytes()) {
        Some(v) => v,
        None => {
            return ;
        },
    };
    match get_field(&root, "DEVDETAILS".as_bytes()) {
        Some(a) => {
            match get_index(a, 0) {
                Some(v0) => {
                    stats.model = match get_field(v0, "Model".as_bytes()) {
                        Some(v) => match as_str_bytes(v) {
                            Some(b) => {
                                let mut out: Vec<u8> = Vec::new();
                                crate::btext::append_bytes(&mut out, "WhatsMiner - ".as_bytes());
                                crate::btext::append_bytes(&mut out, b.as_slice());
                                Some(bytes_to_string_lossy(out.as_slice()))
                            },
                            None => None,
                        },
                        None => None,
                    };
                },
                None => {},
            }
        },
        None => {},
    }
}

} // verus!
