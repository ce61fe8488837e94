//! The command dispatcher's decisions.
//!
//! A batch command runs one independent task per target address. The
//! vendor family is decided per target from a short status probe by the
//! same detection rule as the parsers use — and a failed probe defaults
//! to the digest-auth family rather than aborting. The batch result is
//! assembled here: always one entry per requested address, each carrying
//! only its own address's outcome, so one address's failure never alters
//! another's result.

use vstd::prelude::*;
use vstd::string::StringSliceAdditionalSpecFns;
use vstd::utf8::encode_utf8;
use crate::btext::{contains_seq, lower_seq, to_lower_bytes, contains_bytes};
use crate::models::{MinerStats, CommandResult, clone_opt_string};

verus! {

/// Whether an optional label names the session-family vendor,
/// case-insensitively.
pub open spec fn label_has_marker(o: Option<String>) -> bool {
    match o {
        Some(s) => contains_seq(lower_seq(encode_utf8(s@)), "whatsminer".spec_bytes()),
        None => false,
    }
}

fn opt_label_marker(o: &Option<String>) -> (r: bool)
    ensures
        r == label_has_marker(*o),
{
    match o {
        Some(s) => {
            let low = to_lower_bytes(s.as_str().as_bytes());
            contains_bytes(low.as_slice(), "whatsminer".as_bytes())
        },
        None => false,
    }
}

/// Whether a probed snapshot selects the session/CSRF vendor family: its
/// model or firmware label names that vendor. No snapshot (the probe
/// failed) selects the digest-auth family by default.
pub open spec fn probe_selects_whatsminer(probe: Option<MinerStats>) -> bool {
    match probe {
        Some(st) => label_has_marker(st.model) || label_has_marker(st.firmware),
        None => false,
    }
}

/// Decide the vendor family for one target from its status probe.
pub fn select_whatsminer(probe: &Option<MinerStats>) -> (r: bool)
    ensures
        r == probe_selects_whatsminer(*probe),
{
    match probe {
        Some(st) => opt_label_marker(&st.model) || opt_label_marker(&st.firmware),
        None => false,
    }
}

/// One batch entry: success exactly when no error message was produced.
pub fn make_command_result(ip: String, error: Option<String>) -> (r: CommandResult)
    ensures
        r.ip == ip,
        r.success == (error is None),
        r.error == error,
{
    let success = error.is_none();
    CommandResult { ip, success, error }
}

/// Assemble the batch result from per-address outcomes: one entry per
/// requested address, in order, each carrying exactly its own address
/// and its own outcome.
pub fn assemble_batch(ips: &Vec<String>, outcomes: &Vec<Option<String>>) -> (r: Vec<CommandResult>)
    requires
        ips@.len() == outcomes@.len(),
    ensures
        r@.len() == ips@.len(),
        forall|i: int|
            0 <= i < r@.len() ==> ({
                &&& (#[trigger] r@[i]).ip == ips@[i]
                &&& r@[i].success == (outcomes@[i] is None)
                &&& r@[i].error == outcomes@[i]
            }),
{
    let n = ips.len();
    let mut out: Vec<CommandResult> = Vec::new();
    let mut i: usize = 0;
    while i < n
        invariant
            n == ips@.len() == outcomes@.len(),
            0 <= i <= n,
            out@.len() == i,
            forall|k: int|
                0 <= k < i ==> ({
                    &&& (#[trigger] out@[k]).ip == ips@[k]
                    &&& out@[k].success == (outcomes@[k] is None)
                    &&& out@[k].error == outcomes@[k]
                }),
        decreases n - i,
    {
        let entry = make_command_result(ips[i].clone(), clone_opt_string(&outcomes[i]));
        out.push(entry);
        i = i + 1;
    }
    out
}

/// Assemble the batch result without any shape assumption: one entry
/// per requested address regardless of how many outcomes were recorded,
/// each present outcome carried verbatim and any address beyond the
/// outcome list failing with a fixed message. The one-entry-per-address
/// law therefore holds unconditionally.
pub fn batch_results(ips: &Vec<String>, outcomes: &Vec<Option<String>>) -> (r: Vec<CommandResult>)
    ensures
        r@.len() == ips@.len(),
        forall|i: int| 0 <= i < r@.len() ==> (#[trigger] r@[i]).ip == ips@[i],
        forall|i: int|
            0 <= i < r@.len() && i < outcomes@.len() ==> (#[trigger] r@[i]).success == (
            outcomes@[i] is None) && r@[i].error == outcomes@[i],
        forall|i: int|
            outcomes@.len() <= i < r@.len() ==> !(#[trigger] r@[i]).success && (
            r@[i].error matches Some(m) && m@ == "no outcome recorded"@),
{
    let n = ips.len();
    let m = outcomes.len();
    let mut out: Vec<CommandResult> = Vec::new();
    let mut i: usize = 0;
    while i < n
        invariant
            n == ips@.len(),
            m == outcomes@.len(),
            0 <= i <= n,
            out@.len() == i,
            forall|k: int| 0 <= k < i ==> (#[trigger] out@[k]).ip == ips@[k],
            forall|k: int|
                0 <= k < i && k < m ==> (#[trigger] out@[k]).success == (outcomes@[k] is None)
                    && out@[k].error == outcomes@[k],
            forall|k: int|
                m <= k < i ==> !(#[trigger] out@[k]).success && (out@[k].error matches Some(msg)
                    && msg@ == "no outcome recorded"@),
        decreases n - i,
    {
        let entry = if i < m {
            make_command_result(ips[i].clone(), clone_opt_string(&outcomes[i]))
        } else {
            make_command_result(
                ips[i].clone(),
                Some(String::from_str("no outcome recorded")),
            )
        };
        out.push(entry);
        i = i + 1;
    }
    out
}

/// The batch result list always has exactly one entry per requested
/// address, and each entry depends only on its own address's outcome:
/// two batches whose outcomes agree at one position agree on that
/// position's result, whatever happened elsewhere.
pub proof fn lemma_batch_isolation(
    ips: Seq<String>,
    outs1: Seq<Option<String>>,
    outs2: Seq<Option<String>>,
    r1: Seq<CommandResult>,
    r2: Seq<CommandResult>,
    i: int,
)
    requires
        ips.len() == outs1.len() == outs2.len(),
        r1.len() == ips.len(),
        r2.len() == ips.len(),
        forall|k: int|
            0 <= k < r1.len() ==> (#[trigger] r1[k]).ip == ips[k] && r1[k].success == (outs1[k]
                is None) && r1[k].error == outs1[k],
        forall|k: int|
            0 <= k < r2.len() ==> (#[trigger] r2[k]).ip == ips[k] && r2[k].success == (outs2[k]
                is None) && r2[k].error == outs2[k],
        0 <= i < ips.len(),
        outs1[i] == outs2[i],
    ensures
        r1[i].ip == r2[i].ip,
        r1[i].success == r2[i].success,
        r1[i].error == r2[i].error,
{
}

} // verus!
