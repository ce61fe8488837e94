//! The digest-auth vendor control protocol.
//!
//! Every operation follows a fixed two-round pattern: the request is
//! first issued unauthenticated; a success ends it, an authentication
//! challenge is answered by computing a digest from the challenge, the
//! credentials, the exact request path and the method, and reissuing.
//! Configuration writes are read-modify-write against one device
//! configuration document: the current document is fetched, only the
//! targeted fields are changed, and the whole document — unknown fields
//! byte for byte included — is posted back. Because applying a
//! configuration change reboots the device, which drops the connection
//! before an HTTP response, the write step may opt in to treating a
//! connection-level error as success; that tolerance is per call site
//! and never applied to non-rebooting operations. The HTTP rounds
//! themselves run outside and feed their outcomes in.

use vstd::prelude::*;
use vstd::string::StringSliceAdditionalSpecFns;
use crate::btext::copy_range;
use crate::error::{MinerError, MinerResult};
use crate::json::{Json, JsonV, jview, jget, jv_bool, ser_json, json_to_bytes, parse_json,
    parse_json_spec, obj_set_from, set_field, get_field, as_bool, jview_fields,
    lemma_jview_fields_index};

verus! {

/// A mining pool configuration entry of the digest-auth family.
#[derive(Debug, Clone)]
pub struct AntminerPool {
    pub url: String,
    pub user: String,
    pub pass: String,
}

/// The next move after the unauthenticated round of a digest exchange.
pub enum DigestStep {
    /// The exchange is over: the operation's result.
    Done(MinerResult<String>),
    /// Reissue the same request with this `Authorization` header.
    Authenticate(String),
}

/// Whether `digest_auth` accepts a challenge header: its parse depends
/// on the text alone, and answering a parsed challenge cannot fail.
pub uninterp spec fn digest_challenge_ok(s: Seq<char>) -> bool;

/// Relies on `digest_auth::WwwAuthenticateHeader::parse` and `respond`:
/// the challenge header is parsed and answered from the credentials, the
/// request URI and the method. The challenge must be ASCII: the parse
/// walks it by character position but slices it by byte index, so a
/// non-ASCII challenge is not accepted here. Parsing succeeds as a
/// function of the text alone, and an answer follows whenever it does;
/// the answer may draw a random client nonce, so nothing is promised of
/// its text.
#[verifier::external_body]
fn compute_digest_header(
    www_auth: &str,
    username: &str,
    password: &str,
    uri: &str,
    is_post: bool,
) -> (r: Result<String, String>)
    requires
        vstd::string::is_ascii(www_auth),
    ensures
        r is Ok == digest_challenge_ok(www_auth@),
{
    let mut context = digest_auth::AuthContext::new(username, password, uri);
    if is_post {
        context.method = digest_auth::HttpMethod::POST;
    }
    match digest_auth::parse(www_auth) {
        Err(e) => Err(format!("failed to parse digest challenge: {:?}", e)),
        Ok(mut prompt) => match prompt.respond(&context) {
            Err(e) => Err(format!("failed to compute digest response: {:?}", e)),
            Ok(answer) => Ok(answer.to_header_string()),
        },
    }
}

/// Decide what follows the unauthenticated round: a success status ends
/// the exchange with the body; a 401 with an ASCII, well-formed
/// challenge leads exactly to an authenticated retry; any other status,
/// a challenge-less 401, or an unanswerable challenge fails.
pub fn digest_first_round(
    status: u16,
    body: String,
    challenge: Option<&str>,
    username: &str,
    password: &str,
    path: &str,
    is_post: bool,
) -> (r: DigestStep)
    ensures
        200 <= status < 300 ==> (r matches DigestStep::Done(res) && res matches Ok(b) && b
            == body),
        !(200 <= status < 300) && status != 401 ==> (r matches DigestStep::Done(res)
            && res matches Err(e) && e is GenericError),
        status == 401 && challenge is None ==> (r matches DigestStep::Done(res)
            && res matches Err(e) && e is GenericError),
        status == 401 ==> (challenge matches Some(h) ==> (if vstd::string::is_ascii(h)
            && digest_challenge_ok(h@) {
            r is Authenticate
        } else {
            r matches DigestStep::Done(res) && res matches Err(e) && e is GenericError
        })),
{
    if 200 <= status && status < 300 {
        return DigestStep::Done(Ok(body));
    }
    if status != 401 {
        let mut msg = String::from_str("unexpected status ");
        let digits = status_digits(status);
        msg.append(digits.as_str());
        return DigestStep::Done(Err(MinerError::GenericError(msg)));
    }
    match challenge {
        None => DigestStep::Done(
            Err(MinerError::GenericError(String::from_str("missing challenge header"))),
        ),
        Some(h) => {
            if !h.is_ascii() {
                return DigestStep::Done(
                    Err(
                        MinerError::GenericError(
                            String::from_str("challenge header is not ASCII"),
                        ),
                    ),
                );
            }
            match compute_digest_header(h, username, password, path, is_post) {
                Ok(auth) => DigestStep::Authenticate(auth),
                Err(msg) => DigestStep::Done(Err(MinerError::GenericError(msg))),
            }
        },
    }
}

fn status_digits(status: u16) -> (r: String) {
    let mut v: Vec<u8> = Vec::new();
    crate::btext::push_u64_dec(status as u64, &mut v);
    proof {
        crate::btext::lemma_u64_dec_bytes_digits(status as int);
    }
    crate::btext::ascii_to_string(&v)
}

/// Decide the result of the authenticated round: a success status yields
/// the body; a connection-level failure counts as success — with an
/// empty body — exactly when the caller opted into reboot tolerance;
/// everything else fails.
pub fn digest_second_round(
    status: u16,
    body: String,
    connection_error: Option<String>,
    tolerate_connection_error: bool,
) -> (r: MinerResult<String>)
    ensures
        connection_error is None && 200 <= status < 300 ==> (r matches Ok(b) && b == body),
        connection_error is None && !(200 <= status < 300) ==> (r matches Err(e)
            && e is GenericError),
        connection_error is Some && tolerate_connection_error ==> (r matches Ok(b) && b@
            == Seq::<char>::empty()),
        connection_error is Some && !tolerate_connection_error ==> (r matches Err(e)
            && e is GenericError),
{
    match connection_error {
        Some(msg) => {
            if tolerate_connection_error {
                Ok(String::new())
            } else {
                Err(MinerError::GenericError(msg))
            }
        },
        None => {
            if 200 <= status && status < 300 {
                Ok(body)
            } else {
                let mut msg = String::from_str("request returned status ");
                let digits = status_digits(status);
                msg.append(digits.as_str());
                Err(MinerError::GenericError(msg))
            }
        },
    }
}

/// The parsed root of a configuration or status document from the web
/// interface, which arrives clean of garbage.
pub open spec fn web_root(text: Seq<char>) -> Option<JsonV> {
    parse_json_spec(vstd::utf8::encode_utf8(text))
}

/// A configuration document is usable when it parses as a JSON object.
pub open spec fn conf_usable(text: Seq<char>) -> bool {
    web_root(text) matches Some(root) && root is Obj
}

/// The document with one field replaced, re-serialized canonically with
/// every other field byte for byte as parsed.
pub open spec fn conf_updated(text: Seq<char>, key: Seq<u8>, val: JsonV) -> Seq<u8> {
    match web_root(text) {
        Some(root) => match root {
            JsonV::Obj(fs) => ser_json(JsonV::Obj(obj_set_from(fs, key, val, 0))),
            _ => Seq::empty(),
        },
        None => Seq::empty(),
    }
}

fn update_conf_field(conf_text: &str, key: &str, val: Json) -> (r: MinerResult<Vec<u8>>)
    ensures
        r is Ok == conf_usable(conf_text@),
        r matches Ok(out) ==> out@ == conf_updated(conf_text@, key.spec_bytes(), jview(val)),
        r matches Err(e) ==> e is GenericError,
{
    let mut root = match parse_json(conf_text.as_bytes()) {
        Some(v) => v,
        None => {
            return Err(
                MinerError::GenericError(String::from_str("failed to parse miner conf")),
            );
        },
    };
    let is_obj = match &root {
        Json::Obj(_) => true,
        _ => false,
    };
    if !is_obj {
        return Err(MinerError::GenericError(String::from_str("miner conf is not an object")));
    }
    set_field(&mut root, key.as_bytes(), val);
    Ok(json_to_bytes(&root))
}

/// The client of the digest-auth control surface. The decisions and the
/// document rewrites live here; the HTTP rounds run outside.
pub struct AntminerWebClient;

impl AntminerWebClient {
    /// The configuration document with its power mode replaced:
    /// `miner-mode` 1 is sleep, 0 is normal mining. Every unrelated
    /// field — fan curve, frequency level, pools — is preserved byte
    /// for byte. Fails only when the fetched document does not parse as
    /// an object: no blind write without first capturing current state.
    pub fn conf_with_power_mode(conf_text: &str, sleep: bool) -> (r: MinerResult<Vec<u8>>)
        ensures
            r is Ok == conf_usable(conf_text@),
            r matches Ok(out) ==> out@ == conf_updated(
                conf_text@,
                "miner-mode".spec_bytes(),
                JsonV::Num(if sleep {
                    "1".spec_bytes()
                } else {
                    "0".spec_bytes()
                }),
            ),
            r matches Err(e) ==> e is GenericError,
    {
        let digit = if sleep {
            "1"
        } else {
            "0"
        };
        let db = digit.as_bytes();
        let lit = copy_range(db, 0, db.len());
        proof {
            assert(lit@ =~= if sleep {
                "1".spec_bytes()
            } else {
                "0".spec_bytes()
            });
        }
        update_conf_field(conf_text, "miner-mode", Json::Num(lit))
    }

    /// The configuration document with its pool list replaced by the
    /// given one to three pools, every other field preserved byte for
    /// byte. An empty or over-full pool list is rejected before any
    /// document is touched.
    pub fn conf_with_pools(conf_text: &str, pools: &Vec<AntminerPool>) -> (r: MinerResult<Vec<u8>>)
        ensures
            pools@.len() == 0 || pools@.len() > 3 ==> (r matches Err(e) && e is GenericError),
            1 <= pools@.len() <= 3 ==> r is Ok == conf_usable(conf_text@),
            r matches Ok(out) ==> 1 <= pools@.len() <= 3 && out@ == conf_updated(
                conf_text@,
                "pools".spec_bytes(),
                JsonV::Arr(pools_shape(pools@)),
            ),
            r matches Err(e) ==> e is GenericError,
    {
        if pools.len() == 0 || pools.len() > 3 {
            return Err(
                MinerError::GenericError(String::from_str("set_pools: must supply 1-3 pools")),
            );
        }
        let arr = pools_value(pools);
        update_conf_field(conf_text, "pools", arr)
    }

    /// The request body of the LED control endpoint.
    pub fn blink_body(state: bool) -> (r: Vec<u8>)
        ensures
            r@ == ser_json(JsonV::Obj(seq![("blink".spec_bytes(), JsonV::Bool(state))])),
    {
        let kb = "blink".as_bytes();
        let key = copy_range(kb, 0, kb.len());
        proof {
            assert(key@ =~= "blink".spec_bytes());
        }
        let mut fields: Vec<(Vec<u8>, Json)> = Vec::new();
        fields.push((key, Json::Bool(state)));
        let ghost gfs = fields@;
        let obj = Json::Obj(fields);
        proof {
            lemma_jview_fields_index(gfs);
            assert(jview(obj) == JsonV::Obj(jview_fields(gfs)));
            assert(jview_fields(gfs) =~= seq![("blink".spec_bytes(), JsonV::Bool(state))]);
        }
        json_to_bytes(&obj)
    }

    /// The LED state carried by a blink-status document: its `blink`
    /// boolean. A document without one is rejected.
    pub fn parse_blink_status(text: &str) -> (r: MinerResult<bool>)
        ensures
            r is Ok == (match web_root(text@) {
                Some(root) => (match jget(root, "blink".spec_bytes()) {
                    Some(v) => jv_bool(v) is Some,
                    None => false,
                }),
                None => false,
            }),
            r matches Ok(b) ==> b == jv_bool(
                jget(web_root(text@).unwrap(), "blink".spec_bytes()).unwrap(),
            ).unwrap(),
            r matches Err(e) ==> e is GenericError,
    {
        let root = match parse_json(text.as_bytes()) {
            Some(v) => v,
            None => {
                return Err(
                    MinerError::GenericError(String::from_str("failed to parse blink status")),
                );
            },
        };
        match get_field(&root, "blink".as_bytes()) {
            Some(v) => match as_bool(v) {
                Some(b) => Ok(b),
                None => Err(
                    MinerError::GenericError(String::from_str("blink field is not a boolean")),
                ),
            },
            None => Err(MinerError::GenericError(String::from_str("missing blink field"))),
        }
    }

    /// Read the configured pools out of a configuration document: one
    /// entry per record of its `pools` array, in order. A document that
    /// does not parse, or a record missing a field, yields the empty
    /// list, as a strict decoder would.
    pub fn pools_of_conf(conf_text: &str) -> (r: Vec<AntminerPool>)
        ensures
            conf_pools(conf_text@) is None ==> r@.len() == 0,
            conf_pools(conf_text@) matches Some(ps) ==> ({
                &&& r@.len() == ps.len()
                &&& forall|i: int|
                    0 <= i < ps.len() ==> ({
                        &&& label_of_bytes((#[trigger] r@[i]).url, ps[i].0)
                        &&& label_of_bytes(r@[i].user, ps[i].1)
                        &&& label_of_bytes(r@[i].pass, ps[i].2)
                    })
            }),
    {
        let root = match parse_json(conf_text.as_bytes()) {
            Some(v) => v,
            None => {
                return Vec::new();
            },
        };
        let arr = match get_field(&root, "pools".as_bytes()) {
            Some(a) => a,
            None => {
                return Vec::new();
            },
        };
        match arr {
            Json::Arr(es) => {
                proof {
                    crate::json::lemma_jview_elems_index(es@);
                }
                let ghost ges = crate::json::jview_elems(es@);
                let n = es.len();
                let mut out: Vec<AntminerPool> = Vec::new();
                let mut i: usize = 0;
                while i < n
                    invariant
                        jview(*arr) == JsonV::Arr(ges),
                        jget(jview(root), "pools".spec_bytes()) == Some(JsonV::Arr(ges)),
                        conf_pools(conf_text@) == conf_pools_list(ges, ges.len() as int),
                        n == es@.len(),
                        0 <= i <= n,
                        ges == crate::json::jview_elems(es@),
                        ges.len() == n,
                        forall|k: int| 0 <= k < n ==> #[trigger] ges[k] == jview(es@[k]),
                        conf_pools_list(ges, i as int) is Some,
                        out@.len() == i,
                        forall|k: int|
                            0 <= k < i ==> conf_pool_entry(#[trigger] ges[k]) is Some,
                        forall|k: int|
                            0 <= k < i ==> ({
                                &&& label_of_bytes(
                                    (#[trigger] out@[k]).url,
                                    conf_pool_entry(ges[k]).unwrap().0,
                                )
                                &&& label_of_bytes(out@[k].user, conf_pool_entry(ges[k]).unwrap().1)
                                &&& label_of_bytes(out@[k].pass, conf_pool_entry(ges[k]).unwrap().2)
                            }),
                    decreases n - i,
                {
                    let entry = match conf_pool_entry_exec(&es[i]) {
                        Some(e) => e,
                        None => {
                            proof {
                                assert(conf_pools_list(ges, i + 1) is None);
                                lemma_conf_pools_list_none(ges, i + 1, n as int);
                            }
                            return Vec::new();
                        },
                    };
                    let ghost before_out = out@;
                    out.push(entry);
                    proof {
                        assert forall|k: int| 0 <= k < i + 1 implies ({
                            &&& label_of_bytes(
                                (#[trigger] out@[k]).url,
                                conf_pool_entry(ges[k]).unwrap().0,
                            )
                            &&& label_of_bytes(out@[k].user, conf_pool_entry(ges[k]).unwrap().1)
                            &&& label_of_bytes(out@[k].pass, conf_pool_entry(ges[k]).unwrap().2)
                        }) by {
                            if k < i {
                                assert(out@[k] == before_out[k]);
                            }
                        }
                    }
                    i = i + 1;
                }
                proof {
                    lemma_conf_pools_index(ges, n as int);
                }
                out
            },
            _ => Vec::new(),
        }
    }
}

/// A well-formed prefix of pool records lists, entry for entry, exactly
/// the records of its elements.
proof fn lemma_conf_pools_index(es: Seq<JsonV>, j: int)
    requires
        0 <= j <= es.len(),
        conf_pools_list(es, j) is Some,
    ensures
        conf_pools_list(es, j).unwrap().len() == j,
        forall|k: int|
            0 <= k < j ==> conf_pool_entry(#[trigger] es[k]) is Some,
        forall|k: int|
            0 <= k < j ==> #[trigger] conf_pools_list(es, j).unwrap()[k] == conf_pool_entry(
                es[k],
            ).unwrap(),
    decreases j,
{
    if j > 0 {
        lemma_conf_pools_index(es, j - 1);
        let pre = conf_pools_list(es, j - 1).unwrap();
        assert forall|k: int|
            0 <= k < j implies #[trigger] conf_pools_list(es, j).unwrap()[k] == conf_pool_entry(
            es[k],
        ).unwrap() by {
            if k < j - 1 {
                assert(conf_pools_list(es, j).unwrap()[k] == pre[k]);
            }
        }
    }
}

fn conf_pool_entry_exec(v: &Json) -> (r: Option<AntminerPool>)
    ensures
        r is Some == conf_pool_entry(jview(*v)) is Some,
        r matches Some(p) ==> ({
            let e = conf_pool_entry(jview(*v)).unwrap();
            &&& label_of_bytes(p.url, e.0)
            &&& label_of_bytes(p.user, e.1)
            &&& label_of_bytes(p.pass, e.2)
        }),
{
    let url = match get_field(v, "url".as_bytes()) {
        Some(u) => match crate::json::as_str_bytes(u) {
            Some(b) => crate::btext::bytes_to_string_lossy(b.as_slice()),
            None => {
                return None;
            },
        },
        None => {
            return None;
        },
    };
    let user = match get_field(v, "user".as_bytes()) {
        Some(u) => match crate::json::as_str_bytes(u) {
            Some(b) => crate::btext::bytes_to_string_lossy(b.as_slice()),
            None => {
                return None;
            },
        },
        None => {
            return None;
        },
    };
    let pass = match get_field(v, "pass".as_bytes()) {
        Some(u) => match crate::json::as_str_bytes(u) {
            Some(b) => crate::btext::bytes_to_string_lossy(b.as_slice()),
            None => {
                return None;
            },
        },
        None => {
            return None;
        },
    };
    Some(AntminerPool { url, user, pass })
}


/// One pool record of a configuration document: its `url`, `user` and
/// `pass` strings, all three required.
pub open spec fn conf_pool_entry(v: JsonV) -> Option<(Seq<u8>, Seq<u8>, Seq<u8>)> {
    let url = match jget(v, "url".spec_bytes()) {
        Some(u) => crate::json::jv_str(u),
        None => None,
    };
    let user = match jget(v, "user".spec_bytes()) {
        Some(u) => crate::json::jv_str(u),
        None => None,
    };
    let pass = match jget(v, "pass".spec_bytes()) {
        Some(u) => crate::json::jv_str(u),
        None => None,
    };
    if url is Some && user is Some && pass is Some {
        Some((url.unwrap(), user.unwrap(), pass.unwrap()))
    } else {
        None
    }
}

/// The pool records of the first `k` elements; a malformed element
/// spoils the whole list, as a strict decoder would.
pub open spec fn conf_pools_list(es: Seq<JsonV>, k: int) -> Option<Seq<(Seq<u8>, Seq<u8>, Seq<u8>)>>
    decreases k,
{
    if k <= 0 || k > es.len() {
        Some(Seq::empty())
    } else {
        match conf_pools_list(es, k - 1) {
            None => None,
            Some(acc) => match conf_pool_entry(es[k - 1]) {
                Some(e) => Some(acc.push(e)),
                None => None,
            },
        }
    }
}

/// The pool records a configuration document carries, if well formed.
pub open spec fn conf_pools(text: Seq<char>) -> Option<Seq<(Seq<u8>, Seq<u8>, Seq<u8>)>> {
    match web_root(text) {
        Some(root) => match jget(root, "pools".spec_bytes()) {
            Some(a) => match a {
                JsonV::Arr(es) => conf_pools_list(es, es.len() as int),
                _ => None,
            },
            None => None,
        },
        None => None,
    }
}

/// Whether a string equals the lossy ASCII decoding of a byte string.
pub open spec fn label_of_bytes(s: String, b: Seq<u8>) -> bool {
    crate::btext::all_ascii(b) ==> s@.len() == b.len() && (forall|i: int|
        0 <= i < b.len() ==> #[trigger] s@[i] == b[i] as char)
}

proof fn lemma_conf_pools_list_none(es: Seq<JsonV>, i: int, j: int)
    requires
        1 <= i <= j <= es.len(),
        conf_pools_list(es, i) is None,
    ensures
        conf_pools_list(es, j) is None,
    decreases j - i,
{
    if i < j {
        lemma_conf_pools_list_none(es, i, j - 1);
    }
}

/// The JSON shape of a pool list: one object per pool with its `url`,
/// `user` and `pass` fields, in order.
pub open spec fn pool_shape(p: AntminerPool) -> JsonV {
    JsonV::Obj(
        seq![
            ("url".spec_bytes(), JsonV::Str(vstd::utf8::encode_utf8(p.url@))),
            ("user".spec_bytes(), JsonV::Str(vstd::utf8::encode_utf8(p.user@))),
            ("pass".spec_bytes(), JsonV::Str(vstd::utf8::encode_utf8(p.pass@))),
        ],
    )
}

pub open spec fn pools_shape(ps: Seq<AntminerPool>) -> Seq<JsonV> {
    Seq::new(ps.len(), |i: int| pool_shape(ps[i]))
}

fn string_bytes(s: &String) -> (r: Vec<u8>)
    ensures
        r@ == vstd::utf8::encode_utf8(s@),
{
    let b = s.as_str().as_bytes();
    let r = copy_range(b, 0, b.len());
    proof {
        assert(r@ =~= vstd::utf8::encode_utf8(s@));
    }
    r
}

fn pool_value(p: &AntminerPool) -> (r: Json)
    ensures
        jview(r) == pool_shape(*p),
{
    let ku = "url".as_bytes();
    let key_url = copy_range(ku, 0, ku.len());
    let ks = "user".as_bytes();
    let key_user = copy_range(ks, 0, ks.len());
    let kp = "pass".as_bytes();
    let key_pass = copy_range(kp, 0, kp.len());
    proof {
        assert(key_url@ =~= "url".spec_bytes());
        assert(key_user@ =~= "user".spec_bytes());
        assert(key_pass@ =~= "pass".spec_bytes());
    }
    let mut fields: Vec<(Vec<u8>, Json)> = Vec::new();
    fields.push((key_url, Json::Str(string_bytes(&p.url))));
    fields.push((key_user, Json::Str(string_bytes(&p.user))));
    fields.push((key_pass, Json::Str(string_bytes(&p.pass))));
    let ghost gfs = fields@;
    let obj = Json::Obj(fields);
    proof {
        lemma_jview_fields_index(gfs);
        assert(jview(obj) == JsonV::Obj(jview_fields(gfs)));
        assert(jview_fields(gfs) =~= (match pool_shape(*p) {
            JsonV::Obj(fs) => fs,
            _ => Seq::empty(),
        }));
    }
    obj
}

fn pools_value(pools: &Vec<AntminerPool>) -> (r: Json)
    ensures
        jview(r) == JsonV::Arr(pools_shape(pools@)),
{
    let n = pools.len();
    let mut es: Vec<Json> = Vec::new();
    let mut i: usize = 0;
    while i < n
        invariant
            n == pools@.len(),
            0 <= i <= n,
            crate::json::jview_elems(es@) =~= pools_shape(pools@).take(i as int),
        decreases n - i,
    {
        let ghost before = es@;
        es.push(pool_value(&pools[i]));
        proof {
            crate::json::lemma_jview_elems_index(es@);
            crate::json::lemma_jview_elems_index(before);
            assert(crate::json::jview_elems(es@) =~= pools_shape(pools@).take(i + 1));
        }
        i = i + 1;
    }
    let ghost ges = es@;
    let arr = Json::Arr(es);
    proof {
        assert(pools_shape(pools@).take(n as int) =~= pools_shape(pools@));
        assert(jview(arr) == JsonV::Arr(crate::json::jview_elems(ges)));
    }
    arr
}

} // verus!
