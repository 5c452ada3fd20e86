//! The provider's HMAC-SHA256 request-signing scheme: canonical request,
//! string to sign, signature, and the final header set. The digest and
//! form-encoding primitives are outside calls; everything assembled from
//! them is verified.

use vstd::prelude::*;
use vstd::relations::sorted_by;
use sha2::{Digest, Sha256};
use hmac::{Hmac, KeyInit, Mac};
use crate::text::{
    chars_le_rel, lemma_chars_le_total_ordering, lower_chars, lower_str, lemma_sorted_strings_unique,
    sort_strings, str_eq, str_ends_with, trim_str, trimmed,
};

verus! {

/// The HTTP methods the provider's record API is called with.
#[derive(Clone, Copy)]
pub enum Method {
    POST,
    GET,
    PUT,
}

impl Method {
    pub open spec fn name_spec(self) -> Seq<char> {
        match self {
            Method::POST => "POST"@,
            Method::GET => "GET"@,
            Method::PUT => "PUT"@,
        }
    }

    pub fn name(&self) -> (r: &'static str)
        ensures
            r@ == self.name_spec(),
    {
        match self {
            Method::POST => "POST",
            Method::GET => "GET",
            Method::PUT => "PUT",
        }
    }
}

/// The access-key id and secret the requests are signed with.
pub struct Credential {
    pub access_key: String,
    pub secret: String,
}

/// The views of a list of name/value pairs.
pub open spec fn pair_views(s: Seq<(String, String)>) -> Seq<(Seq<char>, Seq<char>)> {
    Seq::new(s.len(), |i: int| (s[i].0@, s[i].1@))
}

/// The lower-case, hex-encoded SHA-256 digest of the data.
pub uninterp spec fn sha256_hex(data: Seq<char>) -> Seq<char>;

/// Relies on sha2::Sha256 (through the Digest trait) and hex::encode: the
/// lower-case hex SHA-256 digest of the data, a function of the data alone.
#[verifier::external_body]
fn sha256_encode(data: &str) -> (r: String)
    ensures
        r@ == sha256_hex(data@),
{
    let mut hasher = Sha256::new();
    hasher.update(data.as_bytes());
    hex::encode(hasher.finalize())
}

/// The lower-case, hex-encoded HMAC-SHA256 tag of `msg` under `key`.
pub uninterp spec fn hmac_sha256_hex(key: Seq<char>, msg: Seq<char>) -> Seq<char>;

/// Relies on hmac::Hmac<sha2::Sha256> (through the Mac trait) and hex::encode:
/// the lower-case hex HMAC-SHA256 tag of the message under the key, a function
/// of the two alone. HMAC accepts keys of any length, so `new_from_slice`
/// cannot fail.
#[verifier::external_body]
fn hmac_signature(key: &str, msg: &str) -> (r: String)
    ensures
        r@ == hmac_sha256_hex(key@, msg@),
{
    let mut mac = <Hmac<Sha256> as KeyInit>::new_from_slice(key.as_bytes()).unwrap();
    mac.update(msg.as_bytes());
    hex::encode(mac.finalize().into_bytes())
}

/// The x-www-form-urlencoded rendering of the name/value pairs.
pub uninterp spec fn urlencoded(params: Seq<(Seq<char>, Seq<char>)>) -> Seq<char>;

/// Relies on serde_urlencoded::to_string: the form-urlencoded rendering of
/// the pairs, a function of the pairs alone. A sequence of string pairs is a
/// supported input, so serialization cannot fail.
#[verifier::external_body]
fn urlencode_pairs(params: &Vec<(String, String)>) -> (r: String)
    ensures
        r@ == urlencoded(pair_views(params@)),
{
    serde_urlencoded::to_string(params).unwrap()
}

/// Relies on chrono::Utc::now: the current UTC time as YYYYMMDDTHHMMSSZ.
/// The result depends on the clock, so nothing is promised of it.
#[verifier::external_body]
fn now_sdk_date() -> String {
    chrono::Utc::now().format("%Y%m%dT%H%M%SZ").to_string()
}

/// The canonical query string: empty when there are no parameters.
pub open spec fn query_view(param: Option<Seq<(Seq<char>, Seq<char>)>>) -> Seq<char> {
    match param {
        Option::None => Seq::empty(),
        Option::Some(ps) => urlencoded(ps),
    }
}

/// Renders the optional query parameters canonically.
pub fn query_string(param: &Option<Vec<(String, String)>>) -> (r: String)
    ensures
        r@ == query_view(match *param {
            Option::None => Option::None,
            Option::Some(ref v) => Option::Some(pair_views(v@)),
        }),
{
    match param {
        Option::None => String::new(),
        Option::Some(v) => urlencode_pairs(v),
    }
}

/// The path with a trailing slash appended when it lacks one.
pub open spec fn norm_path(p: Seq<char>) -> Seq<char> {
    if p.len() > 0 && p.last() == '/' {
        p
    } else {
        p.push('/')
    }
}

/// Normalizes the path to end with a trailing slash.
pub fn normalize_path(path: &str) -> (r: String)
    ensures
        r@ == norm_path(path@),
{
    proof {
        reveal_strlit("/");
    }
    if str_ends_with(path, "/") {
        proof {
            assert(path@.subrange(path@.len() - 1, path@.len() as int)[0] == path@.last());
        }
        path.to_owned()
    } else {
        proof {
            if path@.len() > 0 && path@.last() == '/' {
                assert(path@.subrange(path@.len() - 1, path@.len() as int) =~= "/"@);
            }
            assert(path@ + "/"@ =~= path@.push('/'));
        }
        path.to_owned().concat("/")
    }
}

/// Normalizing a path is idempotent: a path without the trailing slash signs
/// to the same canonical path as that path with the slash appended.
pub proof fn lemma_path_normalization(p: Seq<char>)
    requires
        !(p.len() > 0 && p.last() == '/'),
    ensures
        norm_path(p) == norm_path(p.push('/')),
{
    assert(p.push('/').last() == '/');
}

/// The signed-headers string: the names joined by ';'.
pub open spec fn join_semi(names: Seq<Seq<char>>) -> Seq<char>
    decreases names.len(),
{
    if names.len() == 0 {
        Seq::empty()
    } else if names.len() == 1 {
        names[0]
    } else {
        names[0] + seq![';'] + join_semi(names.drop_first())
    }
}

proof fn lemma_join_semi_push(names: Seq<Seq<char>>, x: Seq<char>)
    ensures
        join_semi(names.push(x)) == if names.len() == 0 {
            x
        } else {
            join_semi(names) + seq![';'] + x
        },
    decreases names.len(),
{
    let p = names.push(x);
    if names.len() == 0 {
        assert(p.len() == 1);
        assert(p[0] == x);
    } else if names.len() == 1 {
        assert(p.drop_first() =~= seq![x]);
        assert(join_semi(p.drop_first()) == x);
        assert(join_semi(names) == names[0]);
    } else {
        assert(p.drop_first() =~= names.drop_first().push(x));
        lemma_join_semi_push(names.drop_first(), x);
        assert(join_semi(p) == names[0] + seq![';'] + (join_semi(names.drop_first()) + seq![';'] + x));
        assert(names[0] + seq![';'] + (join_semi(names.drop_first()) + seq![';'] + x)
            =~= (names[0] + seq![';'] + join_semi(names.drop_first())) + seq![';'] + x);
    }
}

/// Joins the names with ';' separators.
pub fn join_names(names: &Vec<String>) -> (r: String)
    ensures
        r@ == join_semi(names.deep_view()),
{
    proof {
        reveal_strlit(";");
    }
    let mut r = String::new();
    let mut i: usize = 0;
    proof {
        assert(names.deep_view().take(0) =~= Seq::<Seq<char>>::empty());
    }
    while i < names.len()
        invariant
            i <= names.len(),
            names.deep_view().len() == names.len(),
            r@ == join_semi(names.deep_view().take(i as int)),
        decreases names.len() - i,
    {
        if i > 0 {
            r.append(";");
        }
        r.append(names[i].as_str());
        proof {
            reveal_strlit(";");
            let nv = names.deep_view();
            assert(nv.take(i + 1) =~= nv.take(i as int).push(nv[i as int]));
            lemma_join_semi_push(nv.take(i as int), nv[i as int]);
            assert(";"@ =~= seq![';']);
        }
        i = i + 1;
    }
    proof {
        assert(names.deep_view().take(names.len() as int) =~= names.deep_view());
    }
    r
}

/// The value of the first header whose lower-cased name is `name`.
pub open spec fn lookup_lower(hs: Seq<(Seq<char>, Seq<char>)>, name: Seq<char>) -> Option<Seq<char>>
    decreases hs.len(),
{
    if hs.len() == 0 {
        Option::None
    } else if lower_chars(hs[0].0) == name {
        Option::Some(hs[0].1)
    } else {
        lookup_lower(hs.drop_first(), name)
    }
}

pub proof fn lemma_lookup_some(hs: Seq<(Seq<char>, Seq<char>)>, name: Seq<char>, k: int)
    requires
        0 <= k < hs.len(),
        lower_chars(hs[k].0) == name,
    ensures
        lookup_lower(hs, name) is Some,
    decreases hs.len(),
{
    if lower_chars(hs[0].0) == name {
    } else {
        assert(k != 0);
        assert(hs.drop_first()[k - 1] == hs[k]);
        lemma_lookup_some(hs.drop_first(), name, k - 1);
    }
}

/// Finds the value of the header whose lower-cased name is `name`.
pub fn header_value(headers: &Vec<(String, String)>, name: &str) -> (r: Option<String>)
    ensures
        match r {
            Option::Some(v) => lookup_lower(pair_views(headers@), name@) == Option::Some(v@),
            Option::None => lookup_lower(pair_views(headers@), name@) is None,
        },
{
    let ghost hs = pair_views(headers@);
    let mut i: usize = 0;
    proof {
        assert(hs.skip(0) =~= hs);
    }
    while i < headers.len()
        invariant
            i <= headers.len(),
            hs == pair_views(headers@),
            hs.len() == headers.len(),
            lookup_lower(hs, name@) == lookup_lower(hs.skip(i as int), name@),
        decreases headers.len() - i,
    {
        let lowered = lower_str(headers[i].0.as_str());
        if str_eq(lowered.as_str(), name) {
            return Option::Some(headers[i].1.clone());
        }
        proof {
            assert(hs.skip(i as int).drop_first() =~= hs.skip(i as int + 1));
        }
        i = i + 1;
    }
    Option::None
}

pub open spec fn value_of(o: Option<Seq<char>>) -> Seq<char> {
    match o {
        Option::Some(v) => v,
        Option::None => Seq::empty(),
    }
}

/// The canonical-headers block: one `name:trimmed-value` line per signed
/// header name, in the given order, each terminated by a newline.
pub open spec fn canon_header_lines(hs: Seq<(Seq<char>, Seq<char>)>, names: Seq<Seq<char>>) -> Seq<char>
    decreases names.len(),
{
    if names.len() == 0 {
        Seq::empty()
    } else {
        names[0] + seq![':'] + trimmed(value_of(lookup_lower(hs, names[0]))) + seq!['\n']
            + canon_header_lines(hs, names.drop_first())
    }
}

proof fn lemma_canon_lines_push(hs: Seq<(Seq<char>, Seq<char>)>, names: Seq<Seq<char>>, x: Seq<char>)
    ensures
        canon_header_lines(hs, names.push(x)) == canon_header_lines(hs, names) + x + seq![':']
            + trimmed(value_of(lookup_lower(hs, x))) + seq!['\n'],
    decreases names.len(),
{
    let p = names.push(x);
    if names.len() == 0 {
        assert(p[0] == x);
        assert(p.drop_first() =~= Seq::<Seq<char>>::empty());
        assert(canon_header_lines(hs, p.drop_first()) == Seq::<char>::empty());
        assert(canon_header_lines(hs, names) == Seq::<char>::empty());
        assert(canon_header_lines(hs, p) =~= canon_header_lines(hs, names) + x + seq![':']
            + trimmed(value_of(lookup_lower(hs, x))) + seq!['\n']);
    } else {
        assert(p.drop_first() =~= names.drop_first().push(x));
        lemma_canon_lines_push(hs, names.drop_first(), x);
        assert(canon_header_lines(hs, p) =~= canon_header_lines(hs, names) + x + seq![':']
            + trimmed(value_of(lookup_lower(hs, x))) + seq!['\n']);
    }
}

/// Builds the canonical-headers block for the signed header names.
pub fn canonical_headers(headers: &Vec<(String, String)>, sign_headers: &Vec<String>) -> (r: String)
    requires
        forall|i: int| 0 <= i < sign_headers.deep_view().len()
            ==> lookup_lower(pair_views(headers@), #[trigger] sign_headers.deep_view()[i]) is Some,
    ensures
        r@ == canon_header_lines(pair_views(headers@), sign_headers.deep_view()),
{
    proof {
        reveal_strlit(":");
        reveal_strlit("\n");
    }
    let ghost hs = pair_views(headers@);
    let ghost nv = sign_headers.deep_view();
    let mut r = String::new();
    let mut i: usize = 0;
    proof {
        assert(nv.take(0) =~= Seq::<Seq<char>>::empty());
    }
    while i < sign_headers.len()
        invariant
            i <= sign_headers.len(),
            hs == pair_views(headers@),
            nv == sign_headers.deep_view(),
            nv.len() == sign_headers.len(),
            forall|k: int| 0 <= k < nv.len() ==> lookup_lower(hs, #[trigger] nv[k]) is Some,
            r@ == canon_header_lines(hs, nv.take(i as int)),
        decreases sign_headers.len() - i,
    {
        let name = &sign_headers[i];
        let found = header_value(headers, name.as_str());
        match found {
            Option::Some(v) => {
                r.append(name.as_str());
                r.append(":");
                r.append(trim_str(v.as_str()));
                r.append("\n");
                proof {
                    reveal_strlit(":");
                    reveal_strlit("\n");
                    assert(nv.take(i + 1) =~= nv.take(i as int).push(nv[i as int]));
                    lemma_canon_lines_push(hs, nv.take(i as int), nv[i as int]);
                    assert(":"@ =~= seq![':']);
                    assert("\n"@ =~= seq!['\n']);
                }
            },
            Option::None => {
                proof {
                    assert(lookup_lower(hs, nv[i as int]) is Some);
                    assert(false);
                }
            },
        }
        i = i + 1;
    }
    proof {
        assert(nv.take(sign_headers.len() as int) =~= nv);
    }
    r
}

/// The headers every request carries before it is signed.
pub open spec fn base_headers(host: Seq<char>, ts: Seq<char>) -> Seq<(Seq<char>, Seq<char>)> {
    seq![("content-type"@, "application/json"@), ("X-Sdk-Date"@, ts), ("host"@, host)]
}

/// The lower-cased names of the headers, in header order.
pub open spec fn lower_names(hs: Seq<(Seq<char>, Seq<char>)>) -> Seq<Seq<char>> {
    Seq::new(hs.len(), |i: int| lower_chars(hs[i].0))
}

/// The signed header names: the lower-cased names, lexicographically sorted.
pub open spec fn signed_names(hs: Seq<(Seq<char>, Seq<char>)>) -> Seq<Seq<char>> {
    lower_names(hs).sort_by(chars_le_rel())
}

/// Builds the header set for a request and the sorted list of header names to
/// sign. The names are sorted whatever order the headers stand in.
pub fn generate_headers(host: &str, x_sdk_date: &str) -> (r: (Vec<(String, String)>, Vec<String>))
    ensures
        pair_views(r.0@) == base_headers(host@, x_sdk_date@),
        r.1.deep_view() == signed_names(base_headers(host@, x_sdk_date@)),
        sorted_by(r.1.deep_view(), chars_le_rel()),
{
    let mut headers: Vec<(String, String)> = Vec::new();
    headers.push(("content-type".to_owned(), "application/json".to_owned()));
    headers.push(("X-Sdk-Date".to_owned(), x_sdk_date.to_owned()));
    headers.push(("host".to_owned(), host.to_owned()));
    let ghost hv = pair_views(headers@);
    proof {
        assert(hv =~= base_headers(host@, x_sdk_date@));
    }
    let mut names: Vec<String> = Vec::new();
    let mut i: usize = 0;
    proof {
        assert(names.deep_view() =~= lower_names(hv).take(0));
    }
    while i < headers.len()
        invariant
            i <= headers.len(),
            hv == pair_views(headers@),
            hv.len() == headers.len(),
            names.deep_view() == lower_names(hv).take(i as int),
        decreases headers.len() - i,
    {
        let lowered = lower_str(headers[i].0.as_str());
        let ghost before = names.deep_view();
        names.push(lowered);
        proof {
            assert(names.deep_view() =~= before.push(lower_chars(hv[i as int].0)));
            assert(lower_names(hv).take(i + 1) =~= lower_names(hv).take(i as int).push(lower_names(hv)[i as int]));
        }
        i = i + 1;
    }
    proof {
        assert(lower_names(hv).take(headers.len() as int) =~= lower_names(hv));
    }
    let sorted = sort_strings(&names);
    proof {
        lemma_chars_le_total_ordering();
        lower_names(hv).lemma_sort_by_ensures(chars_le_rel());
        lemma_sorted_strings_unique(sorted.deep_view(), signed_names(hv));
    }
    (headers, sorted)
}

/// The canonical request: method, slash-terminated path, canonical query
/// string, canonical headers block, signed-headers string and body digest,
/// joined by newlines.
pub open spec fn canonical_request_view(
    method: Method,
    path: Seq<char>,
    query: Seq<char>,
    hs: Seq<(Seq<char>, Seq<char>)>,
    names: Seq<Seq<char>>,
    body: Seq<char>,
) -> Seq<char> {
    method.name_spec() + seq!['\n'] + norm_path(path) + seq!['\n'] + query + seq!['\n']
        + canon_header_lines(hs, names) + seq!['\n'] + join_semi(names) + seq!['\n'] + sha256_hex(body)
}

/// Assembles the canonical request.
pub fn canonical_request(
    method: &Method,
    path: &str,
    param: &Option<Vec<(String, String)>>,
    body: &str,
    headers: &Vec<(String, String)>,
    sign_headers: &Vec<String>,
) -> (r: String)
    requires
        forall|i: int| 0 <= i < sign_headers.deep_view().len()
            ==> lookup_lower(pair_views(headers@), #[trigger] sign_headers.deep_view()[i]) is Some,
    ensures
        r@ == canonical_request_view(
            *method,
            path@,
            query_view(match *param {
                Option::None => Option::None,
                Option::Some(ref v) => Option::Some(pair_views(v@)),
            }),
            pair_views(headers@),
            sign_headers.deep_view(),
            body@,
        ),
{
    proof {
        reveal_strlit("\n");
        assert("\n"@ =~= seq!['\n']);
    }
    let mut r = String::new();
    r.append(method.name());
    r.append("\n");
    r.append(normalize_path(path).as_str());
    r.append("\n");
    r.append(query_string(param).as_str());
    r.append("\n");
    r.append(canonical_headers(headers, sign_headers).as_str());
    r.append("\n");
    r.append(join_names(sign_headers).as_str());
    r.append("\n");
    r.append(sha256_encode(body).as_str());
    r
}

/// The string that is signed: the algorithm tag, the timestamp, and the hex
/// digest of the canonical request, joined by newlines.
pub open spec fn string_to_sign_view(ts: Seq<char>, canonical: Seq<char>) -> Seq<char> {
    "SDK-HMAC-SHA256"@ + seq!['\n'] + ts + seq!['\n'] + sha256_hex(canonical)
}

/// Builds the string to sign from the timestamp and the canonical request.
pub fn string_to_sign(x_sdk_date: &str, canonical: &str) -> (r: String)
    ensures
        r@ == string_to_sign_view(x_sdk_date@, canonical@),
{
    proof {
        reveal_strlit("\n");
        assert("\n"@ =~= seq!['\n']);
    }
    let mut r = "SDK-HMAC-SHA256".to_owned();
    r.append("\n");
    r.append(x_sdk_date);
    r.append("\n");
    r.append(sha256_encode(canonical).as_str());
    r
}

/// The authorization header value carrying the access key, the signed-header
/// names and the signature.
pub open spec fn auth_header_view(access: Seq<char>, names: Seq<Seq<char>>, signature: Seq<char>) -> Seq<char> {
    "SDK-HMAC-SHA256 Access="@ + access + ", SignedHeaders="@ + join_semi(names) + ", Signature="@
        + signature
}

/// The full signed header set for a request: the base headers followed by the
/// authorization header computed over them.
pub open spec fn request_headers_view(
    method: Method,
    path: Seq<char>,
    query: Seq<char>,
    body: Seq<char>,
    host: Seq<char>,
    ts: Seq<char>,
    access: Seq<char>,
    secret: Seq<char>,
) -> Seq<(Seq<char>, Seq<char>)> {
    let hs = base_headers(host, ts);
    let names = signed_names(hs);
    let cr = canonical_request_view(method, path, query, hs, names, body);
    let sts = string_to_sign_view(ts, cr);
    let sig = hmac_sha256_hex(secret, sts);
    hs.push(("Authorization"@, auth_header_view(access, names, sig)))
}

/// Signs a request: produces the header set, authorization header included,
/// for the given method, path, query, body, host, timestamp and credential.
/// Signing is the last step before dispatch; any later change to these inputs
/// invalidates the signature.
pub fn sign_request(
    method: &Method,
    path: &str,
    param: &Option<Vec<(String, String)>>,
    body: &str,
    host: &str,
    x_sdk_date: &str,
    cred: &Credential,
) -> (r: Vec<(String, String)>)
    ensures
        pair_views(r@) == request_headers_view(
            *method,
            path@,
            query_view(match *param {
                Option::None => Option::None,
                Option::Some(ref v) => Option::Some(pair_views(v@)),
            }),
            body@,
            host@,
            x_sdk_date@,
            cred.access_key@,
            cred.secret@,
        ),
{
    broadcast use vstd::seq_lib::to_multiset_contains;

    let (mut headers, names) = generate_headers(host, x_sdk_date);
    let ghost hs = pair_views(headers@);
    proof {
        lemma_chars_le_total_ordering();
        lower_names(hs).lemma_sort_by_ensures(chars_le_rel());
        let nv = names.deep_view();
        assert forall|i: int| 0 <= i < nv.len() implies
            lookup_lower(hs, #[trigger] nv[i]) is Some by {
            let x = nv[i];
            assert(nv.contains(x));
            assert(nv.to_multiset().contains(x));
            assert(lower_names(hs).to_multiset().contains(x));
            assert(lower_names(hs).contains(x));
            let k = choose|k: int| 0 <= k < lower_names(hs).len() && lower_names(hs)[k] == x;
            assert(lower_chars(hs[k].0) == x);
            lemma_lookup_some(hs, x, k);
        }
    }
    let canonical = canonical_request(method, path, param, body, &headers, &names);
    let sts = string_to_sign(x_sdk_date, canonical.as_str());
    let signature = hmac_signature(cred.secret.as_str(), sts.as_str());
    let mut auth = "SDK-HMAC-SHA256 Access=".to_owned();
    auth.append(cred.access_key.as_str());
    auth.append(", SignedHeaders=");
    auth.append(join_names(&names).as_str());
    auth.append(", Signature=");
    auth.append(signature.as_str());
    let ghost before = pair_views(headers@);
    headers.push(("Authorization".to_owned(), auth));
    proof {
        assert(pair_views(headers@) =~= before.push(("Authorization"@, auth@)));
        assert(pair_views(headers@) =~= request_headers_view(
            *method,
            path@,
            query_view(match *param {
                Option::None => Option::None,
                Option::Some(ref v) => Option::Some(pair_views(v@)),
            }),
            body@,
            host@,
            x_sdk_date@,
            cred.access_key@,
            cred.secret@,
        ));
    }
    headers
}

/// Signs a request with the current UTC time as its timestamp. Whatever
/// timestamp the clock gave is returned beside the headers, and the headers
/// are exactly the signed header set for that timestamp.
pub fn sign_request_now(
    method: &Method,
    path: &str,
    param: &Option<Vec<(String, String)>>,
    body: &str,
    host: &str,
    cred: &Credential,
) -> (r: (Vec<(String, String)>, String))
    ensures
        pair_views(r.0@) == request_headers_view(
            *method,
            path@,
            query_view(match *param {
                Option::None => Option::None,
                Option::Some(ref v) => Option::Some(pair_views(v@)),
            }),
            body@,
            host@,
            r.1@,
            cred.access_key@,
            cred.secret@,
        ),
{
    let ts = now_sdk_date();
    let headers = sign_request(method, path, param, body, host, ts.as_str(), cred);
    (headers, ts)
}

/// Signing determinism: for a fixed method, path, query, body, host,
/// timestamp and credential, the signed header set — and so the signature in
/// its authorization header — is the same on every computation.
pub proof fn lemma_signing_deterministic(
    m1: Method,
    m2: Method,
    path1: Seq<char>,
    path2: Seq<char>,
    query1: Seq<char>,
    query2: Seq<char>,
    body1: Seq<char>,
    body2: Seq<char>,
    host1: Seq<char>,
    host2: Seq<char>,
    ts1: Seq<char>,
    ts2: Seq<char>,
    access1: Seq<char>,
    access2: Seq<char>,
    secret1: Seq<char>,
    secret2: Seq<char>,
)
    requires
        m1 == m2,
        path1 == path2,
        query1 == query2,
        body1 == body2,
        host1 == host2,
        ts1 == ts2,
        access1 == access2,
        secret1 == secret2,
    ensures
        request_headers_view(m1, path1, query1, body1, host1, ts1, access1, secret1)
            == request_headers_view(m2, path2, query2, body2, host2, ts2, access2, secret2),
{
}

} // verus!
