use ddns::signer::{
    canonical_request, generate_headers, join_names, normalize_path, query_string, sign_request,
    sign_request_now, Credential, Method,
};
use ddns::text::{lower_str, sort_strings, str_le, trim_str, u64_to_string};

const HOST: &str = "dns.myhuaweicloud.com";
const TS: &str = "20230201T045631Z";

fn cred() -> Credential {
    Credential { access_key: "AKIDEXAMPLE".to_string(), secret: "secretkey".to_string() }
}

fn signature_of(headers: &[(String, String)]) -> String {
    let auth = &headers
        .iter()
        .find(|(k, _)| k == "Authorization")
        .expect("authorization header missing")
        .1;
    let tag = "Signature=";
    let at = auth.find(tag).expect("signature missing");
    auth[at + tag.len()..].to_string()
}

#[test]
fn signing_is_deterministic() {
    let param = Some(vec![("name".to_string(), "example.com.".to_string())]);
    let h1 = sign_request(&Method::GET, "/v2/zones", &param, "", HOST, TS, &cred());
    let h2 = sign_request(&Method::GET, "/v2/zones", &param, "", HOST, TS, &cred());
    assert_eq!(h1, h2);
    assert_eq!(signature_of(&h1), signature_of(&h2));
}

#[test]
fn signature_shape_and_key_dependence() {
    let c1 = Credential { access_key: "id".to_string(), secret: "a".to_string() };
    let c2 = Credential { access_key: "id".to_string(), secret: "b".to_string() };
    let h1 = sign_request(&Method::GET, "/v2/zones", &None, "", HOST, TS, &c1);
    let h2 = sign_request(&Method::GET, "/v2/zones", &None, "", HOST, TS, &c2);
    let s1 = signature_of(&h1);
    let s2 = signature_of(&h2);
    assert_eq!(s1.len(), 64);
    assert!(s1.chars().all(|c| c.is_ascii_hexdigit() && !c.is_ascii_uppercase()));
    assert_ne!(s1, s2);
}

#[test]
fn canonical_headers_are_sorted() {
    let (headers, names) = generate_headers(HOST, TS);
    assert_eq!(names, vec!["content-type", "host", "x-sdk-date"]);
    assert_eq!(join_names(&names), "content-type;host;x-sdk-date");
    assert_eq!(headers[0], ("content-type".to_string(), "application/json".to_string()));
    assert_eq!(headers[1], ("X-Sdk-Date".to_string(), TS.to_string()));
    assert_eq!(headers[2], ("host".to_string(), HOST.to_string()));
}

#[test]
fn sorted_names_do_not_depend_on_insertion_order() {
    let one = vec!["host".to_string(), "content-type".to_string(), "x-sdk-date".to_string()];
    let two = vec!["x-sdk-date".to_string(), "host".to_string(), "content-type".to_string()];
    assert_eq!(sort_strings(&one), sort_strings(&two));
    assert_eq!(sort_strings(&one), vec!["content-type", "host", "x-sdk-date"]);
}

#[test]
fn lexicographic_order() {
    assert!(str_le("abc", "abd"));
    assert!(str_le("ab", "abc"));
    assert!(!str_le("abd", "abc"));
    assert!(str_le("", "a"));
    assert!(str_le("content-type", "host"));
    assert!(str_le("host", "x-sdk-date"));
}

#[test]
fn path_normalization_matches_with_and_without_slash() {
    assert_eq!(normalize_path("/v2/zones"), "/v2/zones/");
    assert_eq!(normalize_path("/v2/zones/"), "/v2/zones/");
    let (headers, names) = generate_headers(HOST, TS);
    let a = canonical_request(&Method::GET, "/v2/zones", &None, "", &headers, &names);
    let b = canonical_request(&Method::GET, "/v2/zones/", &None, "", &headers, &names);
    assert_eq!(a, b);
}

#[test]
fn canonical_request_layout_and_body_digest() {
    let (headers, names) = generate_headers(HOST, TS);
    let cr = canonical_request(&Method::GET, "/v2/zones", &None, "", &headers, &names);
    let lines: Vec<&str> = cr.split('\n').collect();
    assert_eq!(lines[0], "GET");
    assert_eq!(lines[1], "/v2/zones/");
    assert_eq!(lines[2], "");
    assert_eq!(lines[3], "content-type:application/json");
    assert_eq!(lines[4], format!("host:{}", HOST));
    assert_eq!(lines[5], format!("x-sdk-date:{}", TS));
    assert_eq!(lines[6], "");
    assert_eq!(lines[7], "content-type;host;x-sdk-date");
    // SHA-256 of the empty body.
    assert_eq!(lines[8], "e3b0c44298fc1c149afbf4c8996fb92427ae41e4649b934ca495991b7852b855");
    let with_body = canonical_request(&Method::POST, "/v2/zones", &None, "abc", &headers, &names);
    // SHA-256 of "abc".
    assert!(with_body.ends_with("ba7816bf8f01cfea414140de5dae2223b00361a396177a9cb410ff61f20015ad"));
}

#[test]
fn query_string_is_urlencoded() {
    assert_eq!(query_string(&None), "");
    assert_eq!(query_string(&Some(vec![])), "");
    let params = Some(vec![
        ("name".to_string(), "example.com.".to_string()),
        ("type".to_string(), "A".to_string()),
    ]);
    assert_eq!(query_string(&params), "name=example.com.&type=A");
    let (headers, names) = generate_headers(HOST, TS);
    let cr = canonical_request(&Method::GET, "/v2/zones/z/recordsets", &params, "", &headers, &names);
    let lines: Vec<&str> = cr.split('\n').collect();
    assert_eq!(lines[2], "name=example.com.&type=A");
}

#[test]
fn authorization_header_layout() {
    let headers = sign_request(&Method::GET, "/v2/zones", &None, "", HOST, TS, &cred());
    assert_eq!(headers.len(), 4);
    let auth = &headers[3];
    assert_eq!(auth.0, "Authorization");
    assert!(auth.1.starts_with(
        "SDK-HMAC-SHA256 Access=AKIDEXAMPLE, SignedHeaders=content-type;host;x-sdk-date, Signature="
    ));
}

#[test]
fn sign_request_now_uses_its_own_timestamp() {
    let (headers, ts) = sign_request_now(&Method::GET, "/v2/zones", &None, "", HOST, &cred());
    assert_eq!(ts.len(), 16);
    let date = headers.iter().find(|(k, _)| k == "X-Sdk-Date").expect("timestamp header");
    assert_eq!(date.1, ts);
    let again = sign_request(&Method::GET, "/v2/zones", &None, "", HOST, ts.as_str(), &cred());
    assert_eq!(signature_of(&headers), signature_of(&again));
}

#[test]
fn text_helpers() {
    assert_eq!(lower_str("X-Sdk-Date"), "x-sdk-date");
    assert_eq!(lower_str("Content-Type"), "content-type");
    assert_eq!(trim_str("  spaced value\t\n"), "spaced value");
    assert_eq!(trim_str("plain"), "plain");
    assert_eq!(trim_str("   "), "");
    assert_eq!(u64_to_string(0), "0");
    assert_eq!(u64_to_string(50), "50");
    assert_eq!(u64_to_string(18446744073709551615), "18446744073709551615");
}
