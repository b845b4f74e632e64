use xdiff::ExtraArgs;
use xdiff::XdiffError;
use xdiff::cli::KeyVal;
use xdiff::cli::KeyValType;
use xdiff::cli::parse_key_val;
use xdiff::config::DiffConfig;
use xdiff::config::DiffProfile;
use xdiff::headers::Headers;
use xdiff::req::RequestProfile;
use xdiff::response::ResponseExt;
use xdiff::response::ResponseProfile;
use xdiff::utils::diff_text;

fn profile(
    params: Option<serde_json::Value>,
    headers: Headers,
    body: Option<serde_json::Value>,
) -> RequestProfile {
    RequestProfile {
        method: "GET".to_string(),
        url: "http://x/a".to_string(),
        params,
        headers,
        body,
    }
}

fn args(list: Vec<(&str, &str, KeyValType)>) -> ExtraArgs {
    let kvs = list
        .into_iter()
        .map(|(k, v, t)| KeyVal {
            key_type: t,
            key: k.to_string(),
            value: v.to_string(),
        })
        .collect();
    ExtraArgs::from_key_vals(kvs)
}

#[test]
fn parse_query_override() {
    let kv = parse_key_val("name=alice").unwrap();
    assert!(matches!(kv.key_type, KeyValType::Query));
    assert_eq!(kv.key, "name");
    assert_eq!(kv.value, "alice");
}

#[test]
fn parse_header_override_trims() {
    let kv = parse_key_val("%X-Test= 1 ").unwrap();
    assert!(matches!(kv.key_type, KeyValType::Header));
    assert_eq!(kv.key, "X-Test");
    assert_eq!(kv.value, "1");
}

#[test]
fn parse_body_override() {
    let kv = parse_key_val("@name=bob").unwrap();
    assert!(matches!(kv.key_type, KeyValType::Body));
    assert_eq!(kv.key, "name");
    assert_eq!(kv.value, "bob");
}

#[test]
fn parse_empty_value_is_ok() {
    let kv = parse_key_val("k=").unwrap();
    assert_eq!(kv.key, "k");
    assert_eq!(kv.value, "");
}

#[test]
fn parse_rejects_missing_equals() {
    assert!(matches!(parse_key_val("noequals"), Err(XdiffError::OverrideParse)));
}

#[test]
fn parse_rejects_empty_key() {
    assert!(matches!(parse_key_val("=v"), Err(XdiffError::OverrideParse)));
}

#[test]
fn parse_rejects_digit_key() {
    assert!(matches!(parse_key_val("1a=b"), Err(XdiffError::OverrideParse)));
}

#[test]
fn from_key_vals_buckets_in_order() {
    let a = args(vec![
        ("h1", "1", KeyValType::Header),
        ("q1", "2", KeyValType::Query),
        ("b1", "3", KeyValType::Body),
        ("h2", "4", KeyValType::Header),
    ]);
    assert_eq!(a.headers, vec![("h1".to_string(), "1".to_string()), ("h2".to_string(), "4".to_string())]);
    assert_eq!(a.query, vec![("q1".to_string(), "2".to_string())]);
    assert_eq!(a.body, vec![("b1".to_string(), "3".to_string())]);
}

#[test]
fn merge_injects_default_content_type_and_body() {
    // base {method: GET, url: "http://x/a", headers: {}}, override %X-Test=1, @name=bob
    let p = profile(None, Headers::new(), None);
    let a = args(vec![("X-Test", "1", KeyValType::Header), ("name", "bob", KeyValType::Body)]);
    let (headers, _query, body) = p.generate(&a).unwrap();
    assert_eq!(headers.get("x-test"), Some(&"1".to_string()));
    assert_eq!(headers.get("content-type"), Some(&"application/json".to_string()));
    assert_eq!(body, "{\"name\":\"bob\"}");
}

#[test]
fn merge_keeps_explicit_content_type() {
    let mut h = Headers::new();
    h.try_insert_raw("Content-Type", "application/json; charset=utf-8").unwrap();
    let p = profile(None, h, None);
    let (headers, _q, body) = p.generate(&ExtraArgs::new()).unwrap();
    assert_eq!(
        headers.get("content-type"),
        Some(&"application/json; charset=utf-8".to_string())
    );
    assert_eq!(body, "{}");
}

#[test]
fn json_body_is_valid_json() {
    let base: serde_json::Value = serde_json::from_str("{\"n\":1}").unwrap();
    let p = profile(None, Headers::new(), Some(base));
    let a = args(vec![("name", "bob", KeyValType::Body)]);
    let (_h, _q, body) = p.generate(&a).unwrap();
    let parsed: serde_json::Value = serde_json::from_str(&body).unwrap();
    assert_eq!(parsed.get("n"), Some(&serde_json::Value::from(1)));
    assert_eq!(
        parsed.get("name"),
        Some(&serde_json::Value::String("bob".to_string()))
    );
}

#[test]
fn form_body_round_trips() {
    let mut h = Headers::new();
    h.try_insert_raw("content-type", "application/x-www-form-urlencoded").unwrap();
    let p = profile(None, h, None);
    let a = args(vec![
        ("a", "1", KeyValType::Body),
        ("b", "two words", KeyValType::Body),
    ]);
    let (_hdrs, _q, body) = p.generate(&a).unwrap();
    let decoded: Vec<(String, String)> = serde_urlencoded::from_str(&body).unwrap();
    let mut sorted = decoded.clone();
    sorted.sort();
    assert_eq!(
        sorted,
        vec![
            ("a".to_string(), "1".to_string()),
            ("b".to_string(), "two words".to_string())
        ]
    );
}

#[test]
fn multipart_uses_form_encoding() {
    let mut h = Headers::new();
    h.try_insert_raw("content-type", "multipart/form-data; boundary=x").unwrap();
    let p = profile(None, h, None);
    let a = args(vec![("a", "1", KeyValType::Body)]);
    let (_hdrs, _q, body) = p.generate(&a).unwrap();
    assert_eq!(body, "a=1");
}

#[test]
fn other_content_type_is_unsupported() {
    let mut h = Headers::new();
    h.try_insert_raw("content-type", "text/plain").unwrap();
    let p = profile(None, h, None);
    assert!(matches!(
        p.generate(&ExtraArgs::new()),
        Err(XdiffError::UnsupportedContentType)
    ));
}

#[test]
fn header_override_last_write_wins() {
    let p = profile(None, Headers::new(), None);
    let a = args(vec![
        ("X-Test", "1", KeyValType::Header),
        ("x-test", "2", KeyValType::Header),
    ]);
    let (headers, _q, _b) = p.generate(&a).unwrap();
    assert_eq!(headers.get("x-test"), Some(&"2".to_string()));
}

#[test]
fn body_override_last_write_wins() {
    let p = profile(None, Headers::new(), None);
    let a = args(vec![
        ("name", "first", KeyValType::Body),
        ("name", "last", KeyValType::Body),
    ]);
    let (_h, _q, body) = p.generate(&a).unwrap();
    assert_eq!(body, "{\"name\":\"last\"}");
}

#[test]
fn query_override_last_write_wins() {
    let p = profile(None, Headers::new(), None);
    let a = args(vec![
        ("q", "first", KeyValType::Query),
        ("q", "last", KeyValType::Query),
    ]);
    let (_h, query, _b) = p.generate(&a).unwrap();
    assert_eq!(
        query.get("q"),
        Some(&serde_json::Value::String("last".to_string()))
    );
}

#[test]
fn invalid_header_name_is_refused() {
    let p = profile(None, Headers::new(), None);
    let a = args(vec![("bad name", "1", KeyValType::Header)]);
    assert!(matches!(p.generate(&a), Err(XdiffError::InvalidHeaderName)));
}

#[test]
fn invalid_header_value_is_refused() {
    let p = profile(None, Headers::new(), None);
    let a = args(vec![("x-ok", "bad\u{7}value", KeyValType::Header)]);
    assert!(matches!(p.generate(&a), Err(XdiffError::InvalidHeaderValue)));
}

#[test]
fn non_object_base_body_is_refused() {
    let base: serde_json::Value = serde_json::from_str("[1,2]").unwrap();
    let p = profile(None, Headers::new(), Some(base));
    assert!(p.validate().is_err());
    assert!(matches!(
        p.generate(&ExtraArgs::new()),
        Err(XdiffError::ConfigValidation)
    ));
}

#[test]
fn filter_drops_skipped_body_fields() {
    // JSON body {"id":1,"secret":"s","name":"a"} with skip_body ["secret"]
    let res = ResponseExt {
        version: "HTTP/1.1".to_string(),
        status: "200 OK".to_string(),
        headers: vec![(
            "content-type".to_string(),
            "application/json".to_string(),
        )],
        body: "{\"id\":1,\"secret\":\"s\",\"name\":\"a\"}".to_string(),
    };
    let rp = ResponseProfile {
        skip_headers: vec![],
        skip_body: vec!["secret".to_string()],
    };
    let text = res.filter_text(&rp).unwrap();
    assert_eq!(
        text,
        "HTTP/1.1 200 OK\ncontent-type: application/json\n\n{\n  \"id\": 1,\n  \"name\": \"a\"\n}\n"
    );
}

#[test]
fn filter_skips_headers_case_insensitively() {
    let res = ResponseExt {
        version: "HTTP/1.1".to_string(),
        status: "200 OK".to_string(),
        headers: vec![
            ("X-Secret".to_string(), "s".to_string()),
            ("x-keep".to_string(), "k".to_string()),
        ],
        body: "plain".to_string(),
    };
    let rp = ResponseProfile {
        skip_headers: vec!["x-secret".to_string()],
        skip_body: vec![],
    };
    let text = res.filter_text(&rp).unwrap();
    assert_eq!(text, "HTTP/1.1 200 OK\nx-keep: k\n\nplain\n");
}

#[test]
fn filter_skip_twice_equals_skip_once() {
    let body = "{\"id\":1,\"secret\":\"s\"}";
    let make = || ResponseExt {
        version: "HTTP/1.1".to_string(),
        status: "200 OK".to_string(),
        headers: vec![(
            "content-type".to_string(),
            "application/json".to_string(),
        )],
        body: body.to_string(),
    };
    let once = ResponseProfile {
        skip_headers: vec![],
        skip_body: vec!["secret".to_string()],
    };
    let twice = ResponseProfile {
        skip_headers: vec![],
        skip_body: vec!["secret".to_string(), "secret".to_string()],
    };
    assert_eq!(
        make().filter_text(&once).unwrap(),
        make().filter_text(&twice).unwrap()
    );
}

#[test]
fn filter_rejects_invalid_json_body() {
    let res = ResponseExt {
        version: "HTTP/1.1".to_string(),
        status: "200 OK".to_string(),
        headers: vec![(
            "content-type".to_string(),
            "application/json; charset=utf-8".to_string(),
        )],
        body: "not json".to_string(),
    };
    let rp = ResponseProfile { skip_headers: vec![], skip_body: vec![] };
    assert!(matches!(res.filter_text(&rp), Err(XdiffError::BodyDecode)));
}

#[test]
fn filter_passes_non_json_body_verbatim() {
    let res = ResponseExt {
        version: "HTTP/1.1".to_string(),
        status: "404 Not Found".to_string(),
        headers: vec![("content-type".to_string(), "text/plain".to_string())],
        body: "not json".to_string(),
    };
    let rp = ResponseProfile { skip_headers: vec![], skip_body: vec![] };
    assert_eq!(
        res.filter_text(&rp).unwrap(),
        "HTTP/1.1 404 Not Found\ncontent-type: text/plain\n\nnot json\n"
    );
}

#[test]
fn diff_one_hunk_with_context() {
    // render_diff("a\nb\nc\n", "a\nx\nc\n"): one hunk, one delete, one
    // insert, two unchanged context lines
    let out = diff_text("a\nb\nc\n", "a\nx\nc\n");
    assert_eq!(out, "1   1    | a\n2        |-b\n    2    |+x\n3   3    | c\n");
    assert_eq!(out.lines().filter(|l| l.contains("|-")).count(), 1);
    assert_eq!(out.lines().filter(|l| l.contains("|+")).count(), 1);
    assert_eq!(out.lines().filter(|l| l.contains("| ")).count(), 2);
}

#[test]
fn diff_of_equal_texts_is_empty() {
    assert_eq!(diff_text("a\nb\nc\n", "a\nb\nc\n"), "");
    assert_eq!(diff_text("", ""), "");
}

#[test]
fn diff_far_changes_make_two_hunks() {
    let mut old = String::new();
    let mut new = String::new();
    for i in 0..20 {
        old.push_str(&format!("line {}\n", i));
        if i == 2 || i == 15 {
            new.push_str(&format!("changed {}\n", i));
        } else {
            new.push_str(&format!("line {}\n", i));
        }
    }
    let out = diff_text(&old, &new);
    let sep = "-".repeat(80);
    assert_eq!(out.lines().filter(|l| *l == sep).count(), 1);
}

#[test]
fn diff_final_line_without_newline() {
    let out = diff_text("a\nb", "a\nc");
    assert!(!out.ends_with('\n'));
    assert!(out.contains("|-b"));
    assert!(out.contains("|+c"));
}

#[test]
fn config_finds_profiles_by_name() {
    let p = DiffProfile {
        req1: profile(None, Headers::new(), None),
        req2: profile(None, Headers::new(), None),
        res: ResponseProfile { skip_headers: vec![], skip_body: vec![] },
    };
    let config = DiffConfig { profiles: vec![("rust".to_string(), p)] };
    assert_eq!(config.profiles.len(), 1);
    assert!(config.get_profile("rust").is_some());
    assert!(config.get_profile("other").is_none());
    assert!(config.validate().is_ok());
}

#[test]
fn diff_responses_filters_both_sides_alike() {
    let p = DiffProfile {
        req1: profile(None, Headers::new(), None),
        req2: profile(None, Headers::new(), None),
        res: ResponseProfile {
            skip_headers: vec![],
            skip_body: vec!["ts".to_string()],
        },
    };
    let make = |body: &str| ResponseExt {
        version: "HTTP/1.1".to_string(),
        status: "200 OK".to_string(),
        headers: vec![(
            "content-type".to_string(),
            "application/json".to_string(),
        )],
        body: body.to_string(),
    };
    // the skipped field differs, everything else is equal: empty report
    let out = p
        .diff_responses(
            make("{\"id\":1,\"ts\":\"a\"}"),
            make("{\"id\":1,\"ts\":\"b\"}"),
        )
        .unwrap();
    assert_eq!(out, "");
    // a surviving field differs: the report shows it
    let out = p
        .diff_responses(
            make("{\"id\":1}"),
            make("{\"id\":2}"),
        )
        .unwrap();
    assert!(out.contains("|-"));
    assert!(out.contains("|+"));
}

#[test]
fn error_messages_name_the_error() {
    assert_eq!(
        XdiffError::UnsupportedContentType.message(),
        "unsupported content-type"
    );
    assert_eq!(XdiffError::OverrideParse.message(), "invalid key value pair");
}

#[test]
fn inline_diff_segments_spell_both_lines() {
    let (old_segs, new_segs) = xdiff::utils::inline_diff("hello world", "hello rust");
    let old_joined: String = old_segs.iter().map(|(_, s)| s.as_str()).collect();
    let new_joined: String = new_segs.iter().map(|(_, s)| s.as_str()).collect();
    assert_eq!(old_joined, "hello world");
    assert_eq!(new_joined, "hello rust");
    assert!(old_segs.iter().any(|(e, _)| *e));
    assert!(new_segs.iter().any(|(e, _)| *e));
    let common: String = old_segs
        .iter()
        .filter(|(e, _)| !*e)
        .map(|(_, s)| s.as_str())
        .collect();
    assert!(common.starts_with("hello "));
}

#[test]
fn inline_diff_of_equal_lines_has_no_emphasis() {
    let (old_segs, new_segs) = xdiff::utils::inline_diff("same line", "same line");
    assert!(old_segs.iter().all(|(e, _)| !*e));
    assert!(new_segs.iter().all(|(e, _)| !*e));
    let joined: String = old_segs.iter().map(|(_, s)| s.as_str()).collect();
    assert_eq!(joined, "same line");
}

#[test]
fn filter_json_removes_listed_fields() {
    let out = xdiff::response::filter_json(
        "{\"id\":1,\"secret\":\"s\",\"name\":\"a\"}",
        &vec!["secret".to_string()],
    )
    .unwrap();
    assert_eq!(out, "{\n  \"id\": 1,\n  \"name\": \"a\"\n}");
}

#[test]
fn filter_json_ignores_missing_keys() {
    let out = xdiff::response::filter_json(
        "{\"id\":1}",
        &vec!["absent".to_string()],
    )
    .unwrap();
    assert_eq!(out, "{\n  \"id\": 1\n}");
}

#[test]
fn filter_json_passes_non_object_through() {
    let out = xdiff::response::filter_json("[1,2]", &vec!["x".to_string()]).unwrap();
    assert_eq!(out, "[\n  1,\n  2\n]");
}

#[test]
fn diff_numbers_wider_than_one_digit() {
    let mut old = String::new();
    let mut new = String::new();
    for i in 0..12 {
        old.push_str(&format!("line {}\n", i));
        if i == 11 {
            new.push_str("changed 11\n");
        } else {
            new.push_str(&format!("line {}\n", i));
        }
    }
    let out = diff_text(&old, &new);
    assert!(out.contains("10  10   | line 9\n"));
    assert!(out.contains("12       |-line 11\n"));
    assert!(out.contains("    12   |+changed 11\n"));
}

#[test]
fn diff_against_empty_text() {
    let out = diff_text("", "a\n");
    assert_eq!(out, "    1    |+a\n");
    let out = diff_text("a\n", "");
    assert_eq!(out, "1        |-a\n");
}

#[test]
fn nested_form_body_is_refused() {
    let mut h = Headers::new();
    h.try_insert_raw("content-type", "application/x-www-form-urlencoded").unwrap();
    let base: serde_json::Value = serde_json::from_str("{\"a\":{\"b\":1}}").unwrap();
    let p = profile(None, h, Some(base));
    assert!(matches!(
        p.generate(&ExtraArgs::new()),
        Err(XdiffError::FormEncode)
    ));
}
