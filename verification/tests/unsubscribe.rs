use comail_core::error::CoreError;
use comail_core::unsubscribe::{
    advertises_one_click, first_https_uri, first_mailto_uri, headers_from_raw, one_click_body,
    one_click_outcome, parse_mailto, parse_unsubscribe_uris, percent_decode, plan_unsubscribe,
    post_target, redact_url_for_log, refuse_one_click, urlencoding_decode, PostReply,
};

#[test]
fn parses_angle_brackets_and_mailto_https_mix() {
    let raw = "<mailto:u@x.example?subject=Leave>, <https://x.example/unsub?t=1>";
    let uris = parse_unsubscribe_uris(raw);
    assert_eq!(uris.len(), 2);
    assert!(first_https_uri(&uris).unwrap().starts_with("https://"));
    let m = parse_mailto(first_mailto_uri(&uris).unwrap()).unwrap();
    assert_eq!(m.to, "u@x.example");
    assert_eq!(m.subject.as_deref(), Some("Leave"));
}

#[test]
fn parses_bare_https_without_brackets() {
    let raw = "https://account.example.com/profile/unsubscribe?K=abc";
    let uris = parse_unsubscribe_uris(raw);
    assert_eq!(uris.len(), 1);
    assert!(first_https_uri(&uris).is_some());
}

#[test]
fn one_click_detection_is_case_insensitive() {
    assert!(advertises_one_click(Some("List-Unsubscribe=One-Click")));
    assert!(advertises_one_click(Some("list-unsubscribe=one-click")));
    assert!(!advertises_one_click(Some("something-else")));
    assert!(!advertises_one_click(None));
}

#[test]
fn plan_prefers_one_click_when_post_present() {
    let r = plan_unsubscribe(
        Some("<https://esp.example/u/1>, <mailto:u@esp.example>"),
        Some("List-Unsubscribe=One-Click"),
    );
    assert_eq!(r.method, "one_click");
    assert_eq!(post_target(&r).map(|u| u.as_str()), Some("https://esp.example/u/1"));
    assert!(r.url.unwrap().starts_with("https://"));
}

#[test]
fn plan_needs_browser_without_post() {
    let r = plan_unsubscribe(Some("<https://esp.example/u/1>"), None);
    assert_eq!(r.method, "needs_browser");
    assert!(!r.ok);
    assert!(post_target(&r).is_none());
}

#[test]
fn plan_mailto_when_no_https() {
    let r = plan_unsubscribe(
        Some("<mailto:leave@list.example?subject=unsubscribe%20me&body=bye>"),
        None,
    );
    assert_eq!(r.method, "mailto");
    let m = r.mailto.unwrap();
    assert_eq!(m.to, "leave@list.example");
    assert_eq!(m.subject.as_deref(), Some("unsubscribe me"));
    assert_eq!(m.body.as_deref(), Some("bye"));
}

#[test]
fn nothing_to_plan_without_a_header() {
    let r = plan_unsubscribe(None, Some("List-Unsubscribe=One-Click"));
    assert!(!r.ok);
    assert!(r.url.is_none() && r.mailto.is_none());
    assert!(post_target(&r).is_none());
}

#[test]
fn redact_strips_query() {
    let s = redact_url_for_log("https://app.loops.so/unsubscribe/abc/secrettoken?x=1");
    assert_eq!(s, "https://app.loops.so/unsubscribe/abc/secrettoken");
    assert!(!s.contains("x=1"));
}

#[test]
fn unreadable_addresses_are_redacted_whole() {
    let s = redact_url_for_log("no address at all?x=1");
    assert!(!s.contains("x=1"));
}

#[test]
fn rejects_non_https_one_click() {
    let r = refuse_one_click("http://example.com/unsub").unwrap();
    assert!(!r.ok);
    assert!(r.error.unwrap().contains("https"));
    assert!(refuse_one_click("https://example.com/unsub").is_none());
}

#[test]
fn only_a_success_counts_as_unsubscribed() {
    let url = "https://esp.example/u/1";
    let done = one_click_outcome(url, &PostReply::Status(200));
    assert!(done.ok);
    assert_eq!(done.status, Some(200));
    assert!(!one_click_outcome(url, &PostReply::Status(404)).ok);
    assert!(!one_click_outcome(url, &PostReply::Failed("down".to_string())).ok);
    assert!(!one_click_outcome(url, &PostReply::NoClient("tls".to_string())).ok);
    assert_eq!(one_click_body(), "List-Unsubscribe=One-Click");
}

#[test]
fn percent_escapes_are_decoded() {
    assert_eq!(percent_decode(b"a%20b%zz%4"), b"a b%zz%4".to_vec());
    assert_eq!(urlencoding_decode("caf%C3%A9"), "café");
}

#[test]
fn headers_are_read_from_a_stored_mail() {
    let raw = b"Subject: x\r\nList-Unsubscribe: <https://a.example/u>,\r\n <mailto:u@a.example>\r\nList-Unsubscribe-Post: List-Unsubscribe=One-Click\r\n\r\nbody\r\nList-Unsubscribe: no\r\n";
    let (list, post) = headers_from_raw(raw).unwrap();
    let uris = parse_unsubscribe_uris(&list.unwrap());
    assert_eq!(uris.len(), 2);
    assert!(advertises_one_click(post.as_deref()));
    assert!(matches!(headers_from_raw(b""), Err(CoreError::Mime(_))));
    let (list, post) = headers_from_raw(b"Subject: \xff\xfe\r\n\r\n").unwrap();
    assert!(list.is_none() && post.is_none());
}
