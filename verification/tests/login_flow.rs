use kintri::login::{
    browser_login, challenge, client_name, exchange_refused, login_with, open_browser,
    random_base64, read_request_target, receive, respond, timed_out, wait_for_callback, Callback, Platform,
};
use kintri::url::{urldecode, urlencode};

fn base64_shape(s: &str) -> bool {
    s.chars()
        .all(|c| c.is_ascii_alphanumeric() || c == '-' || c == '_')
}

#[test]
fn pkce_matches_the_rfc_7636_known_answer() {
    let verifier = "dBjftJeZ4CVP-mB92K27uhbUJU1p1r_wW1gFWFOEjXk";
    assert_eq!(
        challenge(verifier),
        "E9Melhoa2OwvFrEMTJguCHaoeK1t8URWbuGJSstw-cM"
    );
}

#[test]
fn a_generated_verifier_is_the_shape_the_server_accepts() {
    let verifier = random_base64(32);
    assert_eq!(verifier.len(), 43);
    assert!(verifier
        .chars()
        .all(|c| c.is_ascii_alphanumeric() || c == '-' || c == '_'));

    let challenge = challenge(&verifier);
    assert_eq!(challenge.len(), 43);
}

#[test]
fn query_values_survive_the_round_trip() {
    for value in ["kintri on pj-macbook", "a/b+c=d", "háčky a čárky", ""] {
        assert_eq!(urldecode(&urlencode(value)), value, "{value}");
    }
}

#[test]
fn url_encoding_escapes_what_would_break_a_query() {
    assert_eq!(
        urlencode("http://127.0.0.1:53421/callback"),
        "http%3A%2F%2F127.0.0.1%3A53421%2Fcallback"
    );
    assert_eq!(urlencode("a&b=c"), "a%26b%3Dc");
}

#[test]
fn a_value_outside_ascii_is_written_byte_by_byte() {
    assert_eq!(urlencode("č"), "%C4%8D");
    assert_eq!(urlencode("-_.~aZ09"), "-_.~aZ09");
    assert_eq!(urldecode("%c4%8d"), "č");
}

#[test]
fn a_plus_is_a_space_and_a_lone_percent_is_itself() {
    assert_eq!(urldecode("a+b"), "a b");
    assert_eq!(urldecode("100%"), "100%");
    assert_eq!(urldecode("%4"), "%4");
    assert_eq!(urldecode("%zz"), "%zz");
    assert_eq!(urldecode("%+A"), "\n");
}

#[test]
fn a_percent_before_a_wide_character_is_itself() {
    assert_eq!(urldecode("%č"), "%č");
    assert_eq!(urldecode("%ač"), "%ač");
}

#[test]
fn bytes_that_are_not_utf8_are_repaired() {
    assert_eq!(urldecode("%FF"), "\u{FFFD}");
}

#[test]
fn two_random_values_differ() {
    assert_ne!(random_base64(16), random_base64(16));
    assert_eq!(random_base64(16).len(), 22);
    assert_eq!(random_base64(0), "");
}

#[test]
fn a_login_opens_a_page_that_names_its_port() {
    let login = login_with(
        "https://app.kintri.ai//",
        53421,
        "kintri on pj",
        "dBjftJeZ4CVP-mB92K27uhbUJU1p1r_wW1gFWFOEjXk".to_owned(),
        "st-ate".to_owned(),
    );
    assert_eq!(login.base, "https://app.kintri.ai");
    assert_eq!(login.redirect_uri, "http://127.0.0.1:53421/callback");
    assert_eq!(
        login.authorize,
        "https://app.kintri.ai/cli/authorize\
         ?code_challenge=E9Melhoa2OwvFrEMTJguCHaoeK1t8URWbuGJSstw-cM\
         &code_challenge_method=S256\
         &redirect_uri=http%3A%2F%2F127.0.0.1%3A53421%2Fcallback\
         &state=st-ate&name=kintri%20on%20pj"
    );
    assert_eq!(login.token_url(), "https://app.kintri.ai/api/cli/token");
    assert_eq!(
        login.token_request("c").to_text(),
        "{\"code\":\"c\",\"codeVerifier\":\"dBjftJeZ4CVP-mB92K27uhbUJU1p1r_wW1gFWFOEjXk\"}"
    );
    assert!(login.instructions().contains(&login.authorize));
}

#[test]
fn each_login_has_its_own_verifier_and_state() {
    let one = browser_login("https://app.kintri.ai", 1, "kintri");
    let two = browser_login("https://app.kintri.ai", 1, "kintri");
    assert_eq!(one.verifier.len(), 43);
    assert_eq!(one.state.len(), 22);
    assert!(base64_shape(&one.verifier) && base64_shape(&one.state));
    assert_ne!(one.verifier, two.verifier);
    assert_ne!(one.state, two.state);
    assert!(!one.authorize.contains(&one.verifier));
}

#[test]
fn the_target_is_read_off_a_get_request() {
    assert_eq!(
        read_request_target(b"GET /callback?code=a HTTP/1.1\r\nHost: x\r\n\r\n").as_deref(),
        Some("/callback?code=a")
    );
    assert_eq!(read_request_target(b"GET /x").as_deref(), Some("/x"));
    assert_eq!(read_request_target(b"  GET   /x  \r\n").as_deref(), Some("/x"));
    assert_eq!(read_request_target(b"POST /callback HTTP/1.1\r\n"), None);
    assert_eq!(read_request_target(b"GET"), None);
    assert_eq!(read_request_target(b"\nGET /x"), None);
    assert_eq!(read_request_target(b""), None);
}

#[test]
fn the_callback_of_this_login_brings_the_code() {
    let callback = wait_for_callback("/callback?code=a%2Bb&state=s", "s");
    assert_eq!(callback, Callback::Approved("a+b".to_owned()));
    assert!(callback.answer().starts_with("HTTP/1.1 200 OK\r\n"));
    assert_eq!(callback.outcome(), Some(Ok("a+b".to_owned())));
}

#[test]
fn a_stray_request_does_not_end_the_wait() {
    let elsewhere = wait_for_callback("/favicon.ico", "s");
    assert_eq!(elsewhere, Callback::Elsewhere);
    assert!(elsewhere.answer().starts_with("HTTP/1.1 404 Not Found\r\n"));
    assert_eq!(elsewhere.outcome(), None);

    let foreign = wait_for_callback("/callback?code=a&state=other", "s");
    assert_eq!(foreign, Callback::Foreign);
    assert!(foreign.answer().starts_with("HTTP/1.1 404 Not Found\r\n"));
    assert_eq!(foreign.outcome(), None);
    assert_eq!(wait_for_callback("/callback", "s"), Callback::Foreign);
    assert_eq!(wait_for_callback("/callback?code=a", ""), Callback::Foreign);
}

#[test]
fn whatever_else_connects_gets_a_404() {
    for stray in [
        &b""[..],
        b"POST /callback?code=a&state=s HTTP/1.1\r\n",
        b"GET",
        b"\xff\xfe",
        b"GET / HTTP/1.1\r\n",
        b"GET /callback?code=a&state=other HTTP/1.1\r\n",
        b"GET /callback?code=a HTTP/1.1\r\n",
    ] {
        let callback = receive(stray, "s");
        assert!(callback.answer().starts_with("HTTP/1.1 404 Not Found\r\n"));
        assert_eq!(callback.outcome(), None);
    }
    assert_eq!(
        receive(b"GET /callback?code=a%2Bb&state=s HTTP/1.1\r\n", "s"),
        Callback::Approved("a+b".to_owned())
    );
}

#[test]
fn a_callback_without_a_code_is_refused() {
    for target in ["/callback?state=s", "/callback?state=s&code="] {
        let refused = wait_for_callback(target, "s");
        assert_eq!(refused, Callback::Refused);
        assert!(refused.answer().starts_with("HTTP/1.1 400 Bad Request\r\n"));
        assert_eq!(
            refused.outcome(),
            Some(Err(
                "the browser came back without an authorization code".to_owned()
            ))
        );
    }
}

#[test]
fn the_last_of_two_parameters_counts() {
    assert_eq!(
        wait_for_callback("/callback?state=x&code=a&state=s&code=b", "s"),
        Callback::Approved("b".to_owned())
    );
}

#[test]
fn a_response_counts_its_body_in_bytes() {
    let text = respond("200 OK", "č");
    let (head, body) = text.split_once("\r\n\r\n").unwrap();
    assert!(head.contains(&format!("content-length: {}\r\n", body.len())));
    assert!(body.contains("<p>č</p>"));
    assert!(head.ends_with("connection: close"));
}

#[test]
fn a_refused_exchange_names_the_status() {
    assert_eq!(
        exchange_refused(400),
        "the approval could not be exchanged for a token (400 Bad Request). \
         It may have expired or already been used; run `kintri login` again"
    );
    assert_eq!(
        timed_out(),
        "timed out after 5 minutes waiting for the browser. Run `kintri login` again"
    );
}

#[test]
fn a_machine_is_named_by_its_host() {
    assert_eq!(client_name(Some(" pj \n".to_owned()), None), "kintri on pj");
    assert_eq!(
        client_name(None, Some(b"host\n".to_vec())),
        "kintri on host"
    );
    assert_eq!(client_name(None, Some(vec![0xff])), "kintri");
    assert_eq!(client_name(Some("".to_owned()), Some(b"host".to_vec())), "kintri");
    assert_eq!(client_name(None, None), "kintri");
}

#[test]
fn a_browser_is_opened_as_the_platform_does() {
    assert_eq!(
        open_browser(Platform::MacOs, "u"),
        ("open".to_owned(), vec!["u".to_owned()])
    );
    assert_eq!(
        open_browser(Platform::Windows, "u"),
        (
            "cmd".to_owned(),
            vec![
                "/C".to_owned(),
                "start".to_owned(),
                "".to_owned(),
                "u".to_owned()
            ]
        )
    );
    assert_eq!(
        open_browser(Platform::Other, "u"),
        ("xdg-open".to_owned(), vec!["u".to_owned()])
    );
}
