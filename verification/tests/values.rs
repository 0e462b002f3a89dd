use kintri::agent_protocol::{MessageView, SearchMemories};
use kintri::json::{parse, Json};
use kintri::model::{AgentMemoryId, AgentMessageId, AgentSessionId, MemoryType};
use kintri::path;
use kintri::text;
use kintri::time::Timestamp;

#[test]
fn memory_type_round_trips_through_serde_as_lowercase() {
    for t in MemoryType::ALL {
        let json = serde_json::to_string(t.as_str()).unwrap();
        assert_eq!(json, format!("\"{}\"", t.as_str()));
        let back: String = serde_json::from_str(&json).unwrap();
        assert_eq!(MemoryType::parse(&back), Some(t));
        assert_eq!(MemoryType::parse(t.as_str()), Some(t));
    }
}

#[test]
fn session_id_is_a_transparent_uuid() {
    let id = AgentSessionId::new();
    let json = Json::Text(id.to_text()).to_text();
    assert_eq!(json, format!("\"{}\"", uuid::Uuid::from_u128(id.0)));
    let back: String = serde_json::from_str(&json).unwrap();
    assert_eq!(AgentSessionId::parse(&back), Some(id));
}

#[test]
fn the_kinds_come_in_the_order_of_the_platform() {
    let names: Vec<&str> = MemoryType::ALL.iter().map(|t| t.as_str()).collect();
    assert_eq!(
        names,
        vec![
            "discovery",
            "decision",
            "warning",
            "convention",
            "architecture",
            "bug",
            "question"
        ]
    );
    assert_eq!(MemoryType::parse("Discovery"), None);
    assert_eq!(MemoryType::parse(""), None);
}

#[test]
fn an_identifier_is_written_in_groups() {
    let id = AgentMessageId(0x0190_5c3e_9a7b_7def_8123_4567_89ab_cdef);
    assert_eq!(id.to_text(), "01905c3e-9a7b-7def-8123-456789abcdef");
    assert_eq!(AgentMessageId::parse(&id.to_text()), Some(id));
    assert_eq!(AgentMessageId::parse("no"), None);
    assert_eq!(
        AgentMemoryId(0).to_text(),
        "00000000-0000-0000-0000-000000000000"
    );
    assert_eq!(AgentMemoryId::parse(""), None);
}

#[test]
fn fresh_identifiers_are_time_ordered() {
    for id in [
        AgentSessionId::new().0,
        AgentMessageId::new().0,
        AgentMemoryId::new().0,
    ] {
        assert_eq!((id >> 76) & 0xf, 7);
        assert_eq!((id >> 62) & 0x3, 2);
    }
    assert_ne!(AgentSessionId::new(), AgentSessionId::new());
}

#[test]
fn a_query_parameter_is_split_at_commas() {
    assert_eq!(
        SearchMemories::split(Some(" a.rs, ,b/c.rs ,")),
        vec!["a.rs".to_owned(), "b/c.rs".to_owned()]
    );
    assert_eq!(SearchMemories::split(Some("")), Vec::<String>::new());
    assert_eq!(SearchMemories::split(None), Vec::<String>::new());
}

#[test]
fn a_point_in_time_is_written_as_documents_write_it() {
    let at = |seconds: i64, nanos: u32| Timestamp { seconds, nanos }.to_text();
    assert_eq!(at(0, 0), "1970-01-01T00:00:00Z");
    assert_eq!(at(1_516_991_409, 453_829_000), "2018-01-26T18:30:09.453829Z");
    assert_eq!(at(1_516_991_409, 453_000_000), "2018-01-26T18:30:09.453Z");
    assert_eq!(at(i64::MAX, 0), "");
}

#[test]
fn the_clock_goes_on() {
    let a = Timestamp::now();
    let b = Timestamp::now();
    assert!(a.seconds > 1_600_000_000);
    assert!(!a.is_after(&b));
    assert!(Timestamp { seconds: 1, nanos: 1 }.is_after(&Timestamp { seconds: 1, nanos: 0 }));
    assert!(Timestamp { seconds: 2, nanos: 0 }.is_after(&Timestamp { seconds: 1, nanos: 9 }));
}

#[test]
fn a_document_is_read_and_written_back() {
    let text = "{\"a\":[1,-2,2.5,null,true,\"x\\n\"],\"b\":{}}";
    let value = parse(text).unwrap();
    assert_eq!(value.to_text(), text);
    assert_eq!(
        value.items_at("a"),
        vec![
            Json::Unsigned(1),
            Json::Negative(-2),
            Json::Decimal("2.5".to_owned()),
            Json::Null,
            Json::Bool(true),
            Json::Text("x\n".to_owned())
        ]
    );
    assert_eq!(parse(&value.to_text()), Ok(value));
}

#[test]
fn entries_are_written_once_and_in_order_of_their_names() {
    let value = Json::object()
        .entry("b", Json::Unsigned(1))
        .entry("a", Json::Unsigned(2))
        .entry("b", Json::Unsigned(3));
    assert_eq!(value.to_text(), "{\"a\":2,\"b\":3}");
    assert_eq!(value.at("b"), Json::Unsigned(3));
    let nested = Json::object()
        .entry("é", Json::Null)
        .entry("ab", value)
        .entry("a", Json::Null)
        .entry("\u{1f600}", Json::Null)
        .entry("\u{ff5e}", Json::Null)
        .entry("B", Json::Null);
    assert_eq!(
        nested.to_text(),
        "{\"B\":null,\"a\":null,\"ab\":{\"a\":2,\"b\":3},\"é\":null,\"\u{ff5e}\":null,\"\u{1f600}\":null}"
    );
    assert_eq!(parse(&nested.to_text()).unwrap().at("ab").at("b"), Json::Unsigned(3));
}

#[test]
fn a_document_is_laid_out_for_a_person() {
    let value = parse("{\"b\":[],\"a\":[1,{\"c\":null}]}").unwrap();
    let text = value.to_pretty_text();
    assert_eq!(
        text,
        "{\n  \"a\": [\n    1,\n    {\n      \"c\": null\n    }\n  ],\n  \"b\": []\n}"
    );
    assert_eq!(parse(&text), Ok(value));
    assert_eq!(Json::Unsigned(7).to_pretty_text(), "7");
}

#[test]
fn what_is_not_json_says_so() {
    assert!(parse("{").unwrap_err().contains("EOF"));
    assert!(parse("").is_err());
}

#[test]
fn the_reader_accepts_nesting_up_to_its_bound() {
    let nested = |n: usize| format!("{}{}", "[".repeat(n), "]".repeat(n));
    assert!(parse(&nested(127)).is_ok());
    assert!(parse(&nested(128)).is_err());
}

#[test]
fn an_object_is_read_and_changed_by_name() {
    let value = parse("{\"a\":\"x\",\"n\":3}").unwrap();
    assert_eq!(value.text_at("a"), Some("x"));
    assert_eq!(value.text_at("n"), None);
    assert_eq!(value.text_or("z", "-"), "-");
    assert_eq!(value.at("z"), Json::Null);
    assert_eq!(Json::Null.get("a"), None);
    let changed = value.with("a", Json::Bool(true)).without("n");
    assert_eq!(changed.to_text(), "{\"a\":true}");
    assert_eq!(Json::Null.with("a", Json::Null), Json::Null);
}

#[test]
fn numbers_that_are_no_integers_keep_their_text() {
    let value = parse("[0.5,1e300,18446744073709551615,-9223372036854775808]").unwrap();
    assert_eq!(
        value.to_text(),
        "[0.5,1e+300,18446744073709551615,-9223372036854775808]"
    );
}

#[test]
fn a_message_is_written_with_everything_it_holds() {
    let message = MessageView {
        id: AgentMessageId(1),
        content: "hi".to_owned(),
        from: None,
        from_session_id: Some(AgentSessionId(2)),
        created_at: Timestamp { seconds: 0, nanos: 0 },
    };
    assert_eq!(
        message.to_json().to_text(),
        "{\"content\":\"hi\",\"created_at\":\"1970-01-01T00:00:00Z\",\"from\":null,\
         \"from_session_id\":\"00000000-0000-0000-0000-000000000002\",\
         \"id\":\"00000000-0000-0000-0000-000000000001\"}"
    );
}

#[test]
fn paths_are_joined_and_parted() {
    assert_eq!(path::join("/a", "b"), "/a/b");
    assert_eq!(path::join("/a/", "b"), "/a/b");
    assert_eq!(path::join("", "b"), "b");
    assert_eq!(path::parent_of("/a/b"), "/a");
    assert_eq!(path::parent_of("/a//./b"), "/a");
    assert_eq!(path::parent_of("/b"), "/");
    assert_eq!(path::parent_of("b"), "");
    assert_eq!(path::parent_of("./b"), ".");
}

#[test]
fn a_place_has_more_than_one_path() {
    assert!(path::same_place("/a/b", "/a//b/"));
    assert!(path::same_place("/a/./b", "/a/b/."));
    assert!(path::same_place("./a", "./a"));
    assert!(!path::same_place("./a", "a"));
    assert!(!path::same_place("/a", "a"));
    assert!(!path::same_place("/a/b", "/a/c"));
    assert!(!path::same_place("/a/b", "/a"));
}

#[test]
fn whitespace_is_what_unicode_says() {
    for code in 0..=0x10ffff_u32 {
        if let Some(c) = char::from_u32(code) {
            assert_eq!(text::is_whitespace(c), c.is_whitespace(), "{code:x}");
        }
    }
}

#[test]
fn text_functions_do_what_their_names_say() {
    assert_eq!(text::trim(" \u{a0}a b\n"), "a b");
    assert_eq!(text::trim_end_of("a//", '/'), "a");
    assert!(text::starts_with("https://x", "https://"));
    assert!(!text::starts_with("http", "https"));
    assert_eq!(text::strip_suffix("a.git", ".git"), Some("a"));
    assert_eq!(text::strip_suffix("a", ".git"), None);
    assert_eq!(text::split_once("a=b=c", '='), Some(("a", "b=c")));
    assert_eq!(text::rsplit_once("a=b=c", '='), Some(("a=b", "c")));
    assert_eq!(text::split_once("a", '='), None);
    assert_eq!(text::split("a,,b", ','), vec!["a", "", "b"]);
    assert_eq!(text::split("", ','), vec![""]);
    assert_eq!(text::join(&vec!["a".to_owned(), "b".to_owned()], "; "), "a; b");
    assert_eq!(text::find("háčky", "čk"), Some(2));
    assert_eq!(text::replace_first("aXbX", "X", "--"), "a--bX");
    assert_eq!(text::behind_last("a://b://c", "://"), "c");
    assert_eq!(text::number(0), "0");
    assert_eq!(text::number(18446744073709551615), "18446744073709551615");
}
