use kintri::failure::Failure;
use kintri::ipc::{unreachable_daemon, ConnectError, Request};
use kintri::json::{parse, Json};
use kintri::mcp::{
    answer_tool, call_tool, handle, render, response_line, serve, tool_error, tools, Handled,
    PROTOCOL_VERSION,
};

fn result(handled: Handled) -> Json {
    match handled {
        Handled::Result(value) => value,
        other => panic!("{other:?}"),
    }
}

fn asked(name: &str, arguments: &str, cwd: Option<&str>) -> Request {
    let params = Json::object()
        .entry("name", Json::text(name))
        .entry("arguments", parse(arguments).unwrap());
    match call_tool(&params, cwd.map(|c| c.to_owned())) {
        Handled::Ask { tool, request } => {
            assert_eq!(tool, name);
            request
        }
        other => panic!("{other:?}"),
    }
}

#[test]
fn initialize_advertises_tools_and_a_protocol_version() {
    let result = result(handle("initialize", &Json::Null, None));
    assert_eq!(result.text_at("protocolVersion"), Some(PROTOCOL_VERSION));
    assert!(matches!(
        result.at("capabilities").at("tools"),
        Json::Object(_)
    ));
}

#[test]
fn exactly_the_four_tools_the_product_needs_are_offered() {
    let names: Vec<String> = Json::object()
        .entry("tools", tools())
        .items_at("tools")
        .iter()
        .map(|t| t.text_at("name").unwrap().to_owned())
        .collect();
    assert_eq!(
        names,
        vec![
            "kintri_remember",
            "kintri_search",
            "kintri_message",
            "kintri_inbox"
        ]
    );
}

#[test]
fn a_missing_daemon_is_a_tool_error_not_a_protocol_error() {
    let params = parse("{\"name\":\"kintri_inbox\",\"arguments\":{}}").unwrap();
    let tool = match handle("tools/call", &params, None) {
        Handled::Ask { tool, .. } => tool,
        other => panic!("{other:?}"),
    };
    let gone = unreachable_daemon("/nonexistent-kintri-dir", ConnectError::Missing);
    let result = answer_tool(&tool, Err(gone));
    assert_eq!(result.at("isError"), Json::Bool(true));
    assert!(result.items_at("content")[0]
        .text_at("text")
        .unwrap()
        .contains("daemon"));
}

#[test]
fn an_empty_search_says_so_in_words_an_agent_will_not_misread() {
    let rendered = render("kintri_search", &parse("{\"memories\":[]}").unwrap());
    assert!(rendered.contains("not a failure"));
}

#[test]
fn an_unknown_tool_is_reported_without_taking_the_session_down() {
    let rendered = tool_error("no such tool: kintri_nope".to_owned());
    assert_eq!(rendered.at("isError"), Json::Bool(true));
    let params = parse("{\"name\":\"kintri_nope\"}").unwrap();
    assert_eq!(result(handle("tools/call", &params, None)), rendered);
}

#[test]
fn an_unknown_method_gets_an_empty_result() {
    assert_eq!(result(handle("ping", &Json::Null, None)).to_text(), "{}");
}

#[test]
fn the_tools_are_listed() {
    let listed = result(handle("tools/list", &Json::Null, None));
    assert_eq!(listed.items_at("tools").len(), 4);
    let remember = &listed.items_at("tools")[0];
    let schema = remember.at("inputSchema");
    assert_eq!(schema.items_at("required").len(), 2);
    assert_eq!(schema.at("properties").at("type").items_at("enum").len(), 7);
    assert!(remember
        .text_at("description")
        .unwrap()
        .starts_with("Publish something you have learned"));
    assert_eq!(
        listed.items_at("tools")[3].at("inputSchema").to_text(),
        "{\"properties\":{\"limit\":{\"type\":\"integer\"}},\"type\":\"object\"}"
    );
}

#[test]
fn only_requests_with_an_id_take_an_answer() {
    assert!(serve("  \t").is_none());
    assert!(serve("not json").is_none());
    assert!(serve("{\"method\":\"x\"}").is_none());
    assert!(serve("[1]").is_none());
    let request = serve("{\"id\":7,\"method\":\"ping\",\"params\":{\"a\":1}}").unwrap();
    assert_eq!(request.id, Json::Unsigned(7));
    assert_eq!(request.method, "ping");
    assert_eq!(request.params.at("a"), Json::Unsigned(1));
    let bare = serve("{\"id\":null}").unwrap();
    assert_eq!(bare.id, Json::Null);
    assert_eq!(bare.method, "");
    assert_eq!(bare.params, Json::Null);
}

#[test]
fn an_answer_is_one_line() {
    assert_eq!(
        response_line(Json::Unsigned(7), Ok(Json::object())),
        "{\"id\":7,\"jsonrpc\":\"2.0\",\"result\":{}}\n"
    );
    assert_eq!(
        response_line(Json::text("a"), Err(Failure::because("x", "y"))),
        "{\"error\":{\"code\":-32603,\"message\":\"x: y\"},\"id\":\"a\",\"jsonrpc\":\"2.0\"}\n"
    );
}

#[test]
fn a_memory_is_published_with_what_was_given() {
    match asked(
        "kintri_remember",
        "{\"content\":\"c\",\"files\":[\"a\"]}",
        Some("/x"),
    ) {
        Request::Remember(body) => assert_eq!(
            body.to_text(),
            "{\"content\":\"c\",\"cwd\":\"/x\",\"files\":[\"a\"],\"project\":null,\
             \"repository\":null,\"technologies\":[],\"type\":\"discovery\"}"
        ),
        other => panic!("{other:?}"),
    }
}

#[test]
fn a_search_passes_on_what_was_given() {
    match asked("kintri_search", "{\"query\":\"q\",\"limit\":3}", Some("/x")) {
        Request::Search(body) => assert_eq!(
            body.to_text(),
            "{\"files\":null,\"limit\":3,\"project\":null,\"q\":\"q\",\"repository\":null,\
             \"technologies\":null}"
        ),
        other => panic!("{other:?}"),
    }
}

#[test]
fn a_message_names_its_target() {
    match asked("kintri_message", "{\"target_session_id\":\"t\"}", None) {
        Request::Message(body) => assert_eq!(
            body.to_text(),
            "{\"content\":null,\"cwd\":null,\"target_session_id\":\"t\"}"
        ),
        other => panic!("{other:?}"),
    }
}

#[test]
fn an_inbox_is_asked_for_from_a_directory() {
    match asked("kintri_inbox", "{\"limit\":2}", Some("/x")) {
        Request::Inbox { limit, cwd } => {
            assert_eq!(limit, Some(2));
            assert_eq!(cwd.as_deref(), Some("/x"));
        }
        other => panic!("{other:?}"),
    }
    for arguments in ["{}", "null", "{\"limit\":-1}", "{\"limit\":1.5}", "{\"limit\":\"1\"}"] {
        match asked("kintri_inbox", arguments, None) {
            Request::Inbox { limit, cwd } => assert_eq!((limit, cwd), (None, None)),
            other => panic!("{other:?}"),
        }
    }
}

#[test]
fn what_was_found_is_written_for_an_agent() {
    let found = parse(
        "{\"memories\":[{\"type\":\"bug\",\"content\":\"c\",\"author\":\"pj\",\
         \"relevance\":{\"because\":[\"same file\",\"recent\",3]}},{}]}",
    )
    .unwrap();
    assert_eq!(
        render("kintri_search", &found),
        "[bug] c\n  by pj · same file; recent\n[-] \n  by a colleague's agent · recent\n"
    );
}

#[test]
fn messages_are_written_for_an_agent() {
    assert_eq!(render("kintri_inbox", &Json::Null), "No messages.");
    let two = parse("{\"messages\":[{\"from\":\"pj\",\"content\":\"a\"},{\"content\":\"b\"}]}");
    assert_eq!(
        render("kintri_inbox", &two.unwrap()),
        "pj: a\nanother agent: b"
    );
}

#[test]
fn what_was_sent_says_whether_it_arrived() {
    assert_eq!(render("kintri_remember", &Json::Null), "Published to the team.");
    let pushed = |text: &str| render("kintri_message", &parse(text).unwrap());
    assert_eq!(pushed("{\"pushed\":true}"), "Delivered.");
    let queued = "Queued; their agent will see it when it next checks.";
    assert_eq!(pushed("{\"pushed\":false}"), queued);
    assert_eq!(pushed("{}"), queued);
    assert_eq!(render("other", &Json::Unsigned(3)), "3");
}

#[test]
fn a_result_is_a_text() {
    assert_eq!(
        answer_tool("kintri_remember", Ok(Json::Null)).to_text(),
        "{\"content\":[{\"text\":\"Published to the team.\",\"type\":\"text\"}]}"
    );
}
