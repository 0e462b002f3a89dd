use kintri::commands::{
    daemon_options, daemon_status_text, doctor_daemon, doctor_gateway, doctor_login, doctor_place,
    end_session, ensure_daemon, exit_of, hook_identity, inbox_text, login_status_text,
    not_connected, online_text, print_memories, published_text, remember_request, search_request,
    start_session, HookInput, Ran, Startup,
};
use kintri::credentials::Credentials;
use kintri::failure::Failure;
use kintri::ipc::Request;
use kintri::json::{parse, Json};
use kintri::workspace::Checkout;

fn some(s: &str) -> Option<String> {
    Some(s.to_owned())
}

fn credentials(workspace_url: Option<&str>, workspace: Option<&str>) -> Credentials {
    Credentials {
        gateway_url: "https://g".to_owned(),
        workspace_url: workspace_url.map(|s| s.to_owned()),
        workspace: workspace.map(|s| s.to_owned()),
        token: "emt_abcd".to_owned(),
    }
}

#[test]
fn the_status_says_where_and_as_whom() {
    let said = |u: Option<&str>, w: Option<&str>| login_status_text(&credentials(u, w));
    assert_eq!(said(None, None), "Logged in to https://g as …abcd\n");
    assert_eq!(
        said(Some("https://a"), Some("Klik")),
        "Logged in to https://a as …abcd\nworkspace Klik · gateway https://g\n"
    );
    assert_eq!(
        said(Some("https://a"), None),
        "Logged in to https://a as …abcd\ngateway https://g\n"
    );
    assert_eq!(
        said(None, Some("Klik")),
        "Logged in to https://g as …abcd\nworkspace Klik\n"
    );
}

#[test]
fn the_status_lists_the_sessions_of_the_daemon() {
    let report = parse(
        "{\"pending_messages\":2,\"sessions\":[\
         {\"connected\":true,\"session_id\":\"s\",\"repository\":\"k/n\",\"branch\":\"main\",\
         \"cwd\":\"/x\"},{}]}",
    )
    .unwrap();
    assert_eq!(
        daemon_status_text(Ok(report)),
        "Daemon: running · 2 session(s) · 2 message(s) waiting\n\
         \x20 ● s · k/n@main · /x\n\x20 ○ - · - · -\n"
    );
    assert_eq!(
        daemon_status_text(Err(Failure::because("connect to the kintri daemon", "denied"))),
        "Daemon: not running (connect to the kintri daemon)\n"
    );
}

#[test]
fn the_doctor_looks_at_the_checkout() {
    let nothing = Checkout {
        repository: None,
        branch: None,
        project: None,
        email: None,
    };
    assert_eq!(
        doctor_place("/c", "/c/credentials.json", &nothing),
        "Config directory : /c\nCredentials      : /c/credentials.json\n\
         Repository       : (not a git checkout with an origin)\nBranch           : -\n\
         Git email        : (unset - you will not be identified)\n"
    );
    let known = Checkout {
        repository: some("k/n"),
        branch: some("main"),
        project: some("n"),
        email: some("e@x"),
    };
    assert!(doctor_place("/c", "p", &known)
        .ends_with("Repository       : k/n\nBranch           : main\nGit email        : e@x\n"));
}

#[test]
fn the_doctor_looks_at_the_login() {
    assert_eq!(doctor_login(&None), "Login            : not logged in\n");
    assert_eq!(
        doctor_login(&Some(credentials(Some("https://a"), Some("Klik")))),
        "Workspace        : Klik (https://a)\nGateway          : https://g\n"
    );
    assert_eq!(
        doctor_login(&Some(credentials(Some("https://a"), None))),
        "Workspace        : https://a\nGateway          : https://g\n"
    );
    assert_eq!(
        doctor_login(&Some(credentials(None, Some("Klik")))),
        "Gateway          : https://g\n"
    );
}

#[test]
fn the_doctor_says_what_answers() {
    assert_eq!(
        doctor_gateway(Ok(3)),
        "Gateway reachable: yes, 3 agent(s) online\n"
    );
    assert_eq!(
        doctor_gateway(Err(Failure::because("GET /v1/sessions", "down"))),
        "Gateway reachable: no (GET /v1/sessions: down)\n"
    );
    assert_eq!(
        doctor_daemon(Ok(parse("{\"version\":\"1\"}").unwrap())),
        "Daemon           : running, version 1\n"
    );
    assert_eq!(
        doctor_daemon(Ok(Json::Null)),
        "Daemon           : running, version ?\n"
    );
    assert_eq!(
        doctor_daemon(Err(Failure::because("a", "b"))),
        "Daemon           : a\n"
    );
}

#[test]
fn a_memory_is_published_from_the_command_line() {
    match remember_request("warning", "c", &vec!["f".to_owned()], &vec![]) {
        Request::Remember(body) => assert_eq!(
            body.to_text(),
            "{\"content\":\"c\",\"files\":[\"f\"],\"technologies\":[],\"type\":\"warning\"}"
        ),
        other => panic!("{other:?}"),
    }
    assert_eq!(
        published_text(&parse("{\"id\":\"m\"}").unwrap()),
        "Published. m\n"
    );
    assert_eq!(published_text(&Json::Null), "Published. \n");
}

#[test]
fn a_search_from_the_command_line() {
    match search_request(&None, &vec![], Some(3)) {
        Request::Search(body) => {
            assert_eq!(body.to_text(), "{\"files\":[],\"limit\":3,\"q\":null}")
        }
        other => panic!("{other:?}"),
    }
    match search_request(&some("x"), &vec!["a".to_owned()], None) {
        Request::Search(body) => {
            assert_eq!(
                body.to_text(),
                "{\"files\":[\"a\"],\"limit\":null,\"q\":\"x\"}"
            )
        }
        other => panic!("{other:?}"),
    }
}

#[test]
fn memories_are_printed_with_their_scores() {
    assert_eq!(
        print_memories(&Json::Null, &vec![]),
        "Nothing relevant. That is an answer, not a failure.\n"
    );
    let found = parse(
        "{\"memories\":[{\"type\":\"bug\",\"content\":\"c\",\
         \"relevance\":{\"score\":0.5,\"because\":[\"a\",\"b\"]}},\
         {\"type\":\"architecture\",\"content\":\"d\"}]}",
    )
    .unwrap();
    assert_eq!(
        print_memories(&found, &vec!["0.50".to_owned()]),
        "[0.50] bug          c\n         why: a; b\n[0.00] architecture d\n"
    );
}

#[test]
fn an_inbox_is_printed_line_by_line() {
    assert_eq!(inbox_text(&Json::Null), "Nothing waiting.\n");
    let two = parse("{\"messages\":[{\"from\":\"pj\",\"content\":\"a\"},{}]}").unwrap();
    assert_eq!(inbox_text(&two), "pj: a\nanother agent: \n");
}

#[test]
fn who_is_online_is_printed_line_by_line() {
    assert_eq!(
        online_text(&parse("{\"agents\":[]}").unwrap()),
        "Nobody else is working right now.\n"
    );
    let two = parse("{\"agents\":[{\"developer\":\"pj\",\"repository\":\"k/n\"},{}]}").unwrap();
    assert_eq!(online_text(&two), "pj  k/n  -\nsomeone  -  -\n");
}

#[test]
fn a_hook_says_who_and_where() {
    let input = |id: Option<&str>, cwd: Option<&str>| {
        Some(HookInput {
            session_id: id.map(|s| s.to_owned()),
            cwd: cwd.map(|s| s.to_owned()),
        })
    };
    let here = || "/here".to_owned();
    assert_eq!(hook_identity(None, None, here()), (None, here()));
    assert_eq!(
        hook_identity(None, input(Some("h"), Some("/w")), here()),
        (some("h"), "/w".to_owned())
    );
    assert_eq!(
        hook_identity(some("a"), input(Some("b"), Some("/w")), here()),
        (some("b"), "/w".to_owned())
    );
    assert_eq!(
        hook_identity(some("given"), input(Some(""), Some("")), here()),
        (some("given"), here())
    );
    assert_eq!(
        hook_identity(some("given"), None, here()),
        (some("given"), here())
    );
    assert_eq!(
        hook_identity(None, input(Some(""), None), here()),
        (None, here())
    );
}

#[test]
fn a_session_without_an_id_goes_by_its_shell() {
    match start_session(None, 42, "agent".to_owned(), "/x".to_owned()) {
        Request::Register {
            client_session_id,
            client,
            cwd,
        } => {
            assert_eq!(client_session_id, "local-42");
            assert_eq!(client, "agent");
            assert_eq!(cwd, "/x");
        }
        other => panic!("{other:?}"),
    }
    match start_session(some("given"), 42, "agent".to_owned(), "/x".to_owned()) {
        Request::Register {
            client_session_id, ..
        } => assert_eq!(client_session_id, "given"),
        other => panic!("{other:?}"),
    }
    assert_eq!(
        not_connected(&Failure::because("a", "b")),
        "kintri: not connected (a: b). The coding agent continues as normal."
    );
}

#[test]
fn without_an_id_every_session_from_here_ends() {
    let report = parse(
        "{\"sessions\":[{\"cwd\":\"/x\",\"client_session_id\":\"a\"},\
         {\"cwd\":\"/y\",\"client_session_id\":\"b\"},{\"cwd\":\"/x/\",\"client_session_id\":\"c\"},\
         {\"cwd\":\"/x\"},{}]}",
    )
    .unwrap();
    assert_eq!(end_session(&report, "/x"), vec!["a", "c"]);
    assert_eq!(end_session(&Json::Null, "/x"), Vec::<String>::new());
}

#[test]
fn a_daemon_started_by_hand_registers_its_session() {
    let options = daemon_options(
        "/c",
        some("id"),
        "agent".to_owned(),
        "/x".to_owned(),
        some("pj"),
        None,
    );
    let initial = options.initial.unwrap();
    assert_eq!(options.config_dir, "/c");
    assert_eq!(initial.client_session_id, "id");
    assert_eq!(initial.client, "agent");
    assert_eq!(initial.cwd, "/x");
    assert_eq!(options.github_login.as_deref(), Some("pj"));
    assert_eq!(options.display_name, None);
    let none = daemon_options("/c", None, "agent".to_owned(), "/x".to_owned(), None, None);
    assert!(none.initial.is_none());
}

#[test]
fn a_daemon_has_two_seconds_to_come_up() {
    assert!(matches!(ensure_daemon(0, true), Startup::Up));
    assert!(matches!(ensure_daemon(0, false), Startup::Wait));
    assert!(matches!(ensure_daemon(19, false), Startup::Wait));
    assert!(matches!(ensure_daemon(20, true), Startup::Up));
    match ensure_daemon(20, false) {
        Startup::GiveUp(e) => {
            assert_eq!(e.full(), "the daemon did not come up within two seconds")
        }
        other => panic!("{other:?}"),
    }
}

#[test]
fn a_hook_never_fails_whoever_ran_it() {
    let failed = || Err(Failure::because("a", "b"));
    let started = exit_of(Ran::SessionStart, failed());
    assert!(started.success);
    assert_eq!(
        started.said.as_deref(),
        Some("kintri: not connected (a: b). The coding agent continues as normal.")
    );
    for command in [Ran::SessionEnd, Ran::DaemonStop] {
        let exit = exit_of(command, failed());
        assert!(exit.success);
        assert_eq!(exit.said, None);
    }
    let other = exit_of(Ran::Other, failed());
    assert!(!other.success);
    assert_eq!(other.said.as_deref(), Some("kintri: a: b"));
    for command in [Ran::SessionStart, Ran::SessionEnd, Ran::DaemonStop, Ran::Other] {
        let exit = exit_of(command, Ok(()));
        assert!(exit.success);
        assert_eq!(exit.said, None);
    }
}
