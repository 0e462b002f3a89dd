use kintri::account::{
    keep_login, logged_in, login_asked, login_granted, login_text, login_with_token, logout_text,
    normalize_url, require_login, LOGGED_OUT, NOT_A_TOKEN, NO_GATEWAY,
};
use kintri::credentials::{
    Credentials, FileStep, FileStore, ReadOutcome, RemoveOutcome, Store,
};
use kintri::failure::Failure;
use kintri::login::Granted;

fn credentials(token: &str) -> Credentials {
    Credentials {
        gateway_url: "https://agent.example.invalid".to_owned(),
        workspace_url: None,
        workspace: None,
        token: token.to_owned(),
    }
}

fn granted(gateway_url: Option<&str>, token: &str) -> Granted {
    Granted {
        token: token.to_owned(),
        gateway_url: gateway_url.map(|u| u.to_owned()),
        workspace: "Klik".to_owned(),
    }
}

#[test]
fn a_fingerprint_identifies_without_revealing() {
    let c = Credentials {
        gateway_url: "https://example.invalid".to_owned(),
        workspace_url: None,
        workspace: None,
        token: "emt_abcdefghijkl_secretsecretsecret".to_owned(),
    };
    let printed = c.fingerprint();
    assert_eq!(printed, "…cret");
    assert!(!printed.contains("emt_"));
    assert!(!c.token.contains(&printed[3..]) || printed.len() < c.token.len());
}

#[test]
fn two_tokens_that_end_alike_look_alike() {
    assert_eq!(
        credentials("emt_one_tail").fingerprint(),
        credentials("emt_another_tail").fingerprint()
    );
    assert_eq!(credentials("abc").fingerprint(), "…abc");
    assert_eq!(credentials("").fingerprint(), "…");
}

#[test]
fn home_is_the_platform_or_else_the_gateway() {
    let mut c = credentials("emt_x");
    assert_eq!(c.home(), "https://agent.example.invalid");
    c.workspace_url = Some("https://app.example.invalid".to_owned());
    assert_eq!(c.home(), "https://app.example.invalid");
    assert_eq!(c.header(), "Bearer emt_x");
}

#[test]
fn the_directory_that_was_named_goes_first() {
    let some = |s: &str| Some(s.to_owned());
    let path = |a, b, c| FileStore::discover(a, b, c).unwrap().path;
    assert_eq!(
        path(some("/k"), some("/x"), some("/h")),
        "/k/credentials.json"
    );
    assert_eq!(
        path(None, some("/x/"), some("/h")),
        "/x/kintri/credentials.json"
    );
    assert_eq!(
        path(None, None, some("/h")),
        "/h/.config/kintri/credentials.json"
    );
    assert_eq!(
        FileStore::discover(None, None, None).unwrap_err(),
        Failure::new("neither HOME nor XDG_CONFIG_HOME is set")
    );
}

#[test]
fn the_directory_holds_the_file() {
    let dir = |d: &str| {
        FileStore::discover(Some(d.to_owned()), None, None)
            .unwrap()
            .dir()
            .to_owned()
    };
    assert_eq!(dir("/home/x/.config/kintri"), "/home/x/.config/kintri");
    assert_eq!(dir("/home/x/"), "/home/x");
    assert_eq!(dir("/"), "/");
    assert_eq!(dir(""), "");
}

#[test]
fn the_file_is_written_beside_its_place_and_moved_there() {
    let store = FileStore {
        path: "/c/credentials.json".to_owned(),
    };
    let plan = store.save_plan();
    let said: Vec<String> = plan.iter().map(|s| format!("{s:?}")).collect();
    assert_eq!(
        said,
        vec![
            "CreateDirectory(\"/c\")",
            "Restrict(\"/c\", 448)",
            "Create(\"/c/credentials.json.tmp\")",
            "Restrict(\"/c/credentials.json.tmp\", 384)",
            "Write(\"/c/credentials.json.tmp\")",
            "Sync(\"/c/credentials.json.tmp\")",
            "Rename(\"/c/credentials.json.tmp\", \"/c/credentials.json\")",
            "Restrict(\"/c/credentials.json\", 384)",
        ]
    );
}

#[test]
fn each_step_says_what_it_could_not_do() {
    let fail = |step: FileStep| step.failure("denied").full();
    assert_eq!(
        fail(FileStep::CreateDirectory("/c".to_owned())),
        "create config directory: denied"
    );
    assert_eq!(
        fail(FileStep::Restrict("/c".to_owned(), 0o700)),
        "set permissions on /c: denied"
    );
    assert_eq!(
        fail(FileStep::Create("t".to_owned())),
        "create credentials file: denied"
    );
    assert_eq!(
        fail(FileStep::Write("t".to_owned())),
        "write credentials: denied"
    );
    assert_eq!(
        fail(FileStep::Sync("t".to_owned())),
        "flush credentials: denied"
    );
    assert_eq!(
        fail(FileStep::Rename("t".to_owned(), "f".to_owned())),
        "install credentials: denied"
    );
}

#[test]
fn a_missing_file_is_nobody_logged_in() {
    assert!(FileStore::loaded(ReadOutcome::Missing).unwrap().is_none());
    let held = FileStore::loaded(ReadOutcome::Held(credentials("emt_x")));
    assert_eq!(held.unwrap().unwrap().token, "emt_x");
    assert_eq!(
        FileStore::loaded(ReadOutcome::Malformed("eof".to_owned()))
            .unwrap_err()
            .full(),
        "credentials file is not valid JSON: eof"
    );
    assert_eq!(
        FileStore::loaded(ReadOutcome::Unreadable("denied".to_owned()))
            .unwrap_err()
            .full(),
        "read credentials: denied"
    );
}

#[test]
fn logging_out_twice_is_not_an_error() {
    assert!(FileStore::cleared(RemoveOutcome::Removed).is_ok());
    assert!(FileStore::cleared(RemoveOutcome::Missing).is_ok());
    assert_eq!(
        FileStore::cleared(RemoveOutcome::Failed("denied".to_owned()))
            .unwrap_err()
            .full(),
        "remove credentials: denied"
    );
}

#[test]
fn a_token_travels_encrypted_or_stays_on_the_machine() {
    for (raw, url) in [
        (" https://app.kintri.ai// ", "https://app.kintri.ai"),
        ("http://localhost", "http://localhost"),
        ("http://localhost:3000/x", "http://localhost:3000/x"),
        ("http://127.0.0.1:8080", "http://127.0.0.1:8080"),
        ("http://[::1]:9", "http://[::1]:9"),
    ] {
        assert_eq!(normalize_url(raw).unwrap(), url);
    }
    for raw in [
        "http://app.kintri.ai",
        "app.kintri.ai",
        "",
        "http://localhost.example.com",
        "http://127.0.0.1.example.com",
        "http://localhost:80@example.com",
        "http://127.0.0.1@example.com",
    ] {
        assert_eq!(
            normalize_url(raw).unwrap_err().full(),
            format!("the URL must be https:// (http:// is allowed for localhost only): {raw}")
        );
    }
}

#[test]
fn a_pasted_token_goes_to_the_gateway_that_was_named() {
    let c = login_with_token(
        "https://app.kintri.ai/",
        "emt_x".to_owned(),
        Some("https://agent.kintri.ai".to_owned()),
    )
    .unwrap();
    assert_eq!(c.gateway_url, "https://agent.kintri.ai");
    assert_eq!(c.workspace_url.as_deref(), Some("https://app.kintri.ai"));
    assert_eq!(c.workspace, None);

    let c = login_with_token("https://agent.kintri.ai", "emt_x".to_owned(), None).unwrap();
    assert_eq!(c.gateway_url, "https://agent.kintri.ai");
    assert_eq!(c.workspace_url, None);
}

#[test]
fn what_is_no_token_is_not_saved() {
    assert_eq!(
        login_with_token("https://a.b", "xyz".to_owned(), None).unwrap_err(),
        Failure::new(NOT_A_TOKEN)
    );
    assert!(login_with_token("http://a.b", "emt_x".to_owned(), None).is_err());
    assert!(login_with_token(
        "https://a.b",
        "emt_x".to_owned(),
        Some("http://a.b".to_owned())
    )
    .is_err());
    assert_eq!(
        login_granted("https://a.b", granted(Some("https://g.b"), "xyz"), None).unwrap_err(),
        Failure::new(NOT_A_TOKEN)
    );
}

#[test]
fn the_published_gateway_goes_before_the_given_one() {
    let given = || Some("https://given.b".to_owned());
    let c = login_granted("https://a.b", granted(Some("https://g.b/"), "emt_x"), given()).unwrap();
    assert_eq!(c.gateway_url, "https://g.b");
    assert_eq!(c.workspace_url.as_deref(), Some("https://a.b"));
    assert_eq!(c.workspace.as_deref(), Some("Klik"));
    let c = login_granted("https://a.b", granted(None, "emt_x"), given()).unwrap();
    assert_eq!(c.gateway_url, "https://given.b");
    assert_eq!(
        login_granted("https://a.b", granted(None, "emt_x"), None).unwrap_err(),
        Failure::new(NO_GATEWAY)
    );
    assert!(login_granted("https://a.b", granted(Some("http://g.b"), "emt_x"), None).is_err());
}

#[test]
fn a_login_says_what_it_joined() {
    let mut c = credentials("emt_x");
    assert_eq!(
        login_text(&c, "/c"),
        "Logged in to https://agent.example.invalid.\nCredential saved to /c.\n"
    );
    c.workspace = Some("Klik".to_owned());
    assert_eq!(
        login_text(&c, "/c"),
        "Connected to Klik. This machine can now share with the team's other agents.\n\
         Credential saved to /c.\n"
    );
    assert_eq!(logout_text("/c"), "Logged out. The credential at /c is gone.\n");
}

struct Memory(Option<&'static str>);

impl Store for Memory {
    fn load(&self) -> Result<Option<Credentials>, Failure> {
        match self.0 {
            Some("broken") => Err(Failure::new("broken")),
            Some(token) => Ok(Some(credentials(token))),
            None => Ok(None),
        }
    }
    fn save(&self, _: &Credentials) -> Result<(), Failure> {
        Ok(())
    }
    fn clear(&self) -> Result<(), Failure> {
        Ok(())
    }
    fn describe(&self) -> String {
        "memory".to_owned()
    }
}

#[test]
fn a_login_is_required_of_whatever_keeps_it() {
    assert_eq!(require_login(&Memory(Some("emt_x"))).unwrap().token, "emt_x");
    assert_eq!(
        require_login(&Memory(None)).unwrap_err(),
        Failure::new(LOGGED_OUT)
    );
    assert_eq!(
        require_login(&Memory(Some("broken"))).unwrap_err(),
        Failure::new("broken")
    );
    assert!(logged_in(Ok(None)).is_err());
}

struct Shelf {
    kept: std::cell::RefCell<Vec<String>>,
    full: bool,
}

impl Store for Shelf {
    fn load(&self) -> Result<Option<Credentials>, Failure> {
        Ok(None)
    }
    fn save(&self, credentials: &Credentials) -> Result<(), Failure> {
        if self.full {
            return Err(Failure::new("full"));
        }
        self.kept.borrow_mut().push(credentials.token.clone());
        Ok(())
    }
    fn clear(&self) -> Result<(), Failure> {
        Ok(())
    }
    fn describe(&self) -> String {
        "the shelf".to_owned()
    }
}

#[test]
fn a_credential_is_proven_before_it_is_kept() {
    let shelf = |full: bool| Shelf {
        kept: std::cell::RefCell::new(Vec::new()),
        full,
    };
    let refused = || Err(Failure::because("GET /v1/sessions", "401 Unauthorized"));
    let sentence = "the gateway did not accept this credential: GET /v1/sessions: 401 Unauthorized";

    assert_eq!(login_asked(credentials("emt_x"), Ok(3)).unwrap().token, "emt_x");
    assert_eq!(
        login_asked(credentials("emt_x"), refused()).unwrap_err().full(),
        sentence
    );

    let empty = shelf(false);
    assert_eq!(
        keep_login(&empty, credentials("emt_x"), refused()).unwrap_err().full(),
        sentence
    );
    assert!(empty.kept.borrow().is_empty());
    assert_eq!(
        keep_login(&empty, credentials("emt_x"), Ok(0)).unwrap(),
        "Logged in to https://agent.example.invalid.\nCredential saved to the shelf.\n"
    );
    assert_eq!(*empty.kept.borrow(), vec!["emt_x"]);
    assert_eq!(
        keep_login(&shelf(true), credentials("emt_x"), Ok(0)).unwrap_err(),
        Failure::new("full")
    );
}
