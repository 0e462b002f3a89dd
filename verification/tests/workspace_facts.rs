use kintri::workspace::{git_arguments, inspect, parse_remote, GitOutput, GitQuestion};

fn printed(text: &str) -> Option<GitOutput> {
    Some(GitOutput {
        success: true,
        stdout: text.as_bytes().to_vec(),
    })
}

#[test]
fn every_remote_shape_yields_owner_and_name() {
    for remote in [
        "git@github.com:Klik/Nova-API.git",
        "https://github.com/klik/nova-api",
        "https://github.com/klik/nova-api.git",
        "ssh://git@github.com/klik/nova-api.git",
        "git@github.com:klik/nova-api",
    ] {
        assert_eq!(
            parse_remote(remote).as_deref(),
            Some("klik/nova-api"),
            "{remote}"
        );
    }
}

#[test]
fn a_remote_that_names_no_owner_is_no_answer() {
    assert_eq!(parse_remote(""), None);
    assert_eq!(parse_remote("nova-api"), None);
    assert_eq!(parse_remote("https://example.invalid/"), None);
}

#[test]
fn a_port_and_a_deeper_path_are_no_obstacle() {
    assert_eq!(
        parse_remote("https://git.example.com:8443/Team/Nova/").as_deref(),
        Some("team/nova")
    );
    assert_eq!(
        parse_remote("git@gitlab.com:group/sub/nova.git").as_deref(),
        Some("sub/nova")
    );
    assert_eq!(
        parse_remote("https://x.cz/Čeněk/Řeka").as_deref(),
        Some("čeněk/řeka")
    );
    assert_eq!(
        parse_remote("https://x.cz/ČENĚK/A\u{212a}B").as_deref(),
        Some("čeněk/akb")
    );
}

#[test]
fn a_checkout_is_what_git_says() {
    let checkout = inspect(
        printed("main\n"),
        printed("git@github.com:Klik/Nova-API.git\n"),
        printed("dev@klik.cz\n"),
    );
    assert_eq!(checkout.branch.as_deref(), Some("main"));
    assert_eq!(checkout.repository.as_deref(), Some("klik/nova-api"));
    assert_eq!(checkout.project.as_deref(), Some("nova-api"));
    assert_eq!(checkout.email.as_deref(), Some("dev@klik.cz"));
}

#[test]
fn outside_a_repository_there_is_nothing_to_say() {
    let failed = Some(GitOutput {
        success: false,
        stdout: b"main".to_vec(),
    });
    let checkout = inspect(failed, None, printed("  \n"));
    assert_eq!(checkout.branch, None);
    assert_eq!(checkout.repository, None);
    assert_eq!(checkout.project, None);
    assert_eq!(checkout.email, None);
}

#[test]
fn a_detached_head_is_no_branch() {
    assert_eq!(inspect(printed("HEAD\n"), None, None).branch, None);
    let garbled = Some(GitOutput {
        success: true,
        stdout: vec![0xff],
    });
    assert_eq!(inspect(garbled, None, None).branch, None);
}

#[test]
fn git_is_asked_about_the_directory() {
    assert_eq!(
        git_arguments("/a", GitQuestion::Branch),
        vec!["-C", "/a", "rev-parse", "--abbrev-ref", "HEAD"]
    );
    assert_eq!(
        git_arguments("/a", GitQuestion::Remote),
        vec!["-C", "/a", "remote", "get-url", "origin"]
    );
    assert_eq!(
        git_arguments("/a", GitQuestion::Email),
        vec!["-C", "/a", "config", "--get", "user.email"]
    );
}
