//! `kintri login`: the browser flow for native applications.
//!
//! The browser opens a page that names a port on this machine, and comes back
//! to it with a code. Two things keep that safe on a machine where any process
//! can open a socket. The code is bound to a verifier that this process made up
//! and never sent (PKCE), so whatever intercepts the code cannot redeem it. And
//! a callback counts only when it carries the state of the login that this
//! process started: a stray probe is answered and ignored.
use vstd::prelude::*;
use vstd::string::*;
use vstd::utf8::*;

use base64::Engine;
use rand::RngCore;
use sha2::Digest;

use crate::http;
use crate::json::{Json, JsonView};
use crate::text;
use crate::url;

verus! {

/// How long the person has to approve before the login is given up, in
/// seconds.
pub const APPROVAL_TIMEOUT_SECS: u64 = 300;

/// What the token endpoint hands back.
#[derive(Debug)]
pub struct Granted {
    /// The workspace token, which reaches the agent network and nothing else.
    pub token: String,
    /// Where this platform's gateway answers. `None` when the operator has not
    /// published one.
    pub gateway_url: Option<String>,
    /// The workspace's name.
    pub workspace: String,
}

// ---------------------------------------------------------------------------
// PKCE
// ---------------------------------------------------------------------------

/// The 64 characters of URL-safe base64.
pub open spec fn base64_char(n: int) -> char {
    if n < 26 {
        (65 + n) as char
    } else if n < 52 {
        (71 + n) as char
    } else if n < 62 {
        (n - 4) as char
    } else if n == 62 {
        '-'
    } else {
        '_'
    }
}

/// The byte at `i`, or zero behind the end.
pub open spec fn byte_at(bytes: Seq<u8>, i: int) -> int {
    if 0 <= i < bytes.len() {
        bytes[i] as int
    } else {
        0
    }
}

/// The six bits from bit `6 * i` on, the most significant first.
pub open spec fn sextet(bytes: Seq<u8>, i: int) -> int {
    let j = 3 * (i / 4);
    if i % 4 == 0 {
        byte_at(bytes, j) / 4
    } else if i % 4 == 1 {
        (byte_at(bytes, j) % 4) * 16 + byte_at(bytes, j + 1) / 16
    } else if i % 4 == 2 {
        (byte_at(bytes, j + 1) % 16) * 4 + byte_at(bytes, j + 2) / 64
    } else {
        byte_at(bytes, j + 2) % 64
    }
}

/// How many characters of base64 bytes take, without padding.
pub open spec fn base64_len(n: nat) -> nat {
    (8 * n + 5) / 6
}

/// Bytes in URL-safe base64, without padding.
pub open spec fn base64_text(bytes: Seq<u8>) -> Seq<char> {
    Seq::new(base64_len(bytes.len()), |i: int| base64_char(sextet(bytes, i)))
}

/// A letter, a digit, `-` or `_`.
pub open spec fn base64_alphabet(c: char) -> bool {
    ||| 'A' <= c <= 'Z'
    ||| 'a' <= c <= 'z'
    ||| '0' <= c <= '9'
    ||| c == '-'
    ||| c == '_'
}

/// The SHA-256 digest of bytes.
pub uninterp spec fn sha256(bytes: Seq<u8>) -> Seq<u8>;

/// The challenge that the authorization page is sent for a verifier.
pub open spec fn challenge_of(verifier: Seq<char>) -> Seq<char> {
    base64_text(sha256(encode_utf8(verifier)))
}

/// `base64::Engine::encode` of `URL_SAFE_NO_PAD`: each six bits become one
/// character of the URL-safe alphabet, the last ones filled up with zeros, and
/// no padding follows. It panics where the text would not fit in memory.
#[verifier::external_body]
fn base64_encode(bytes: &[u8]) -> (r: String)
    requires
        base64_len(bytes@.len()) <= isize::MAX,
    ensures
        r@ == base64_text(bytes@),
{
    base64::engine::general_purpose::URL_SAFE_NO_PAD.encode(bytes)
}

/// `sha2::Sha256::digest`: 32 bytes that depend on the input alone.
#[verifier::external_body]
fn sha256_digest(bytes: &[u8]) -> (r: Vec<u8>)
    ensures
        r@ == sha256(bytes@),
        r@.len() == 32,
{
    sha2::Sha256::digest(bytes).to_vec()
}

/// `rand::RngCore::fill_bytes` of the thread's generator, over `count` bytes.
/// Which bytes they are is up to chance.
#[verifier::external_body]
fn random_bytes(count: usize) -> (r: Vec<u8>)
    requires
        count <= isize::MAX,
    ensures
        r@.len() == count,
{
    let mut buffer = vec![0u8; count];
    rand::rng().fill_bytes(&mut buffer);
    buffer
}

/// Base64 is made of letters, digits, `-` and `_`, four characters for three
/// bytes.
pub proof fn lemma_base64_alphabet(bytes: Seq<u8>)
    ensures
        base64_text(bytes).len() == base64_len(bytes.len()),
        forall|i: int|
            0 <= i < base64_text(bytes).len() ==> base64_alphabet(#[trigger] base64_text(bytes)[i]),
{
    assert forall|i: int| 0 <= i < base64_text(bytes).len() implies base64_alphabet(
        #[trigger] base64_text(bytes)[i],
    ) by {
        let j = 3 * (i / 4);
        assert(0 <= byte_at(bytes, j) < 256);
        assert(0 <= byte_at(bytes, j + 1) < 256);
        assert(0 <= byte_at(bytes, j + 2) < 256);
        assert(0 <= sextet(bytes, i) < 64);
    }
}

/// So many bytes were drawn from the generator, and this is their base64.
pub closed spec fn drawn(count: usize, s: Seq<char>) -> bool {
    exists|bytes: Vec<u8>| #[trigger]
        call_ensures(random_bytes, (count,), bytes) && s == base64_text(bytes@)
}

/// Random bytes in base64: what a verifier and a state are made of.
pub fn random_base64(bytes: usize) -> (r: String)
    requires
        base64_len(bytes as nat) <= isize::MAX,
    ensures
        drawn(bytes, r@),
        r@.len() == base64_len(bytes as nat),
        forall|i: int| 0 <= i < r@.len() ==> base64_alphabet(#[trigger] r@[i]),
{
    let buffer = random_bytes(bytes);
    proof {
        lemma_base64_alphabet(buffer@);
    }
    base64_encode(buffer.as_slice())
}

/// The challenge for a verifier: what the server recomputes from it.
pub fn challenge(verifier: &str) -> (r: String)
    ensures
        r@ == challenge_of(verifier@),
        r@.len() == 43,
        forall|i: int| 0 <= i < r@.len() ==> base64_alphabet(#[trigger] r@[i]),
{
    let digest = sha256_digest(verifier.as_bytes());
    proof {
        lemma_base64_alphabet(digest@);
    }
    base64_encode(digest.as_slice())
}

// ---------------------------------------------------------------------------
// The way out: what the browser opens
// ---------------------------------------------------------------------------

/// A login that waits for the browser.
pub struct Login {
    /// The platform, without a slash at its end.
    pub base: String,
    /// Where the browser comes back to.
    pub redirect_uri: String,
    /// What the code is bound to. Sent to the token endpoint and nowhere else.
    pub verifier: String,
    /// What the callback has to carry.
    pub state: String,
    /// The page to open.
    pub authorize: String,
}

/// A login, mathematically.
pub struct LoginView {
    pub base: Seq<char>,
    pub redirect_uri: Seq<char>,
    pub verifier: Seq<char>,
    pub state: Seq<char>,
    pub authorize: Seq<char>,
}

impl View for Login {
    type V = LoginView;

    open spec fn view(&self) -> LoginView {
        LoginView {
            base: self.base@,
            redirect_uri: self.redirect_uri@,
            verifier: self.verifier@,
            state: self.state@,
            authorize: self.authorize@,
        }
    }
}

/// The loopback address of the listener.
pub open spec fn redirect_of(port: u16) -> Seq<char> {
    "http://127.0.0.1:"@ + text::decimal(port as nat) + "/callback"@
}

/// The page that asks the person to approve this machine.
pub open spec fn authorize_url(
    base: Seq<char>,
    redirect_uri: Seq<char>,
    verifier: Seq<char>,
    state: Seq<char>,
    name: Seq<char>,
) -> Seq<char> {
    base + "/cli/authorize?code_challenge="@ + url::encoded(challenge_of(verifier))
        + "&code_challenge_method=S256&redirect_uri="@ + url::encoded(redirect_uri) + "&state="@
        + url::encoded(state) + "&name="@ + url::encoded(name)
}

/// The page that is opened knows the challenge and not the verifier: for two
/// verifiers of one challenge it is the same.
pub proof fn the_page_knows_the_challenge_alone(
    base: Seq<char>,
    redirect_uri: Seq<char>,
    one: Seq<char>,
    other: Seq<char>,
    state: Seq<char>,
    name: Seq<char>,
)
    requires
        challenge_of(one) == challenge_of(other),
    ensures
        authorize_url(base, redirect_uri, one, state, name) == authorize_url(
            base,
            redirect_uri,
            other,
            state,
            name,
        ),
{
}

/// The login against `base` that listens on `port`, for a verifier and a
/// state.
pub open spec fn login_of(
    base: Seq<char>,
    port: u16,
    name: Seq<char>,
    verifier: Seq<char>,
    state: Seq<char>,
) -> LoginView {
    let base = text::without_trailing(base, '/');
    LoginView {
        base,
        redirect_uri: redirect_of(port),
        verifier,
        state,
        authorize: authorize_url(base, redirect_of(port), verifier, state, name),
    }
}

/// The login against `base` that listens on `port`, for a verifier and a state
/// that are already there.
pub fn login_with(
    base: &str,
    port: u16,
    client_name: &str,
    verifier: String,
    state: String,
) -> (r: Login)
    ensures
        r@ == login_of(base@, port, client_name@, verifier@, state@),
{
    let base: String = text::trim_end_of(base, '/').to_owned();
    let mut redirect_uri: String = "http://127.0.0.1:".to_owned();
    redirect_uri.append(text::number(port as u64).as_str());
    redirect_uri.append("/callback");
    let mut authorize: String = base.clone();
    authorize.append("/cli/authorize?code_challenge=");
    authorize.append(url::urlencode(challenge(verifier.as_str()).as_str()).as_str());
    authorize.append("&code_challenge_method=S256&redirect_uri=");
    authorize.append(url::urlencode(redirect_uri.as_str()).as_str());
    authorize.append("&state=");
    authorize.append(url::urlencode(state.as_str()).as_str());
    authorize.append("&name=");
    authorize.append(url::urlencode(client_name).as_str());
    Login { base, redirect_uri, verifier, state, authorize }
}

/// Start a login against `base`, the webapp, with a listener on `port`: a
/// fresh verifier, a fresh state, and the page to open for them.
pub fn browser_login(base: &str, port: u16, client_name: &str) -> (r: Login)
    ensures
        r@ == login_of(base@, port, client_name@, r@.verifier, r@.state),
        drawn(32, r@.verifier),
        drawn(16, r@.state),
        r@.verifier.len() == 43,
        r@.state.len() == 22,
        forall|i: int| 0 <= i < 43 ==> base64_alphabet(#[trigger] r@.verifier[i]),
        forall|i: int| 0 <= i < 22 ==> base64_alphabet(#[trigger] r@.state[i]),
{
    let verifier = random_base64(32);
    let state = random_base64(16);
    login_with(base, port, client_name, verifier, state)
}

// ---------------------------------------------------------------------------
// The way back: what the browser brings
// ---------------------------------------------------------------------------

/// What stands in front of the first line feed.
pub open spec fn first_line(s: Seq<char>) -> Seq<char> {
    match text::cut_first(s, '\n') {
        Some((line, _)) => line,
        None => s,
    }
}

/// How many characters stand in front of the first whitespace.
pub open spec fn word_len(s: Seq<char>) -> nat
    decreases s.len(),
{
    if s.len() == 0 || text::whitespace(s[0]) {
        0
    } else {
        1 + word_len(s.drop_first())
    }
}

/// The first word of `s`, and what stands behind it.
pub open spec fn first_word(s: Seq<char>) -> (Seq<char>, Seq<char>) {
    let t = text::trimmed_start(s);
    (t.take(word_len(t) as int), t.skip(word_len(t) as int))
}

/// The target of a request line that asks for something with `GET`.
pub open spec fn target_of(bytes: Seq<u8>) -> Option<Seq<char>> {
    let line = first_line(text::decoded(bytes));
    let (method, rest) = first_word(line);
    let (target, _) = first_word(rest);
    if method == "GET"@ && target.len() > 0 {
        Some(target)
    } else {
        None
    }
}

/// What the last of `pairs` called `key` stands for.
pub open spec fn parameter(pairs: Seq<Seq<char>>, key: Seq<char>) -> Option<Seq<char>>
    decreases pairs.len(),
{
    if pairs.len() == 0 {
        None
    } else {
        match text::cut_first(pairs.last(), '=') {
            Some((name, value)) => if name == key {
                Some(url::decoded(value))
            } else {
                parameter(pairs.drop_last(), key)
            },
            None => parameter(pairs.drop_last(), key),
        }
    }
}

/// The path of a target.
pub open spec fn path_of(target: Seq<char>) -> Seq<char> {
    match text::cut_first(target, '?') {
        Some((path, _)) => path,
        None => target,
    }
}

/// The pairs of a target's query.
pub open spec fn pairs_of(target: Seq<char>) -> Seq<Seq<char>> {
    match text::cut_first(target, '?') {
        Some((_, query)) => text::pieces(query, '&'),
        None => text::pieces(Seq::empty(), '&'),
    }
}

/// What a request to the listener turned out to be.
#[derive(Debug, PartialEq, Eq)]
pub enum Callback {
    /// Not the callback.
    Elsewhere,
    /// The callback of a login that this process did not start.
    Foreign,
    /// The callback, with the code.
    Approved(String),
    /// The callback, without a code.
    Refused,
}

/// A callback, mathematically.
pub enum CallbackView {
    Elsewhere,
    Foreign,
    Approved(Seq<char>),
    Refused,
}

impl View for Callback {
    type V = CallbackView;

    open spec fn view(&self) -> CallbackView {
        match self {
            Callback::Elsewhere => CallbackView::Elsewhere,
            Callback::Foreign => CallbackView::Foreign,
            Callback::Approved(code) => CallbackView::Approved(code@),
            Callback::Refused => CallbackView::Refused,
        }
    }
}

/// What a request for `target` is to the login whose state is `expected`.
pub open spec fn callback_of(target: Seq<char>, expected: Seq<char>) -> CallbackView {
    let pairs = pairs_of(target);
    if path_of(target) != "/callback"@ {
        CallbackView::Elsewhere
    } else if parameter(pairs, "state"@) != Some(expected) {
        CallbackView::Foreign
    } else {
        match parameter(pairs, "code"@) {
            Some(code) => if code.len() > 0 {
                CallbackView::Approved(code)
            } else {
                CallbackView::Refused
            },
            None => CallbackView::Refused,
        }
    }
}

/// What a request is to the login whose state is `expected`, given the bytes
/// that were read of it. One that asks for nothing with `GET` is not the
/// callback.
pub open spec fn received_of(bytes: Seq<u8>, expected: Seq<char>) -> CallbackView {
    match target_of(bytes) {
        Some(target) => callback_of(target, expected),
        None => CallbackView::Elsewhere,
    }
}

/// The first word of a text, and what stands behind it.
fn split_word(s: &str) -> (r: (&str, &str))
    ensures
        (r.0@, r.1@) == first_word(s@),
{
    let v = text::chars(s);
    let n = v.len();
    let mut start: usize = 0;
    assert(s@.skip(0) =~= s@);
    while start < n && text::is_whitespace(v[start])
        invariant
            start <= n,
            n == v@.len(),
            v@ == s@,
            text::trimmed_start(s@) == text::trimmed_start(s@.skip(start as int)),
        decreases n - start,
    {
        assert(s@.skip(start as int).drop_first() =~= s@.skip(start + 1));
        start = start + 1;
    }
    let ghost t = s@.skip(start as int);
    let mut end: usize = start;
    while end < n && !text::is_whitespace(v[end])
        invariant
            start <= end <= n,
            n == v@.len(),
            v@ == s@,
            t == s@.skip(start as int),
            word_len(t) == (end - start) + word_len(s@.skip(end as int)),
        decreases n - end,
    {
        assert(s@.skip(end as int).drop_first() =~= s@.skip(end + 1));
        end = end + 1;
    }
    assert(t.take(end - start) =~= s@.subrange(start as int, end as int));
    assert(t.skip(end - start) =~= s@.subrange(end as int, n as int));
    (s.substring_char(start, end), s.substring_char(end, n))
}

/// Read the target off the first line of a request, given what was read of
/// it. `None` is a request to pass over: nothing was sent, or it was not a
/// `GET`.
pub fn read_request_target(bytes: &[u8]) -> (r: Option<String>)
    ensures
        text::optional(r) == target_of(bytes@),
{
    let received = text::utf8_lossy(bytes);
    let line = match text::split_once(received.as_str(), '\n') {
        Some((line, _)) => line,
        None => received.as_str(),
    };
    let (method, rest) = split_word(line);
    let (target, _) = split_word(rest);
    if text::same(method, "GET") && target.unicode_len() > 0 {
        Some(target.to_owned())
    } else {
        None
    }
}

/// What a request for `target` is to the login whose state is
/// `expected_state`.
pub fn wait_for_callback(target: &str, expected_state: &str) -> (r: Callback)
    ensures
        r@ == callback_of(target@, expected_state@),
{
    let (path, query) = match text::split_once(target, '?') {
        Some((path, query)) => (path, query),
        None => (target, ""),
    };
    proof {
        reveal_strlit("");
        assert(""@ =~= Seq::empty());
    }
    if !text::same(path, "/callback") {
        return Callback::Elsewhere;
    }
    let pairs = text::split(query, '&');
    let ghost all = text::texts(pairs@);
    let mut code: Option<String> = None;
    let mut state: Option<String> = None;
    let mut i: usize = 0;
    while i < pairs.len()
        invariant
            i <= pairs@.len(),
            all == text::texts(pairs@),
            text::optional(code) == parameter(all.take(i as int), "code"@),
            text::optional(state) == parameter(all.take(i as int), "state"@),
        decreases pairs@.len() - i,
    {
        let ghost next = all.take(i + 1);
        assert(next.drop_last() =~= all.take(i as int));
        assert(next.last() == pairs@[i as int]@);
        proof {
            reveal_strlit("code");
            reveal_strlit("state");
            assert("code"@.len() != "state"@.len());
        }
        match text::split_once(pairs[i].as_str(), '=') {
            Some((name, value)) => {
                if text::same(name, "code") {
                    code = Some(url::urldecode(value));
                } else if text::same(name, "state") {
                    state = Some(url::urldecode(value));
                }
            },
            None => {},
        }
        i = i + 1;
    }
    assert(all.take(i as int) =~= all);
    let ours = match &state {
        Some(state) => text::same(state.as_str(), expected_state),
        None => false,
    };
    if !ours {
        return Callback::Foreign;
    }
    match code {
        Some(code) => if code.as_str().unicode_len() > 0 {
            Callback::Approved(code)
        } else {
            Callback::Refused
        },
        None => Callback::Refused,
    }
}

/// What a request is to the login whose state is `expected_state`, given the
/// bytes that were read of it: none, when it could not be read.
pub fn receive(bytes: &[u8], expected_state: &str) -> (r: Callback)
    ensures
        r@ == received_of(bytes@, expected_state@),
{
    match read_request_target(bytes) {
        Some(target) => wait_for_callback(target.as_str(), expected_state),
        None => Callback::Elsewhere,
    }
}

/// Whether a callback ends the wait for the browser.
pub open spec fn ends_the_wait(callback: CallbackView) -> bool {
    callback is Approved || callback is Refused
}

/// The page that the browser shows for a callback.
pub open spec fn page(message: Seq<char>) -> Seq<char> {
    "<!doctype html><meta charset=\"utf-8\"><title>kintri</title><body style=\"font:16px system-ui;margin:4rem auto;max-width:32rem\"><p>"@
        + message + "</p></body>"@
}

/// An answer with that page, as it goes over the wire. The length is that of
/// the page in bytes.
pub open spec fn response_text(status: Seq<char>, message: Seq<char>) -> Seq<char> {
    "HTTP/1.1 "@ + status + "\r\ncontent-type: text/html; charset=utf-8\r\ncontent-length: "@
        + text::decimal(encode_utf8(page(message)).len()) + "\r\nconnection: close\r\n\r\n"@ + page(
        message,
    )
}

/// What the browser is answered.
pub fn respond(status: &str, message: &str) -> (r: String)
    ensures
        r@ == response_text(status@, message@),
{
    let mut body: String =
        "<!doctype html><meta charset=\"utf-8\"><title>kintri</title><body style=\"font:16px system-ui;margin:4rem auto;max-width:32rem\"><p>".to_owned();
    body.append(message);
    body.append("</p></body>");
    let mut out: String = "HTTP/1.1 ".to_owned();
    out.append(status);
    out.append("\r\ncontent-type: text/html; charset=utf-8\r\ncontent-length: ");
    out.append(text::number(body.as_str().as_bytes().len() as u64).as_str());
    out.append("\r\nconnection: close\r\n\r\n");
    out.append(body.as_str());
    out
}

impl CallbackView {
    /// The status that a request is answered with.
    pub open spec fn status(self) -> Seq<char> {
        match self {
            CallbackView::Elsewhere | CallbackView::Foreign => "404 Not Found"@,
            CallbackView::Approved(_) => "200 OK"@,
            CallbackView::Refused => "400 Bad Request"@,
        }
    }

    /// The sentence that a request is answered with.
    pub open spec fn message(self) -> Seq<char> {
        match self {
            CallbackView::Elsewhere => "Not this port."@,
            CallbackView::Foreign =>
                "This callback does not belong to the login this machine started."@,
            CallbackView::Approved(_) =>
                "Approved. You can close this tab and go back to your terminal."@,
            CallbackView::Refused => "No authorization code was returned."@,
        }
    }
}

impl Callback {
    /// What the browser is answered.
    pub fn answer(&self) -> (r: String)
        ensures
            r@ == response_text(self@.status(), self@.message()),
    {
        match self {
            Callback::Elsewhere => respond("404 Not Found", "Not this port."),
            Callback::Foreign => respond(
                "404 Not Found",
                "This callback does not belong to the login this machine started.",
            ),
            Callback::Approved(_) => respond(
                "200 OK",
                "Approved. You can close this tab and go back to your terminal.",
            ),
            Callback::Refused => respond("400 Bad Request", "No authorization code was returned."),
        }
    }

    /// How the wait for the browser ends: with the code, with a sentence, or
    /// not yet.
    pub fn outcome(self) -> (r: Option<Result<String, String>>)
        ensures
            r is Some <==> ends_the_wait(self@),
            self@ matches CallbackView::Approved(code) ==> r->0 is Ok && r->0->Ok_0@ == code,
            self@ is Refused ==> r->0 is Err && r->0->Err_0@
                == "the browser came back without an authorization code"@,
    {
        match self {
            Callback::Approved(code) => Some(Ok(code)),
            Callback::Refused => Some(
                Err("the browser came back without an authorization code".to_owned()),
            ),
            _ => None,
        }
    }
}

/// The callback that the platform sends the browser to, for a code and the
/// state of a login.
pub open spec fn redirect_target(code: Seq<char>, state: Seq<char>) -> Seq<char> {
    "/callback"@ + seq!['?'] + ("code"@ + seq!['='] + url::encoded(code) + seq!['&'] + ("state"@
        + seq!['='] + url::encoded(state)))
}

/// The code that the platform hands out reaches the login it was handed out
/// to, whatever characters it is made of.
pub proof fn an_approval_arrives(code: Seq<char>, state: Seq<char>)
    requires
        code.len() > 0,
    ensures
        callback_of(redirect_target(code, state), state) == CallbackView::Approved(code),
{
    reveal_strlit("/callback");
    reveal_strlit("code");
    reveal_strlit("state");
    url::nothing_structural(code);
    url::nothing_structural(state);
    url::round_trip(code);
    url::round_trip(state);
    let first = "code"@ + seq!['='] + url::encoded(code);
    let second = "state"@ + seq!['='] + url::encoded(state);
    let query = first + seq!['&'] + second;
    assert forall|j: int| 0 <= j < first.len() implies first[j] != '&' by {
        if j > 4 {
            assert(first[j] == url::encoded(code)[j - 5]);
        }
    }
    assert forall|j: int| 0 <= j < second.len() implies second[j] != '&' by {
        if j > 5 {
            assert(second[j] == url::encoded(state)[j - 6]);
        }
    }
    text::lemma_cut_first("/callback"@, '?', query);
    text::lemma_two_pieces(first, '&', second);
    text::lemma_cut_first("code"@, '=', url::encoded(code));
    text::lemma_cut_first("state"@, '=', url::encoded(state));
    assert(path_of(redirect_target(code, state)) == "/callback"@);
    let pairs = pairs_of(redirect_target(code, state));
    assert(pairs == seq![first, second]);
    assert(pairs.drop_last() =~= seq![first]);
    assert(seq![first].drop_last() =~= Seq::empty());
    assert("code"@.len() != "state"@.len());
    assert(parameter(pairs, "state"@) == Some(state));
    assert(parameter(seq![first], "code"@) == Some(code));
    assert(parameter(pairs, "code"@) == Some(code));
}

/// A request is stray to the login whose state is `expected`: it could not be
/// read, it is no `GET`, it is for another path, or it comes without that
/// state.
pub open spec fn stray(bytes: Seq<u8>, expected: Seq<char>) -> bool {
    match target_of(bytes) {
        Some(target) => path_of(target) != "/callback"@ || parameter(pairs_of(target), "state"@)
            != Some(expected),
        None => true,
    }
}

/// A stray request cannot end a login: it is answered with a 404, and the wait
/// goes on.
pub proof fn a_stray_request_ends_nothing(bytes: Seq<u8>, expected: Seq<char>)
    requires
        stray(bytes, expected),
    ensures
        received_of(bytes, expected).status() == "404 Not Found"@,
        !ends_the_wait(received_of(bytes, expected)),
{
}

// ---------------------------------------------------------------------------
// The token
// ---------------------------------------------------------------------------

/// What the token endpoint is asked.
pub open spec fn token_body(code: Seq<char>, verifier: Seq<char>) -> JsonView {
    JsonView::object().entry("code"@, JsonView::Text(code)).entry(
        "codeVerifier"@,
        JsonView::Text(verifier),
    )
}

impl Login {
    /// Where the code is exchanged for a token.
    pub fn token_url(&self) -> (r: String)
        ensures
            r@ == self@.base + "/api/cli/token"@,
    {
        let mut out: String = self.base.clone();
        out.append("/api/cli/token");
        out
    }

    /// What the token endpoint is asked: the code, and what it is bound to.
    pub fn token_request(&self, code: &str) -> (r: Json)
        ensures
            r@ == token_body(code@, self@.verifier),
    {
        Json::object().entry("code", Json::text(code)).entry(
            "codeVerifier",
            Json::text(self.verifier.as_str()),
        )
    }

    /// What the person is told while the browser opens.
    pub fn instructions(&self) -> (r: String)
        ensures
            r@ == "Opening your browser to approve this machine.\nIf it does not open, paste this into a browser:\n\n  "@
                + self@.authorize + "\n"@,
    {
        let mut out: String =
            "Opening your browser to approve this machine.\nIf it does not open, paste this into a browser:\n\n  ".to_owned();
        out.append(self.authorize.as_str());
        out.append("\n");
        out
    }
}

/// What the person is told when the code was not accepted.
pub fn exchange_refused(status: u16) -> (r: String)
    ensures
        r@ == "the approval could not be exchanged for a token ("@ + http::status_line(status)
            + "). It may have expired or already been used; run `kintri login` again"@,
{
    let mut out: String = "the approval could not be exchanged for a token (".to_owned();
    out.append(http::status_text(status).as_str());
    out.append("). It may have expired or already been used; run `kintri login` again");
    out
}

/// What the person is told when nobody approved in time.
pub fn timed_out() -> (r: String)
    ensures
        r@ == "timed out after "@ + text::decimal(APPROVAL_TIMEOUT_SECS as nat / 60)
            + " minutes waiting for the browser. Run `kintri login` again"@,
{
    let mut out: String = "timed out after ".to_owned();
    out.append(text::number(APPROVAL_TIMEOUT_SECS / 60).as_str());
    out.append(" minutes waiting for the browser. Run `kintri login` again");
    out
}

// ---------------------------------------------------------------------------
// This machine
// ---------------------------------------------------------------------------

/// The name of the host: the environment's, or else what `hostname` printed.
pub open spec fn host_of(environment: Option<Seq<char>>, printed: Option<Seq<u8>>) -> Seq<char> {
    match (environment, printed) {
        (Some(name), _) => text::trimmed(name),
        (None, Some(bytes)) => if valid_utf8(bytes) {
            text::trimmed(decode_utf8(bytes))
        } else {
            Seq::empty()
        },
        (None, None) => Seq::empty(),
    }
}

/// What the approval page shows the person, so that they can tell their own
/// login from somebody else's. `environment` is `$HOSTNAME`; `printed` is what
/// the program `hostname` printed, for a machine that does not set it.
pub fn client_name(environment: Option<String>, printed: Option<Vec<u8>>) -> (r: String)
    ensures
        ({
            let host = host_of(
                text::optional(environment),
                match printed {
                    Some(bytes) => Some(bytes@),
                    None => None,
                },
            );
            r@ == if host.len() > 0 {
                "kintri on "@ + host
            } else {
                "kintri"@
            }
        }),
{
    let host: Option<String> = match environment {
        Some(name) => Some(name),
        None => match printed {
            Some(bytes) => text::utf8(bytes),
            None => None,
        },
    };
    match host {
        Some(name) => {
            let name = text::trim(name.as_str());
            if name.unicode_len() > 0 {
                let mut out: String = "kintri on ".to_owned();
                out.append(name);
                return out;
            }
        },
        None => {},
    }
    "kintri".to_owned()
}

/// A platform, as far as opening a browser goes.
#[derive(Debug, Clone, Copy, PartialEq, Eq, Structural)]
pub enum Platform {
    MacOs,
    Windows,
    Other,
}

/// The program that opens a browser, and what it is given before the URL.
pub open spec fn opener(platform: Platform) -> (Seq<char>, Seq<Seq<char>>) {
    match platform {
        Platform::MacOs => ("open"@, Seq::empty()),
        Platform::Windows => ("cmd"@, seq!["/C"@, "start"@, ""@]),
        Platform::Other => ("xdg-open"@, Seq::empty()),
    }
}

/// The program that opens a browser at `url`, and its arguments.
pub fn open_browser(platform: Platform, url: &str) -> (r: (String, Vec<String>))
    ensures
        r.0@ == opener(platform).0,
        text::texts(r.1@) == opener(platform).1.push(url@),
{
    let mut args: Vec<String> = Vec::new();
    let program = match platform {
        Platform::MacOs => "open".to_owned(),
        Platform::Windows => {
            args.push("/C".to_owned());
            args.push("start".to_owned());
            args.push("".to_owned());
            "cmd".to_owned()
        },
        Platform::Other => "xdg-open".to_owned(),
    };
    args.push(url.to_owned());
    assert(text::texts(args@) =~= opener(platform).1.push(url@));
    (program, args)
}

// ---------------------------------------------------------------------------
// What the browser is told, and what it brings
// ---------------------------------------------------------------------------

/// A name and a value, as they stand in a query.
pub open spec fn pair_of(name: Seq<char>, value: Seq<char>) -> Seq<char> {
    name + seq!['='] + url::encoded(value)
}

/// A name that can stand in a query as it is.
pub open spec fn query_name(name: Seq<char>) -> bool {
    forall|i: int| 0 <= i < name.len() ==> name[i] != '=' && name[i] != '&'
}

proof fn lemma_pair(
    pairs: Seq<Seq<char>>,
    name: Seq<char>,
    value: Seq<char>,
    key: Seq<char>,
)
    requires
        query_name(name),
    ensures
        parameter(pairs.push(pair_of(name, value)), key) == if name == key {
            Some(value)
        } else {
            parameter(pairs, key)
        },
        forall|j: int|
            0 <= j < pair_of(name, value).len() ==> pair_of(name, value)[j] != '&',
{
    let all = pairs.push(pair_of(name, value));
    assert(all.drop_last() =~= pairs);
    url::nothing_structural(value);
    url::round_trip(value);
    text::lemma_cut_first(name, '=', url::encoded(value));
    let p = pair_of(name, value);
    assert forall|j: int| 0 <= j < p.len() implies p[j] != '&' by {
        if j < name.len() {
            assert(p[j] == name[j]);
        } else if j > name.len() {
            assert(p[j] == url::encoded(value)[j - name.len() - 1]);
        }
    }
}

#[verifier::spinoff_prover]
proof fn lemma_address(
    base: Seq<char>,
    c: Seq<char>,
    u: Seq<char>,
    s: Seq<char>,
    n: Seq<char>,
)
    ensures
        base + "/cli/authorize?code_challenge="@ + c + "&code_challenge_method=S256&redirect_uri="@
            + u + "&state="@ + s + "&name="@ + n == base + "/cli/authorize"@ + seq!['?'] + (
        "code_challenge"@ + seq!['='] + c + seq!['&'] + ("code_challenge_method"@ + seq!['=']
            + "S256"@) + seq!['&'] + ("redirect_uri"@ + seq!['='] + u) + seq!['&'] + ("state"@
            + seq!['='] + s) + seq!['&'] + ("name"@ + seq!['='] + n)),
{
    reveal_strlit("/cli/authorize?code_challenge=");
    reveal_strlit("/cli/authorize");
    reveal_strlit("code_challenge");
    reveal_strlit("&code_challenge_method=S256&redirect_uri=");
    reveal_strlit("code_challenge_method");
    reveal_strlit("S256");
    reveal_strlit("redirect_uri");
    reveal_strlit("&state=");
    reveal_strlit("state");
    reveal_strlit("&name=");
    reveal_strlit("name");
    let amp = seq!['&'];
    let eq = seq!['='];
    let path = base + "/cli/authorize"@ + seq!['?'];
    let a = "code_challenge"@ + eq + c;
    let b = "code_challenge_method"@ + eq + "S256"@;
    let d = "redirect_uri"@ + eq + u;
    let e = "state"@ + eq + s;
    let f = "name"@ + eq + n;
    let one = base + "/cli/authorize?code_challenge="@ + c;
    assert(one =~= path + a);
    let two = one + "&code_challenge_method=S256&redirect_uri="@ + u;
    assert("&code_challenge_method=S256&redirect_uri="@ =~= amp + b + amp + "redirect_uri"@ + eq);
    assert(two =~= path + (a + amp + b + amp + d)) by {
        assert(amp + b + amp + ("redirect_uri"@ + eq) =~= amp + b + amp + "redirect_uri"@ + eq);
        lemma_behind(
            path,
            a,
            "&code_challenge_method=S256&redirect_uri="@,
            amp + b + amp,
            "redirect_uri"@ + eq,
            u,
        );
        assert(a + (amp + b + amp) + ("redirect_uri"@ + eq + u) =~= a + amp + b + amp + d);
    }
    let three = two + "&state="@ + s;
    assert(three =~= path + (a + amp + b + amp + d + amp + e)) by {
        assert("&state="@ =~= amp + ("state"@ + eq));
        lemma_behind(path, a + amp + b + amp + d, "&state="@, amp, "state"@ + eq, s);
    }
    let four = three + "&name="@ + n;
    assert(four =~= path + (a + amp + b + amp + d + amp + e + amp + f)) by {
        assert("&name="@ =~= amp + ("name"@ + eq));
        lemma_behind(path, a + amp + b + amp + d + amp + e, "&name="@, amp, "name"@ + eq, n);
    }
}

proof fn lemma_behind(
    path: Seq<char>,
    query: Seq<char>,
    between: Seq<char>,
    amp: Seq<char>,
    name: Seq<char>,
    value: Seq<char>,
)
    requires
        between == amp + name,
    ensures
        (path + query) + between + value == path + (query + amp + (name + value)),
{
    assert((path + query) + between + value =~= path + (query + amp + (name + value)));
}

#[verifier::spinoff_prover]
proof fn lemma_page(
    base: Seq<char>,
    redirect_uri: Seq<char>,
    verifier: Seq<char>,
    state: Seq<char>,
    name: Seq<char>,
)
    requires
        forall|i: int| 0 <= i < base.len() ==> base[i] != '?',
    ensures
        pairs_of(authorize_url(base, redirect_uri, verifier, state, name)) == seq![
            pair_of("code_challenge"@, challenge_of(verifier)),
            pair_of("code_challenge_method"@, "S256"@),
            pair_of("redirect_uri"@, redirect_uri),
            pair_of("state"@, state),
            pair_of("name"@, name),
        ],
        path_of(authorize_url(base, redirect_uri, verifier, state, name)) == base
            + "/cli/authorize"@,
{
    reveal_strlit("/cli/authorize?code_challenge=");
    reveal_strlit("/cli/authorize");
    reveal_strlit("code_challenge");
    reveal_strlit("&code_challenge_method=S256&redirect_uri=");
    reveal_strlit("code_challenge_method");
    reveal_strlit("S256");
    reveal_strlit("redirect_uri");
    reveal_strlit("&state=");
    reveal_strlit("state");
    reveal_strlit("&name=");
    reveal_strlit("name");
    let nothing = Seq::<Seq<char>>::empty();
    let a = pair_of("code_challenge"@, challenge_of(verifier));
    let b = pair_of("code_challenge_method"@, "S256"@);
    let c = pair_of("redirect_uri"@, redirect_uri);
    let d = pair_of("state"@, state);
    let e = pair_of("name"@, name);
    lemma_pair(nothing, "code_challenge"@, challenge_of(verifier), "state"@);
    lemma_pair(nothing, "code_challenge_method"@, "S256"@, "state"@);
    lemma_pair(nothing, "redirect_uri"@, redirect_uri, "state"@);
    lemma_pair(nothing, "state"@, state, "state"@);
    lemma_pair(nothing, "name"@, name, "state"@);
    url::a_plain_text_is_written_as_it_is("S256"@);
    let parts = seq![a, b, c, d, e];
    let amp = seq!['&'];
    lemma_five(a, b, c, d, e, amp);
    let query = a + amp + b + amp + c + amp + d + amp + e;
    assert forall|i: int, j: int|
        #![trigger parts[i][j]]
        0 <= i < parts.len() && 0 <= j < parts[i].len() implies parts[i][j] != '&' by {}
    text::what_was_joined_is_cut_again(parts, '&');
    let page = authorize_url(base, redirect_uri, verifier, state, name);
    let path = base + "/cli/authorize"@;
    lemma_address(
        base,
        url::encoded(challenge_of(verifier)),
        url::encoded(redirect_uri),
        url::encoded(state),
        url::encoded(name),
    );
    assert forall|j: int| 0 <= j < path.len() implies path[j] != '?' by {
        if j < base.len() {
            assert(path[j] == base[j]);
        } else {
            assert(path[j] == "/cli/authorize"@[j - base.len()]);
        }
    }
    text::lemma_cut_first(path, '?', query);
}

proof fn lemma_five(
    a: Seq<char>,
    b: Seq<char>,
    c: Seq<char>,
    d: Seq<char>,
    e: Seq<char>,
    between: Seq<char>,
)
    ensures
        text::joined(seq![a, b, c, d, e], between) == a + between + b + between + c + between + d
            + between + e,
{
    let five = seq![a, b, c, d, e];
    assert(five.drop_last() =~= seq![a, b, c, d]);
    assert(seq![a, b, c, d].drop_last() =~= seq![a, b, c]);
    assert(seq![a, b, c].drop_last() =~= seq![a, b]);
    assert(seq![a, b].drop_last() =~= seq![a]);
    assert(text::joined(seq![a], between) == a);
    assert(text::joined(seq![a, b], between) == a + between + b);
    assert(text::joined(seq![a, b, c], between) == a + between + b + between + c);
    assert(text::joined(seq![a, b, c, d], between) == a + between + b + between + c + between + d);
}

/// The page that the browser opens is told the challenge for the verifier, where
/// to come back to, the state to bring back, and which machine asks; and it is
/// told the verifier nowhere by name.
#[verifier::spinoff_prover]
pub proof fn the_page_is_told_what_it_needs(
    base: &str,
    port: u16,
    client_name: &str,
    verifier: String,
    state: String,
    r: Login,
    held: &str,
    answer: String,
)
    requires
        call_ensures(login_with, (base, port, client_name, verifier, state), r),
        held@ == verifier@,
        call_ensures(challenge, (held,), answer),
        forall|i: int| 0 <= i < base@.len() ==> base@[i] != '?',
    ensures
        ({
            let asked = pairs_of(r.authorize@);
            &&& parameter(asked, "code_challenge"@) == Some(answer@)
            &&& parameter(asked, "code_challenge_method"@) == Some("S256"@)
            &&& parameter(asked, "redirect_uri"@) == Some(r.redirect_uri@)
            &&& parameter(asked, "state"@) == Some(state@)
            &&& parameter(asked, "name"@) == Some(client_name@)
            &&& asked.len() == 5
            &&& r.verifier@ == verifier@
            &&& r.state@ == state@
        }),
{
    reveal_strlit("code_challenge");
    reveal_strlit("code_challenge_method");
    reveal_strlit("redirect_uri");
    reveal_strlit("state");
    reveal_strlit("name");
    reveal_strlit("S256");
    assert("code_challenge"@.len() == 14);
    assert("code_challenge_method"@.len() == 21);
    assert("redirect_uri"@.len() == 12);
    assert("state"@.len() == 5);
    assert("name"@.len() == 4);
    assert("S256"@.len() == 4);
    assert("name"@[0] != "S256"@[0]);
    assert(r@.authorize == r.authorize@);
    assert(r@.redirect_uri == r.redirect_uri@);
    assert(r@.verifier == r.verifier@);
    assert(r@.state == r.state@);
    let site = text::without_trailing(base@, '/');
    lemma_kept_front(base@, '/');
    assert forall|i: int| 0 <= i < site.len() implies site[i] != '?' by {
        assert(base@.take(site.len() as int)[i] == base@[i]);
    }
    let back = redirect_of(port);
    lemma_page(site, back, verifier@, state@, client_name@);
    let nothing = Seq::<Seq<char>>::empty();
    let p1 = nothing.push(pair_of("code_challenge"@, challenge_of(verifier@)));
    let p2 = p1.push(pair_of("code_challenge_method"@, "S256"@));
    let p3 = p2.push(pair_of("redirect_uri"@, back));
    let p4 = p3.push(pair_of("state"@, state@));
    let p5 = p4.push(pair_of("name"@, client_name@));
    let asked = pairs_of(r.authorize@);
    assert(asked =~= p5);
    assert forall|key: Seq<char>| #[trigger] parameter(p5, key) == if key == "name"@ {
        Some(client_name@)
    } else if key == "state"@ {
        Some(state@)
    } else if key == "redirect_uri"@ {
        Some(back)
    } else if key == "code_challenge_method"@ {
        Some("S256"@)
    } else if key == "code_challenge"@ {
        Some(challenge_of(verifier@))
    } else {
        None
    } by {
        lemma_pair(nothing, "code_challenge"@, challenge_of(verifier@), key);
        lemma_pair(p1, "code_challenge_method"@, "S256"@, key);
        lemma_pair(p2, "redirect_uri"@, back, key);
        lemma_pair(p3, "state"@, state@, key);
        lemma_pair(p4, "name"@, client_name@, key);
    }
}

proof fn lemma_kept_front(s: Seq<char>, c: char)
    ensures
        text::without_trailing(s, c).len() <= s.len(),
        text::without_trailing(s, c) == s.take(text::without_trailing(s, c).len() as int),
    decreases s.len(),
{
    if s.len() > 0 && s.last() == c {
        let rest = s.drop_last();
        lemma_kept_front(rest, c);
        let n = text::without_trailing(s, c).len() as int;
        assert(rest.take(n) =~= s.take(n));
    } else {
        assert(s.take(s.len() as int) =~= s);
    }
}

/// A login listens where it says: two ports are two addresses to come back to.
pub proof fn two_ports_are_two_addresses(a: u16, b: u16)
    ensures
        redirect_of(a) == redirect_of(b) ==> a == b,
        text::has_prefix(redirect_of(a), "http://127.0.0.1:"@),
        text::stands_in(text::decimal(a as nat), redirect_of(a)),
{
    let start = "http://127.0.0.1:"@;
    let end = "/callback"@;
    let (x, y) = (text::decimal(a as nat), text::decimal(b as nat));
    text::a_number_is_read_back(a as nat);
    text::a_number_is_read_back(b as nat);
    text::lemma_stands_in(start, x, end);
    assert(redirect_of(a).take(start.len() as int) =~= start);
    if redirect_of(a) == redirect_of(b) {
        let n = start.len() as int;
        assert(x.len() == y.len());
        assert(redirect_of(a).subrange(n, n + x.len()) =~= x);
        assert(redirect_of(b).subrange(n, n + y.len()) =~= y);
    }
}

proof fn lemma_word(word: Seq<char>, c: char, rest: Seq<char>)
    requires
        forall|i: int| 0 <= i < word.len() ==> !text::whitespace(#[trigger] word[i]),
        text::whitespace(c),
    ensures
        word_len(word + seq![c] + rest) == word.len(),
    decreases word.len(),
{
    let s = word + seq![c] + rest;
    if word.len() > 0 {
        assert(s[0] == word[0]);
        assert(!text::whitespace(word[0]));
        let tail = word.drop_first();
        assert(s.drop_first() =~= tail + seq![c] + rest);
        assert forall|i: int| 0 <= i < tail.len() implies !text::whitespace(
            #[trigger] tail[i],
        ) by {
            assert(!text::whitespace(word[i + 1]));
        }
        lemma_word(tail, c, rest);
    } else {
        assert(s[0] == c);
    }
}

/// What a browser asks for is read off its request: what stands behind `GET`.
#[verifier::spinoff_prover]
pub proof fn a_request_is_read(bytes: Seq<u8>, target: Seq<char>, rest: Seq<char>)
    requires
        valid_utf8(bytes),
        decode_utf8(bytes) == "GET"@ + seq![' '] + (target + seq![' '] + rest),
        target.len() > 0,
        forall|i: int| 0 <= i < target.len() ==> !text::whitespace(#[trigger] target[i]),
    ensures
        target_of(bytes) == Some(target),
{
    reveal_strlit("GET");
    let get = "GET"@;
    let whole = decode_utf8(bytes);
    let behind = target + seq![' '] + rest;
    let front = get + seq![' '] + (target + seq![' ']);
    assert(whole =~= front + rest);
    let n = front.len() as int;
    assert forall|j: int| 0 <= j < n implies whole[j] != '\n' by {
        assert(whole[j] == front[j]);
        if 4 <= j < n - 1 {
            assert(front[j] == target[j - 4]);
            assert(!text::whitespace(target[j - 4]));
        }
    }
    text::lemma_first_index(whole, '\n');
    let line = first_line(whole);
    let left = line.skip(n);
    match text::first_index(whole, '\n') {
        Some(i) => {
            assert(i >= n);
            assert(line =~= whole.take(i));
        },
        None => {},
    }
    assert(line =~= front + left);
    assert(line =~= get + seq![' '] + (target + seq![' '] + left));
    assert(line[0] == 'G');
    assert(text::trimmed_start(line) == line);
    lemma_word(get, ' ', target + seq![' '] + left);
    let (method, after) = first_word(line);
    assert(method =~= get);
    assert(after =~= seq![' '] + (target + seq![' '] + left));
    let t = target + seq![' '] + left;
    assert(after.drop_first() =~= t);
    assert(t[0] == target[0]);
    assert(!text::whitespace(target[0]));
    assert(text::trimmed_start(after) == t) by {
        assert(text::whitespace(after[0]));
        assert(text::trimmed_start(t) == t);
    }
    lemma_word(target, ' ', left);
    assert(first_word(after).0 =~= target);
}

/// The code that the platform hands out is what the login ends with, once the
/// browser has asked for the callback.
pub proof fn an_approval_ends_the_login(
    bytes: &[u8],
    code: Seq<char>,
    state: &str,
    rest: Seq<char>,
    r: Callback,
    outcome: Option<Result<String, String>>,
)
    requires
        code.len() > 0,
        valid_utf8(bytes@),
        decode_utf8(bytes@) == "GET"@ + seq![' '] + (redirect_target(code, state@) + seq![' ']
            + rest),
        call_ensures(receive, (bytes, state), r),
        call_ensures(Callback::outcome, (r,), outcome),
    ensures
        outcome is Some,
        outcome->0 is Ok,
        outcome->0->Ok_0@ == code,
        r@.status() == "200 OK"@,
{
    let target = redirect_target(code, state@);
    lemma_target_is_one_word(code, state@);
    a_request_is_read(bytes@, target, rest);
    an_approval_arrives(code, state@);
}

proof fn lemma_target_is_one_word(code: Seq<char>, state: Seq<char>)
    ensures
        redirect_target(code, state).len() > 0,
        forall|i: int|
            0 <= i < redirect_target(code, state).len() ==> !text::whitespace(
                #[trigger] redirect_target(code, state)[i],
            ),
{
    reveal_strlit("/callback");
    reveal_strlit("code");
    reveal_strlit("state");
    let target = redirect_target(code, state);
    let (c, s) = (url::encoded(code), url::encoded(state));
    url::lemma_encoded_bytes(encode_utf8(code));
    url::lemma_encoded_bytes(encode_utf8(state));
    let n = c.len() as int;
    assert forall|i: int| 0 <= i < target.len() implies !text::whitespace(
        #[trigger] target[i],
    ) by {
        if 15 <= i < 15 + n {
            assert(target[i] == c[i - 15]);
        } else if i >= 22 + n {
            assert(target[i] == s[i - 22 - n]);
        }
    }
}

/// A login ends with a code exactly when the callback brings that code and the
/// state of the login.
pub proof fn a_login_ends_with_its_own_code(target: &str, state: &str, r: Callback, code: Seq<char>)
    requires
        call_ensures(wait_for_callback, (target, state), r),
    ensures
        r@ == CallbackView::Approved(code) <==> {
            &&& path_of(target@) == "/callback"@
            &&& parameter(pairs_of(target@), "state"@) == Some(state@)
            &&& parameter(pairs_of(target@), "code"@) == Some(code)
            &&& code.len() > 0
        },
{
}

/// The token endpoint is asked with the code and with the verifier that the code
/// is bound to.
pub proof fn a_code_is_exchanged_with_its_verifier(
    login: Login,
    code: &str,
    r: Json,
    url: String,
)
    requires
        call_ensures(Login::token_request, (&login, code), r),
        call_ensures(Login::token_url, (&login,), url),
    ensures
        r@.field("code"@) == Some(JsonView::Text(code@)),
        r@.field("codeVerifier"@) == Some(JsonView::Text(login.verifier@)),
        forall|name: Seq<char>|
            name != "code"@ && name != "codeVerifier"@ ==> (#[trigger] r@.field(
                name,
            )) is None,
        url@ == login.base@ + "/api/cli/token"@,
{
    broadcast use crate::json::lemma_field_of_entry;

    reveal_strlit("code");
    reveal_strlit("codeVerifier");
    assert("code"@.len() == 4);
    assert("codeVerifier"@.len() == 12);
    assert(login@.verifier == login.verifier@);
    assert(login@.base == login.base@);
}

/// The person is shown the page to open, and the program that opens a browser is
/// given that page.
pub proof fn the_page_is_opened(
    login: Login,
    said: String,
    platform: Platform,
    page: &str,
    r: (String, Vec<String>),
)
    requires
        call_ensures(Login::instructions, (&login,), said),
        call_ensures(open_browser, (platform, page), r),
    ensures
        text::stands_in(login.authorize@, said@),
        r.1@.len() > 0,
        r.1@.last()@ == page@,
{
    assert(login@.authorize == login.authorize@);
    text::lemma_stands_in(
        "Opening your browser to approve this machine.\nIf it does not open, paste this into a browser:\n\n  "@,
        login.authorize@,
        "\n"@,
    );
    assert(text::texts(r.1@).len() == r.1@.len());
    assert(text::texts(r.1@).last() == r.1@[r.1@.len() - 1]@);
}

/// A machine is named by its host, as the environment says or else as the
/// machine itself does.
pub proof fn a_machine_is_named_by_its_host(
    before: Seq<char>,
    host: Seq<char>,
    after: Seq<char>,
    environment: Option<String>,
    printed: Option<Vec<u8>>,
    r: String,
)
    requires
        call_ensures(client_name, (environment, printed), r),
        text::blank(before),
        text::blank(after),
        host.len() > 0,
        !text::whitespace(host[0]),
        !text::whitespace(host.last()),
        (environment is Some && environment->0@ == before + host + after) || (environment is None
            && printed is Some && valid_utf8(printed->0@) && decode_utf8(printed->0@) == before
            + host + after),
    ensures
        r@ == "kintri on "@ + host,
{
    text::whitespace_around_a_text_is_trimmed(before, host, after);
}

/// The browser is answered with a page that says the message, and told how long
/// that page is.
#[verifier::spinoff_prover]
pub proof fn an_answer_says_how_long_it_is(status: &str, message: &str, r: String)
    requires
        call_ensures(respond, (status, message), r),
    ensures
        text::has_suffix(r@, page(message@)),
        text::stands_in(message@, r@),
        text::has_prefix(r@, "HTTP/1.1 "@ + status@),
        text::stands_in(
            "content-length: "@ + text::decimal(encode_utf8(page(message@)).len()) + "\r\n"@,
            r@,
        ),
{
    let nothing = Seq::<char>::empty();
    let body = page(message@);
    let many = text::decimal(encode_utf8(body).len());
    let kind = "\r\ncontent-type: text/html; charset=utf-8\r\ncontent-length: "@;
    let kind_only = "\r\ncontent-type: text/html; charset=utf-8\r\n"@;
    let end = "\r\nconnection: close\r\n\r\n"@;
    reveal_strlit("\r\ncontent-type: text/html; charset=utf-8\r\ncontent-length: ");
    reveal_strlit("\r\ncontent-type: text/html; charset=utf-8\r\n");
    reveal_strlit("content-length: ");
    reveal_strlit("\r\nconnection: close\r\n\r\n");
    reveal_strlit("\r\n");
    reveal_strlit("connection: close\r\n\r\n");
    assert(kind =~= kind_only + "content-length: "@);
    assert(end =~= "\r\n"@ + "connection: close\r\n\r\n"@);
    let first = "HTTP/1.1 "@ + status@;
    let length = "content-length: "@ + many + "\r\n"@;
    let head = first + kind + many + end;
    assert(r@ =~= head + body);
    assert(r@.skip(r@.len() - body.len()) =~= body);
    assert(r@.take(first.len() as int) =~= first);
    assert(r@ =~= (first + kind_only) + length + ("connection: close\r\n\r\n"@ + body));
    text::lemma_stands_in(first + kind_only, length, "connection: close\r\n\r\n"@ + body);
    let opening =
        "<!doctype html><meta charset=\"utf-8\"><title>kintri</title><body style=\"font:16px system-ui;margin:4rem auto;max-width:32rem\"><p>"@;
    assert(head + body =~= (head + opening) + message@ + "</p></body>"@);
    text::lemma_stands_in(head + opening, message@, "</p></body>"@);
}

/// A person whose approval came to nothing is told the status of the refusal, or
/// for how long the login waited.
#[verifier::spinoff_prover]
pub proof fn a_login_that_failed_says_why(status: u16, refused: String, late: String)
    requires
        call_ensures(exchange_refused, (status,), refused),
        call_ensures(timed_out, (), late),
    ensures
        text::stands_in(http::status_line(status), refused@),
        text::stands_in(" "@ + text::decimal(5) + " minutes "@, late@),
        APPROVAL_TIMEOUT_SECS == 5 * 60,
{
    text::lemma_stands_in(
        "the approval could not be exchanged for a token ("@,
        http::status_line(status),
        "). It may have expired or already been used; run `kintri login` again"@,
    );
    reveal_strlit("timed out after ");
    reveal_strlit("timed out after");
    reveal_strlit(" ");
    reveal_strlit(" minutes waiting for the browser. Run `kintri login` again");
    reveal_strlit(" minutes ");
    reveal_strlit("waiting for the browser. Run `kintri login` again");
    assert("timed out after "@ =~= "timed out after"@ + " "@);
    assert(" minutes waiting for the browser. Run `kintri login` again"@ =~= " minutes "@
        + "waiting for the browser. Run `kintri login` again"@);
    let part = " "@ + text::decimal(5) + " minutes "@;
    assert(APPROVAL_TIMEOUT_SECS as nat / 60 == 5);
    assert(late@ =~= "timed out after"@ + part
        + "waiting for the browser. Run `kintri login` again"@);
    text::lemma_stands_in(
        "timed out after"@,
        part,
        "waiting for the browser. Run `kintri login` again"@,
    );
}

/// A browser is answered for what it brought: an approval with success, a
/// callback without a code as a bad request, and anything else as not found. The
/// login ends with the code of an approval, fails without one, and waits on
/// otherwise.
#[verifier::spinoff_prover]
pub proof fn a_browser_is_answered_for_what_it_brought(
    c: Callback,
    r: String,
    outcome: Option<Result<String, String>>,
)
    requires
        call_ensures(Callback::answer, (&c,), r),
        call_ensures(Callback::outcome, (c,), outcome),
    ensures
        c is Approved ==> text::has_prefix(r@, "HTTP/1.1 200 OK\r\n"@),
        c is Refused ==> text::has_prefix(r@, "HTTP/1.1 400 Bad Request\r\n"@),
        c is Elsewhere || c is Foreign ==> text::has_prefix(r@, "HTTP/1.1 404 Not Found\r\n"@),
        c is Approved ==> outcome is Some && outcome->0 is Ok && outcome->0->Ok_0@
            == c->Approved_0@,
        c is Refused <==> outcome is Some && outcome->0 is Err,
        c is Elsewhere || c is Foreign <==> outcome is None,
{
    reveal_strlit("HTTP/1.1 ");
    reveal_strlit("200 OK");
    reveal_strlit("400 Bad Request");
    reveal_strlit("404 Not Found");
    reveal_strlit("\r\ncontent-type: text/html; charset=utf-8\r\ncontent-length: ");
    reveal_strlit("HTTP/1.1 200 OK\r\n");
    reveal_strlit("HTTP/1.1 400 Bad Request\r\n");
    reveal_strlit("HTTP/1.1 404 Not Found\r\n");
    let start = match c {
        Callback::Approved(_) => "HTTP/1.1 200 OK\r\n"@,
        Callback::Refused => "HTTP/1.1 400 Bad Request\r\n"@,
        _ => "HTTP/1.1 404 Not Found\r\n"@,
    };
    assert(r@.take(start.len() as int) =~= start);
}

/// The browser of every system is opened by the program of that system.
pub proof fn every_system_opens_its_own_browser(
    platform: Platform,
    page: &str,
    r: (String, Vec<String>),
)
    requires
        call_ensures(open_browser, (platform, page), r),
    ensures
        platform is MacOs ==> r.0@ == "open"@ && r.1@.len() == 1,
        platform is Other ==> r.0@ == "xdg-open"@ && r.1@.len() == 1,
        platform is Windows ==> r.0@ == "cmd"@ && r.1@.len() == 4 && r.1@[0]@ == "/C"@
            && r.1@[1]@ == "start"@ && r.1@[2]@.len() == 0,
        r.1@[r.1@.len() - 1]@ == page@,
{
    reveal_strlit("");
    let args = text::texts(r.1@);
    assert(args.len() == r.1@.len());
    assert(args.last() == r.1@[r.1@.len() - 1]@);
    if platform is Windows {
        assert(args[0] == r.1@[0]@);
        assert(args[1] == r.1@[1]@);
        assert(args[2] == r.1@[2]@);
    }
}

/// A parameter that is given again counts as it was given last, and one of
/// another name changes nothing.
pub proof fn what_was_given_last_counts(
    pairs: Seq<Seq<char>>,
    name: Seq<char>,
    value: Seq<char>,
    other: Seq<char>,
)
    requires
        query_name(name),
    ensures
        parameter(pairs.push(pair_of(name, value)), name) == Some(value),
        other != name ==> parameter(pairs.push(pair_of(name, value)), other) == parameter(
            pairs,
            other,
        ),
{
    lemma_pair(pairs, name, value, name);
    lemma_pair(pairs, name, value, other);
}

} // verus!
