//! Logging in: where a token may come from, and where it may travel.
use vstd::prelude::*;
use vstd::string::*;

use crate::credentials::{Credentials, CredentialsView, Store};
use crate::failure;
use crate::failure::{Failure, FailureView};
use crate::login::Granted;
use crate::text;

verus! {

/// The hosted platform.
pub const DEFAULT_URL: &'static str = "https://app.kintri.ai";

// ---------------------------------------------------------------------------
// Where a token may travel
// ---------------------------------------------------------------------------

/// The characters of `s` in front of the path, the query and the fragment.
pub open spec fn authority_len(s: Seq<char>) -> nat
    decreases s.len(),
{
    if s.len() == 0 || s[0] == '/' || s[0] == '?' || s[0] == '#' {
        0
    } else {
        1 + authority_len(s.drop_first())
    }
}

/// Nothing, or a colon and digits.
pub open spec fn port_or_nothing(s: Seq<char>) -> bool {
    s.len() == 0 || (s[0] == ':' && forall|i: int| 1 <= i < s.len() ==> '0' <= #[trigger] s[i] <= '9')
}

/// A URL names exactly the host that `start` ends with, perhaps with a port.
pub open spec fn names_host(url: Seq<char>, start: Seq<char>) -> bool {
    let rest = url.skip(start.len() as int);
    text::has_prefix(url, start) && port_or_nothing(rest.take(authority_len(rest) as int))
}

/// A URL of the machine the developer is sitting at.
pub open spec fn loopback(url: Seq<char>) -> bool {
    ||| names_host(url, "http://localhost"@)
    ||| names_host(url, "http://127.0.0.1"@)
    ||| names_host(url, "http://[::1]"@)
}

/// A token may travel there: it is encrypted on the way, or never leaves the
/// machine.
pub open spec fn trusted(url: Seq<char>) -> bool {
    text::has_prefix(url, "https://"@) || loopback(url)
}

/// A URL as it is kept: without whitespace around it and slashes behind it.
pub open spec fn tidy_url(raw: Seq<char>) -> Seq<char> {
    text::without_trailing(text::trimmed(raw), '/')
}

/// The URL that was given, when a token may travel there.
pub open spec fn normalized(raw: Seq<char>) -> Result<Seq<char>, FailureView> {
    let url = tidy_url(raw);
    if trusted(url) {
        Ok(url)
    } else {
        Err(
            failure::plain(
                "the URL must be https:// (http:// is allowed for localhost only): "@ + url,
            ),
        )
    }
}

/// How many characters stand in front of the path, the query and the fragment.
fn authority_of(v: &Vec<char>, from: usize) -> (r: usize)
    requires
        from <= v@.len(),
    ensures
        from <= r <= v@.len(),
        r - from == authority_len(v@.skip(from as int)),
{
    let mut i: usize = from;
    while i < v.len() && v[i] != '/' && v[i] != '?' && v[i] != '#'
        invariant
            from <= i <= v@.len(),
            authority_len(v@.skip(from as int)) == (i - from) + authority_len(v@.skip(i as int)),
        decreases v@.len() - i,
    {
        assert(v@.skip(i as int).drop_first() =~= v@.skip(i + 1));
        i = i + 1;
    }
    i
}

/// Whether a URL names exactly the host that `start` ends with.
fn has_host(url: &str, start: &str) -> (r: bool)
    ensures
        r == names_host(url@, start@),
{
    if !text::starts_with(url, start) {
        return false;
    }
    let v = text::chars(url);
    let from = start.unicode_len();
    let end = authority_of(&v, from);
    let ghost rest = url@.skip(from as int);
    let ghost port = rest.take(end - from);
    assert(port =~= url@.subrange(from as int, end as int));
    if from == end {
        return true;
    }
    assert(port[0] == v@[from as int]);
    if v[from] != ':' {
        return false;
    }
    let mut i: usize = from + 1;
    while i < end
        invariant
            from < i <= end <= v@.len(),
            v@ == url@,
            port == url@.subrange(from as int, end as int),
            names_host(url@, start@) == port_or_nothing(port),
            port[0] == ':',
            forall|j: int| 1 <= j < i - from ==> '0' <= #[trigger] port[j] <= '9',
        decreases end - i,
    {
        let c = v[i];
        assert(port[i - from] == c);
        if !('0' <= c && c <= '9') {
            return false;
        }
        i = i + 1;
    }
    true
}

/// Accept `https://`, and `http://` only for a loopback address.
///
/// A token travels to this host. Letting it travel in clear text to anything
/// but the machine the developer is sitting at is not a convenience worth
/// having.
pub fn normalize_url(raw: &str) -> (r: Result<String, Failure>)
    ensures
        match r {
            Ok(url) => normalized(raw@) is Ok && normalized(raw@)->Ok_0 == url@,
            Err(e) => normalized(raw@) is Err && normalized(raw@)->Err_0 == e@,
        },
{
    let url = text::trim_end_of(text::trim(raw), '/');
    let is_local = has_host(url, "http://localhost") || has_host(url, "http://127.0.0.1")
        || has_host(url, "http://[::1]");
    if !text::starts_with(url, "https://") && !is_local {
        let mut message: String =
            "the URL must be https:// (http:// is allowed for localhost only): ".to_owned();
        message.append(url);
        return Err(Failure::new(message.as_str()));
    }
    Ok(url.to_owned())
}

/// What was accepted ends in no slash, so that a path can follow it.
pub proof fn an_accepted_url_ends_in_no_slash(raw: Seq<char>)
    requires
        normalized(raw) is Ok,
    ensures
        trusted(normalized(raw)->Ok_0),
        normalized(raw)->Ok_0.len() > 0 ==> normalized(raw)->Ok_0.last() != '/',
{
    text::lemma_without_trailing(text::trimmed(raw), '/');
}

// ---------------------------------------------------------------------------
// Logging in
// ---------------------------------------------------------------------------

/// The sentence for something that is not a workspace token.
pub const NOT_A_TOKEN: &'static str =
    "that does not look like a workspace token; they start with `emt_`";

/// The sentence for a platform that names no gateway.
pub const NO_GATEWAY: &'static str =
    "this platform has not published an agent network address. Ask the operator to set EM_AGENT_PUBLIC_ENDPOINT, or pass --gateway-url yourself";

/// What failed when the gateway did not accept a credential.
pub const NOT_ACCEPTED: &'static str = "the gateway did not accept this credential";

/// The credentials for a token, once it looks like one.
pub open spec fn checked(credentials: CredentialsView) -> Result<CredentialsView, FailureView> {
    if text::has_prefix(credentials.token, "emt_"@) {
        Ok(credentials)
    } else {
        Err(failure::plain(NOT_A_TOKEN@))
    }
}

/// The credentials for a token that was pasted. The gateway is the one that was
/// named, or else the address itself; only an address that is not the gateway
/// is the platform.
pub open spec fn pasted(
    url: Seq<char>,
    token: Seq<char>,
    gateway_url: Option<Seq<char>>,
) -> Result<CredentialsView, FailureView> {
    match normalized(url) {
        Err(e) => Err(e),
        Ok(url) => match normalized(
            match gateway_url {
                Some(given) => given,
                None => url,
            },
        ) {
            Err(e) => Err(e),
            Ok(gateway) => checked(
                CredentialsView {
                    gateway_url: gateway,
                    workspace_url: if gateway != url {
                        Some(url)
                    } else {
                        None
                    },
                    workspace: None,
                    token,
                },
            ),
        },
    }
}

/// The credentials for a token that the browser flow granted at `url`. The
/// gateway is the one that the platform publishes, or else the one that was
/// named.
pub open spec fn granted_at(
    url: Seq<char>,
    granted: Granted,
    gateway_url: Option<Seq<char>>,
) -> Result<CredentialsView, FailureView> {
    let address = match (text::optional(granted.gateway_url), gateway_url) {
        (Some(published), _) => Some(published),
        (None, Some(given)) => Some(given),
        (None, None) => None,
    };
    match address {
        None => Err(failure::plain(NO_GATEWAY@)),
        Some(address) => match normalized(address) {
            Err(e) => Err(e),
            Ok(gateway) => checked(
                CredentialsView {
                    gateway_url: gateway,
                    workspace_url: Some(url),
                    workspace: Some(granted.workspace@),
                    token: granted.token@,
                },
            ),
        },
    }
}

/// A result with credentials, mathematically.
pub open spec fn credentials_result(
    r: Result<Credentials, Failure>,
) -> Result<CredentialsView, FailureView> {
    match r {
        Ok(credentials) => Ok(credentials@),
        Err(e) => Err(e@),
    }
}

/// A token that was accepted travels encrypted, or does not leave the machine.
pub proof fn a_token_never_travels_in_clear(
    url: Seq<char>,
    token: Seq<char>,
    gateway_url: Option<Seq<char>>,
    granted: Granted,
)
    ensures
        pasted(url, token, gateway_url) is Ok ==> trusted(
            pasted(url, token, gateway_url)->Ok_0.gateway_url,
        ),
        granted_at(url, granted, gateway_url) is Ok ==> trusted(
            granted_at(url, granted, gateway_url)->Ok_0.gateway_url,
        ),
{
}

/// The credentials, once their token looks like one.
fn check(credentials: Credentials) -> (r: Result<Credentials, Failure>)
    ensures
        credentials_result(r) == checked(credentials@),
{
    if text::starts_with(credentials.token.as_str(), "emt_") {
        Ok(credentials)
    } else {
        Err(Failure::new(NOT_A_TOKEN))
    }
}

/// Log in with a token that was minted elsewhere, for a machine with no
/// browser.
pub fn login_with_token(url: &str, token: String, gateway_url: Option<String>) -> (r: Result<
    Credentials,
    Failure,
>)
    ensures
        credentials_result(r) == pasted(url@, token@, text::optional(gateway_url)),
{
    let url = match normalize_url(url) {
        Ok(url) => url,
        Err(e) => {
            return Err(e);
        },
    };
    let address: &str = match &gateway_url {
        Some(given) => given.as_str(),
        None => url.as_str(),
    };
    let gateway = match normalize_url(address) {
        Ok(gateway) => gateway,
        Err(e) => {
            return Err(e);
        },
    };
    let workspace_url = if text::same(gateway.as_str(), url.as_str()) {
        None
    } else {
        Some(url)
    };
    check(Credentials { gateway_url: gateway, workspace_url, workspace: None, token })
}

/// Log in with what the browser flow at `url` granted.
pub fn login_granted(url: &str, granted: Granted, gateway_url: Option<String>) -> (r: Result<
    Credentials,
    Failure,
>)
    ensures
        credentials_result(r) == granted_at(url@, granted, text::optional(gateway_url)),
{
    let address: String = match granted.gateway_url {
        Some(published) => published,
        None => match gateway_url {
            Some(given) => given,
            None => {
                return Err(Failure::new(NO_GATEWAY));
            },
        },
    };
    let gateway = match normalize_url(address.as_str()) {
        Ok(gateway) => gateway,
        Err(e) => {
            return Err(e);
        },
    };
    check(
        Credentials {
            gateway_url: gateway,
            workspace_url: Some(url.to_owned()),
            workspace: Some(granted.workspace),
            token: granted.token,
        },
    )
}

/// What a person is told who has logged in. `place` is where the credential is
/// kept.
pub open spec fn welcome(credentials: CredentialsView, place: Seq<char>) -> Seq<char> {
    (match credentials.workspace {
        Some(workspace) => "Connected to "@ + workspace
            + ". This machine can now share with the team's other agents.\n"@,
        None => "Logged in to "@ + credentials.home() + ".\n"@,
    }) + "Credential saved to "@ + place + ".\n"@
}

/// What a person is told who has logged in.
pub fn login_text(credentials: &Credentials, place: &str) -> (r: String)
    ensures
        r@ == welcome(credentials@, place@),
{
    let mut out: String = match &credentials.workspace {
        Some(workspace) => {
            let mut out: String = "Connected to ".to_owned();
            out.append(workspace.as_str());
            out.append(". This machine can now share with the team's other agents.\n");
            out
        },
        None => {
            let mut out: String = "Logged in to ".to_owned();
            out.append(credentials.home());
            out.append(".\n");
            out
        },
    };
    out.append("Credential saved to ");
    out.append(place);
    out.append(".\n");
    out
}

/// The credentials of a login, for what came of asking the gateway with them
/// who is online. They are proven before they are kept: a credential that turns
/// out to be wrong hours later, in a hook whose output nobody reads, is a
/// confusing failure.
pub fn login_asked(credentials: Credentials, outcome: Result<usize, Failure>) -> (r: Result<
    Credentials,
    Failure,
>)
    ensures
        match outcome {
            Ok(_) => r is Ok && r->Ok_0 == credentials,
            Err(e) => r is Err && r->Err_0@ == failure::caused(NOT_ACCEPTED@, e@.in_full()),
        },
{
    match outcome {
        Ok(_) => Ok(credentials),
        Err(e) => Err(Failure::because(NOT_ACCEPTED, e.full().as_str())),
    }
}

/// Keep the credentials of a login that the gateway has accepted, and say so to
/// the person. Credentials that it did not accept are not kept.
pub fn keep_login<S: Store>(
    store: &S,
    credentials: Credentials,
    outcome: Result<usize, Failure>,
) -> (r: Result<String, Failure>)
    ensures
        match outcome {
            Ok(_) => exists|saved: Result<(), Failure>|
                #[trigger] call_ensures(S::save, (store, &credentials), saved) && match saved {
                    Ok(_) => exists|place: String|
                        #[trigger] call_ensures(S::describe, (store,), place) && r is Ok
                            && r->Ok_0@ == welcome(credentials@, place@),
                    Err(e) => r is Err && r->Err_0 == e,
                },
            Err(e) => r is Err && r->Err_0@ == failure::caused(NOT_ACCEPTED@, e@.in_full()),
        },
{
    let accepted = match login_asked(credentials, outcome) {
        Ok(accepted) => accepted,
        Err(e) => {
            return Err(e);
        },
    };
    let saved = store.save(&accepted);
    let ghost told = saved;
    assert(call_ensures(S::save, (store, &credentials), told));
    match saved {
        Ok(_) => {
            let place = store.describe();
            assert(call_ensures(S::describe, (store,), place));
            Ok(login_text(&accepted, place.as_str()))
        },
        Err(e) => Err(e),
    }
}

/// What a person is told who has logged out.
pub fn logout_text(place: &str) -> (r: String)
    ensures
        r@ == "Logged out. The credential at "@ + place@ + " is gone.\n"@,
{
    let mut out: String = "Logged out. The credential at ".to_owned();
    out.append(place);
    out.append(" is gone.\n");
    out
}

/// The sentence for a machine on which nobody has logged in.
pub const LOGGED_OUT: &'static str =
    "not logged in on this machine. Run `kintri login --url … --token …`";

/// The credentials that were read; a failure when there are none.
pub fn logged_in(loaded: Result<Option<Credentials>, Failure>) -> (r: Result<Credentials, Failure>)
    ensures
        match loaded {
            Ok(Some(credentials)) => r is Ok && r->Ok_0 == credentials,
            Ok(None) => r is Err && r->Err_0@ == failure::plain(LOGGED_OUT@),
            Err(e) => r is Err && r->Err_0 == e,
        },
{
    match loaded {
        Ok(Some(credentials)) => Ok(credentials),
        Ok(None) => Err(Failure::new(LOGGED_OUT)),
        Err(e) => Err(e),
    }
}

/// The credentials of this machine, from wherever they are kept.
pub fn require_login<S: Store>(store: &S) -> (r: Result<Credentials, Failure>)
    ensures
        exists|loaded: Result<Option<Credentials>, Failure>|
            call_ensures(S::load, (store,), loaded) && match loaded {
                Ok(Some(credentials)) => r is Ok && r->Ok_0 == credentials,
                Ok(None) => r is Err && r->Err_0@ == failure::plain(LOGGED_OUT@),
                Err(e) => r is Err && r->Err_0 == e,
            },
{
    let loaded = store.load();
    let ghost was = loaded;
    assert(call_ensures(S::load, (store,), was));
    logged_in(loaded)
}

// ---------------------------------------------------------------------------
// What a login amounts to
// ---------------------------------------------------------------------------

/// A character that ends the name of a host and its port.
pub open spec fn ends_authority(c: char) -> bool {
    c == '/' || c == '?' || c == '#'
}

/// Behind its first `n` characters a URL names no other host: it ends there, or
/// a port, a path, a query or a fragment follows.
pub open spec fn only_a_port(url: Seq<char>, n: int) -> bool {
    &&& n <= url.len()
    &&& n < url.len() ==> url[n] == ':' || ends_authority(url[n])
    &&& forall|i: int|
        n < i < url.len() && (forall|j: int| n <= j <= i ==> !ends_authority(#[trigger] url[j]))
            ==> '0' <= #[trigger] url[i] <= '9'
}

proof fn lemma_authority(s: Seq<char>)
    ensures
        authority_len(s) <= s.len(),
        forall|i: int| 0 <= i < authority_len(s) ==> !ends_authority(#[trigger] s[i]),
        authority_len(s) < s.len() ==> ends_authority(s[authority_len(s) as int]),
    decreases s.len(),
{
    if s.len() > 0 && !ends_authority(s[0]) {
        let rest = s.drop_first();
        lemma_authority(rest);
        assert forall|i: int| 0 <= i < authority_len(s) implies !ends_authority(
            #[trigger] s[i],
        ) by {
            if i > 0 {
                assert(s[i] == rest[i - 1]);
            }
        }
        if authority_len(s) < s.len() {
            assert(s[authority_len(s) as int] == rest[authority_len(rest) as int]);
        }
    }
}

proof fn lemma_host(url: Seq<char>, start: Seq<char>)
    requires
        names_host(url, start),
    ensures
        text::has_prefix(url, start),
        only_a_port(url, start.len() as int),
{
    let n = start.len() as int;
    let rest = url.skip(n);
    lemma_authority(rest);
    let m = authority_len(rest) as int;
    let port = rest.take(m);
    if n < url.len() {
        assert(url[n] == rest[0]);
        if m > 0 {
            assert(port[0] == rest[0]);
        }
    }
    assert forall|i: int|
        n < i < url.len() && (forall|j: int|
            n <= j <= i ==> !ends_authority(#[trigger] url[j])) implies '0' <= #[trigger] url[i]
        <= '9' by {
        assert(rest[i - n] == url[i]);
        if m <= i - n {
            assert(rest[m] == url[n + m]);
            assert(!ends_authority(url[n + m]));
        }
        assert(port[i - n] == url[i]);
    }
}

/// An address that is accepted is encrypted, or it names this machine and
/// nothing besides: no other host can follow behind the name.
pub proof fn an_accepted_address_leads_nowhere_else(raw: &str, r: Result<String, Failure>)
    requires
        call_ensures(normalize_url, (raw,), r),
        r is Ok,
    ensures
        ({
            let url = r->Ok_0@;
            ||| text::has_prefix(url, "https://"@)
            ||| text::has_prefix(url, "http://localhost"@) && only_a_port(url, 16)
            ||| text::has_prefix(url, "http://127.0.0.1"@) && only_a_port(url, 16)
            ||| text::has_prefix(url, "http://[::1]"@) && only_a_port(url, 12)
        }),
{
    reveal_strlit("http://localhost");
    reveal_strlit("http://127.0.0.1");
    reveal_strlit("http://[::1]");
    let url = r->Ok_0@;
    if names_host(url, "http://localhost"@) {
        lemma_host(url, "http://localhost"@);
    }
    if names_host(url, "http://127.0.0.1"@) {
        lemma_host(url, "http://127.0.0.1"@);
    }
    if names_host(url, "http://[::1]"@) {
        lemma_host(url, "http://[::1]"@);
    }
}

proof fn lemma_tidy_url(raw: Seq<char>, before: Seq<char>, url: Seq<char>, after: Seq<char>)
    requires
        raw == before + url + after,
        text::blank(before),
        text::blank(after),
        url.len() > 0,
        !text::whitespace(url[0]),
        !text::whitespace(url.last()),
        url.last() != '/',
    ensures
        tidy_url(raw) == url,
{
    text::whitespace_around_a_text_is_trimmed(before, url, after);
}

/// An encrypted address is accepted as it was given, but for whitespace around
/// it.
pub proof fn an_encrypted_address_is_accepted(
    raw: &str,
    before: Seq<char>,
    url: Seq<char>,
    after: Seq<char>,
    r: Result<String, Failure>,
)
    requires
        call_ensures(normalize_url, (raw,), r),
        raw@ == before + url + after,
        text::blank(before),
        text::blank(after),
        text::has_prefix(url, "https://"@),
        !text::whitespace(url.last()),
        url.last() != '/',
    ensures
        r is Ok,
        r->Ok_0@ == url,
{
    reveal_strlit("https://");
    assert(url.take(8)[0] == url[0]);
    lemma_tidy_url(raw@, before, url, after);
}

/// A slash behind an address changes nothing.
pub proof fn a_slash_behind_an_address_changes_nothing(
    raw: &str,
    more: &str,
    r: Result<String, Failure>,
    s: Result<String, Failure>,
)
    requires
        call_ensures(normalize_url, (raw,), r),
        call_ensures(normalize_url, (more,), s),
        raw@.len() > 0,
        !text::whitespace(raw@[0]),
        !text::whitespace(raw@.last()),
        more@ == raw@.push('/'),
    ensures
        r is Ok <==> s is Ok,
        r is Ok ==> r->Ok_0@ == s->Ok_0@,
{
    let nothing = Seq::<char>::empty();
    assert(raw@ =~= nothing + raw@ + nothing);
    assert(more@ =~= nothing + more@ + nothing);
    text::whitespace_around_a_text_is_trimmed(nothing, raw@, nothing);
    text::whitespace_around_a_text_is_trimmed(nothing, more@, nothing);
    assert(more@.drop_last() =~= raw@);
}

proof fn lemma_authority_of(port: Seq<char>, rest: Seq<char>)
    requires
        forall|i: int| 0 <= i < port.len() ==> !ends_authority(#[trigger] port[i]),
        rest.len() > 0 ==> ends_authority(rest[0]),
    ensures
        authority_len(port + rest) == port.len(),
    decreases port.len(),
{
    let s = port + rest;
    if port.len() > 0 {
        assert(s[0] == port[0]);
        assert(!ends_authority(port[0]));
        let tail = port.drop_first();
        assert(s.drop_first() =~= tail + rest);
        assert forall|i: int| 0 <= i < tail.len() implies !ends_authority(#[trigger] tail[i]) by {
            assert(!ends_authority(port[i + 1]));
        }
        lemma_authority_of(tail, rest);
    } else {
        assert(s =~= rest);
    }
}

/// An address on this machine is accepted without encryption, at any port and
/// with any path.
pub proof fn an_address_on_this_machine_is_accepted(
    raw: &str,
    start: Seq<char>,
    port: Seq<char>,
    rest: Seq<char>,
    r: Result<String, Failure>,
)
    requires
        call_ensures(normalize_url, (raw,), r),
        start == "http://localhost"@ || start == "http://127.0.0.1"@ || start == "http://[::1]"@,
        port.len() > 0 ==> port[0] == ':',
        forall|i: int| 1 <= i < port.len() ==> '0' <= #[trigger] port[i] <= '9',
        rest.len() > 0 ==> ends_authority(rest[0]),
        raw@ == start + port + rest,
        !text::whitespace(raw@.last()),
        raw@.last() != '/',
    ensures
        r is Ok,
        r->Ok_0@ == raw@,
{
    reveal_strlit("http://localhost");
    reveal_strlit("http://127.0.0.1");
    reveal_strlit("http://[::1]");
    let nothing = Seq::<char>::empty();
    let url = raw@;
    assert(url[0] == start[0]);
    assert(url =~= nothing + url + nothing);
    lemma_tidy_url(url, nothing, url, nothing);
    assert(url.take(start.len() as int) =~= start);
    assert(url.skip(start.len() as int) =~= port + rest);
    assert forall|i: int| 0 <= i < port.len() implies !ends_authority(#[trigger] port[i]) by {}
    lemma_authority_of(port, rest);
    assert((port + rest).take(port.len() as int) =~= port);
    assert(names_host(url, start));
}

/// A token that was pasted is kept as it was pasted, for the gateway that was
/// named or else for the address itself; and the person is at home where they
/// logged in.
pub proof fn a_pasted_token_is_kept(
    url: &str,
    token: String,
    gateway_url: Option<String>,
    at: Result<String, Failure>,
    gateway: &str,
    to: Result<String, Failure>,
    r: Result<Credentials, Failure>,
)
    requires
        call_ensures(login_with_token, (url, token, gateway_url), r),
        call_ensures(normalize_url, (url,), at),
        at is Ok,
        call_ensures(normalize_url, (gateway,), to),
        gateway@ == match gateway_url {
            Some(given) => given@,
            None => at->Ok_0@,
        },
    ensures
        r is Ok <==> to is Ok && text::has_prefix(token@, "emt_"@),
        r is Ok ==> {
            &&& r->Ok_0.token@ == token@
            &&& r->Ok_0.gateway_url@ == to->Ok_0@
            &&& r->Ok_0.workspace is None
            &&& r->Ok_0@.home() == at->Ok_0@
            &&& r->Ok_0.workspace_url is Some <==> to->Ok_0@ != at->Ok_0@
        },
{
    if r is Ok {
        assert(r->Ok_0@.token == r->Ok_0.token@);
        assert(r->Ok_0@.gateway_url == r->Ok_0.gateway_url@);
        assert(r->Ok_0@.workspace == text::optional(r->Ok_0.workspace));
        assert(r->Ok_0@.workspace_url == text::optional(r->Ok_0.workspace_url));
    }
}

/// A token that the platform granted is kept as it was granted, together with
/// the name of its workspace, for the gateway that the platform publishes; the
/// one that was named counts only where the platform publishes none.
pub proof fn a_granted_token_is_kept(
    url: &str,
    granted: Granted,
    gateway_url: Option<String>,
    gateway: &str,
    to: Result<String, Failure>,
    r: Result<Credentials, Failure>,
)
    requires
        call_ensures(login_granted, (url, granted, gateway_url), r),
        call_ensures(normalize_url, (gateway,), to),
        granted.gateway_url is Some ==> gateway@ == granted.gateway_url->0@,
        granted.gateway_url is None && gateway_url is Some ==> gateway@ == gateway_url->0@,
    ensures
        granted.gateway_url is None && gateway_url is None ==> r is Err,
        granted.gateway_url is Some || gateway_url is Some ==> (r is Ok <==> to is Ok
            && text::has_prefix(granted.token@, "emt_"@)),
        r is Ok ==> {
            &&& r->Ok_0.token@ == granted.token@
            &&& r->Ok_0.gateway_url@ == to->Ok_0@
            &&& r->Ok_0.workspace is Some
            &&& r->Ok_0.workspace->0@ == granted.workspace@
            &&& r->Ok_0@.home() == url@
        },
{
    if r is Ok {
        assert(r->Ok_0@.token == r->Ok_0.token@);
        assert(r->Ok_0@.gateway_url == r->Ok_0.gateway_url@);
        assert(r->Ok_0@.workspace == text::optional(r->Ok_0.workspace));
        assert(r->Ok_0@.workspace_url == text::optional(r->Ok_0.workspace_url));
    }
}

/// A person who logs in is told the workspace they are connected to, or else
/// where they are logged in, and where the credential is; one who logs out is
/// told which credential is gone.
#[verifier::spinoff_prover]
pub proof fn a_person_is_told_where_they_are(
    credentials: Credentials,
    place: &str,
    welcomed: String,
    gone: String,
)
    requires
        call_ensures(login_text, (&credentials, place), welcomed),
        call_ensures(logout_text, (place,), gone),
    ensures
        credentials.workspace is Some ==> text::stands_in(credentials.workspace->0@, welcomed@),
        credentials.workspace is None && credentials.workspace_url is Some ==> text::stands_in(
            credentials.workspace_url->0@,
            welcomed@,
        ),
        credentials.workspace is None && credentials.workspace_url is None ==> text::stands_in(
            credentials.gateway_url@,
            welcomed@,
        ),
        text::stands_in(place@, welcomed@),
        text::stands_in(place@, gone@),
{
    let c = credentials@;
    let end = "Credential saved to "@ + place@ + ".\n"@;
    let start = match c.workspace {
        Some(workspace) => "Connected to "@ + workspace
            + ". This machine can now share with the team's other agents.\n"@,
        None => "Logged in to "@ + c.home() + ".\n"@,
    };
    let nothing = Seq::<char>::empty();
    assert(welcomed@ =~= nothing + start + end);
    match c.workspace {
        Some(workspace) => {
            text::lemma_stands_in(
                "Connected to "@,
                workspace,
                ". This machine can now share with the team's other agents.\n"@,
            );
            text::lemma_stands_in_more(workspace, start, nothing, end);
        },
        None => {
            text::lemma_stands_in("Logged in to "@, c.home(), ".\n"@);
            text::lemma_stands_in_more(c.home(), start, nothing, end);
        },
    }
    text::lemma_stands_in(start + "Credential saved to "@, place@, ".\n"@);
    text::lemma_stands_in("Logged out. The credential at "@, place@, " is gone.\n"@);
}

/// Credentials that the gateway did not accept come to nothing, and the person
/// is told why; those that it accepted are the ones that are kept.
pub proof fn a_refused_credential_is_not_kept(
    credentials: Credentials,
    outcome: Result<usize, Failure>,
    r: Result<Credentials, Failure>,
)
    requires
        call_ensures(login_asked, (credentials, outcome), r),
    ensures
        outcome is Ok <==> r is Ok,
        r is Ok ==> r->Ok_0 == credentials,
        outcome is Err ==> text::has_suffix(r->Err_0@.in_full(), outcome->Err_0@.in_full()),
{
    if outcome is Err {
        let why = outcome->Err_0@.in_full();
        let told = r->Err_0@.in_full();
        assert(told.skip(told.len() - why.len()) =~= why);
    }
}

/// Nobody is logged in without credentials, and those that were read are the
/// ones that are used.
pub proof fn nobody_is_logged_in_without_credentials(
    loaded: Result<Option<Credentials>, Failure>,
    r: Result<Credentials, Failure>,
)
    requires
        call_ensures(logged_in, (loaded,), r),
    ensures
        r is Ok <==> loaded is Ok && loaded->Ok_0 is Some,
        r is Ok ==> r->Ok_0 == loaded->Ok_0->0,
        loaded is Err ==> r->Err_0 == loaded->Err_0,
{
}

} // verus!
