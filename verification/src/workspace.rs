//! What the checkout can tell us about itself.
//!
//! Three facts, all of them metadata: the repository, the branch and a
//! project name, and the email that git is configured with. They come from
//! what `git` prints; nothing here opens a source file.
use vstd::prelude::*;
use vstd::string::*;
use vstd::utf8::*;

use crate::text;

verus! {

/// Where an agent is working.
#[derive(Debug)]
pub struct Checkout {
    /// `owner/name`, when the remote says so.
    pub repository: Option<String>,
    /// The current branch.
    pub branch: Option<String>,
    /// A project name: the repository's own name.
    pub project: Option<String>,
    /// Email from the local git config, for identity resolution.
    pub email: Option<String>,
}

/// What one run of `git` left behind.
#[derive(Debug)]
pub struct GitOutput {
    /// Whether it exited with success.
    pub success: bool,
    /// What it printed.
    pub stdout: Vec<u8>,
}

/// A question put to `git`.
#[derive(Debug, Clone, Copy, PartialEq, Eq, Structural)]
pub enum GitQuestion {
    /// Which branch is checked out.
    Branch,
    /// Where `origin` points.
    Remote,
    /// Which email commits carry.
    Email,
}

// ---------------------------------------------------------------------------
// Meaning
// ---------------------------------------------------------------------------

/// The answer in one run of `git`: what it printed, without the whitespace
/// around it, when it succeeded and printed text that is more than blank.
pub open spec fn answer(output: Option<GitOutput>) -> Option<Seq<char>> {
    match output {
        Some(out) => {
            if out.success && valid_utf8(out.stdout@) && text::trimmed(decode_utf8(out.stdout@)).len()
                > 0 {
                Some(text::trimmed(decode_utf8(out.stdout@)))
            } else {
                None
            }
        },
        None => None,
    }
}

/// The part of a remote that holds the owner and the name: behind the colon
/// of `git@host:owner/name`, or behind the host of a URL.
pub open spec fn remote_path(s: Seq<char>) -> Option<Seq<char>> {
    match text::cut_last(s, ':') {
        Some((head, tail)) if !head.contains('/') && !text::has_prefix(tail, "//"@) => Some(tail),
        _ => match text::cut_first(text::after_last(s, "://"@), '/') {
            Some((_, rest)) => Some(rest),
            None => None,
        },
    }
}

/// The last two segments of a path, owner and name, when neither is empty.
pub open spec fn owner_and_name(path: Seq<char>) -> Option<(Seq<char>, Seq<char>)> {
    match text::cut_last(path, '/') {
        Some((before, name)) => {
            let owner = match text::cut_last(before, '/') {
                Some((_, segment)) => segment,
                None => before,
            };
            if owner.len() > 0 && name.len() > 0 {
                Some((owner, name))
            } else {
                None
            }
        },
        None => None,
    }
}

/// A remote without the whitespace around it, the slashes at its end and the
/// `.git` before those.
pub open spec fn bare_remote(remote: Seq<char>) -> Seq<char> {
    let stripped = text::without_trailing(text::trimmed(remote), '/');
    if text::has_suffix(stripped, ".git"@) {
        stripped.take(stripped.len() - ".git"@.len())
    } else {
        stripped
    }
}

/// The repository that a remote names.
pub open spec fn repository_of(remote: Seq<char>) -> Option<Seq<char>> {
    match remote_path(bare_remote(remote)) {
        Some(path) => match owner_and_name(path) {
            Some((owner, name)) => Some(text::lowercased(owner) + "/"@ + text::lowercased(name)),
            None => None,
        },
        None => None,
    }
}

/// A part of a remote between slashes: not empty, and neither a slash nor
/// whitespace in it.
pub open spec fn segment(s: Seq<char>) -> bool {
    &&& s.len() > 0
    &&& forall|i: int| 0 <= i < s.len() ==> #[trigger] s[i] != '/' && !text::whitespace(s[i])
}

/// A segment without a colon.
pub open spec fn plain_segment(s: Seq<char>) -> bool {
    segment(s) && forall|i: int| 0 <= i < s.len() ==> #[trigger] s[i] != ':'
}

/// A remote that ends in a repository, with `.git` behind it or without.
pub open spec fn remote(start: Seq<char>, owner: Seq<char>, name: Seq<char>, git: bool) -> Seq<
    char,
> {
    start + (owner + seq!['/'] + name) + if git {
        ".git"@
    } else {
        Seq::empty()
    }
}

/// The repository `owner/name`.
pub open spec fn repository(owner: Seq<char>, name: Seq<char>) -> Seq<char> {
    text::lowercased(owner) + "/"@ + text::lowercased(name)
}

proof fn lemma_bare(start: Seq<char>, owner: Seq<char>, name: Seq<char>, git: bool)
    requires
        start.len() > 0,
        !text::whitespace(start[0]),
        segment(owner),
        segment(name),
        !text::has_suffix(name, ".git"@),
    ensures
        bare_remote(remote(start, owner, name, git)) == start + (owner + seq!['/'] + name),
{
    reveal_strlit(".git");
    let base = start + (owner + seq!['/'] + name);
    let whole = remote(start, owner, name, git);
    assert(whole[0] == start[0]);
    if git {
        assert(whole.last() == 't');
        assert(whole.take(whole.len() - 4) =~= base);
        assert(whole.skip(whole.len() - 4) =~= ".git"@);
    } else {
        assert(whole =~= base);
        assert(whole.last() == name.last());
        if text::has_suffix(base, ".git"@) {
            if name.len() >= 4 {
                assert(name.skip(name.len() - 4) =~= base.skip(base.len() - 4));
            } else {
                let k = base.len() - name.len() - 1;
                assert(base[k] == '/');
                assert(base.skip(base.len() - 4)[k - (base.len() - 4)] == '/');
            }
        }
    }
    text::lemma_trimmed(whole);
}

proof fn lemma_owner_and_name(owner: Seq<char>, name: Seq<char>)
    requires
        segment(owner),
        segment(name),
    ensures
        owner_and_name(owner + seq!['/'] + name) == Some((owner, name)),
{
    text::lemma_cut_last(owner, '/', name);
    text::lemma_uncut(owner, '/');
}

/// `git@host:owner/name`, with `.git` or without, names the repository.
pub proof fn an_scp_remote_names_its_repository(
    host: Seq<char>,
    owner: Seq<char>,
    name: Seq<char>,
    git: bool,
)
    requires
        plain_segment(host),
        plain_segment(owner),
        plain_segment(name),
        !text::has_suffix(name, ".git"@),
    ensures
        repository_of(remote(host + seq![':'], owner, name, git)) == Some(repository(owner, name)),
{
    let path = owner + seq!['/'] + name;
    lemma_bare(host + seq![':'], owner, name, git);
    assert forall|j: int| 0 <= j < path.len() implies path[j] != ':' by {
        if j < owner.len() {
            assert(path[j] == owner[j]);
        } else if j > owner.len() {
            assert(path[j] == name[j - owner.len() - 1]);
        }
    }
    text::lemma_cut_last(host, ':', path);
    reveal_strlit("//");
    if text::has_prefix(path, "//"@) {
        assert(path.take(2)[0] == owner[0]);
    }
    lemma_owner_and_name(owner, name);
}

/// `scheme://host/owner/name`, with `.git` or without, names the repository.
/// The host may come with a user and a port.
pub proof fn a_url_remote_names_its_repository(
    scheme: Seq<char>,
    host: Seq<char>,
    owner: Seq<char>,
    name: Seq<char>,
    git: bool,
)
    requires
        plain_segment(scheme),
        segment(host),
        plain_segment(owner),
        plain_segment(name),
        !text::has_suffix(name, ".git"@),
    ensures
        repository_of(remote(scheme + "://"@ + host + seq!['/'], owner, name, git)) == Some(
            repository(owner, name),
        ),
{
    reveal_strlit("://");
    reveal_strlit("//");
    let path = owner + seq!['/'] + name;
    let start = scheme + "://"@ + host + seq!['/'];
    let bare = start + path;
    let rest = host + seq!['/'] + path;
    lemma_bare(start, owner, name, git);
    assert(bare =~= scheme + "://"@ + rest);
    assert forall|j: int| 0 <= j < path.len() implies path[j] != ':' by {
        if j < owner.len() {
            assert(path[j] == owner[j]);
        } else if j > owner.len() {
            assert(path[j] == name[j - owner.len() - 1]);
        }
    }
    // Behind the last colon stands either the rest of `//host/...` or a port
    // with everything from the scheme on before it.
    text::lemma_last_index(bare, ':');
    let n = scheme.len() as int;
    assert(bare[n] == ':' && bare[n + 1] == '/' && bare[n + 2] == '/');
    let (head, tail) = text::cut_last(bare, ':')->0;
    if head.contains('/') || text::has_prefix(tail, "//"@) {
    } else {
        let i = text::last_index(bare, ':')->0;
        assert(i >= n);
        if i == n {
            assert(tail.take(2) =~= "//"@);
        } else {
            assert(head[n + 1] == '/');
        }
    }
    text::lemma_first_occurrence(scheme, "://"@, rest);
    assert(bare.skip(n + 3) =~= rest);
    lemma_no_scheme(host, path);
    assert(text::after_last(bare, "://"@) == text::after_last(rest, "://"@));
    text::lemma_cut_first(host, '/', path);
    lemma_owner_and_name(owner, name);
}

proof fn lemma_no_scheme(host: Seq<char>, path: Seq<char>)
    requires
        segment(host),
        forall|j: int| 0 <= j < path.len() ==> path[j] != ':',
        path.len() > 0,
        path[0] != '/',
    ensures
        text::first_occurrence(host + seq!['/'] + path, "://"@) is None,
    decreases host.len(),
{
    reveal_strlit("://");
    let s = host + seq!['/'] + path;
    let rest = s.drop_first();
    assert(s[0] == host[0]);
    if text::has_prefix(s, "://"@) {
        assert(s.take(3)[0] == ':' && s.take(3)[1] == '/' && s.take(3)[2] == '/');
        assert(s[1] == '/' && s[2] == '/');
        if host.len() > 1 {
            assert(s[1] == host[1]);
        } else {
            assert(s[2] == path[0]);
        }
    }
    if host.len() > 1 {
        assert(rest =~= host.drop_first() + seq!['/'] + path);
        lemma_no_scheme(host.drop_first(), path);
    } else {
        assert forall|j: int| 0 <= j < rest.len() implies rest[j] != ':' by {
            if j > 0 {
                assert(rest[j] == path[j - 1]);
            }
        }
        text::lemma_no_occurrence(rest, "://"@);
    }
}

/// The project that a repository belongs to: its second segment.
pub open spec fn project_of(repository: Seq<char>) -> Option<Seq<char>> {
    let segments = text::pieces(repository, '/');
    if segments.len() > 1 {
        Some(segments[1])
    } else {
        None
    }
}

/// The facts in a `Checkout`, as text.
pub struct CheckoutView {
    pub repository: Option<Seq<char>>,
    pub branch: Option<Seq<char>>,
    pub project: Option<Seq<char>>,
    pub email: Option<Seq<char>>,
}

impl View for Checkout {
    type V = CheckoutView;

    open spec fn view(&self) -> CheckoutView {
        CheckoutView {
            repository: text::optional(self.repository),
            branch: text::optional(self.branch),
            project: text::optional(self.project),
            email: text::optional(self.email),
        }
    }
}

/// What three runs of `git` say of a checkout. A detached `HEAD` is no branch.
pub open spec fn checkout_of(
    branch: Option<GitOutput>,
    remote: Option<GitOutput>,
    email: Option<GitOutput>,
) -> CheckoutView {
    let repository = match answer(remote) {
        Some(url) => repository_of(url),
        None => None,
    };
    CheckoutView {
        repository,
        branch: match answer(branch) {
            Some(name) if name != "HEAD"@ => Some(name),
            _ => None,
        },
        project: match repository {
            Some(name) => project_of(name),
            None => None,
        },
        email: answer(email),
    }
}

// ---------------------------------------------------------------------------
// Functions
// ---------------------------------------------------------------------------

/// `owner/name` from any of the shapes a git remote comes in.
///
/// `git@github.com:klik/nova-api.git`, `https://github.com/klik/nova-api`,
/// `ssh://git@github.com/klik/nova-api.git`. Lower-cased, because repository
/// names are compared that way, and one that matched only when somebody typed
/// the right capitals would be worse than one that never matched at all.
pub fn parse_remote(remote: &str) -> (r: Option<String>)
    ensures
        text::optional(r) == repository_of(remote@),
        r is Some ==> text::no_capitals(r->0@),
{
    let trimmed = text::trim_end_of(text::trim(remote), '/');
    let without_git = match text::strip_suffix(trimmed, ".git") {
        Some(rest) => rest,
        None => trimmed,
    };
    proof {
        reveal_strlit("://");
    }
    let mut path: Option<&str> = None;
    if let Some((head, tail)) = text::rsplit_once(without_git, ':') {
        if !text::has_char(head, '/') && !text::starts_with(tail, "//") {
            path = Some(tail);
        }
    }
    let tail: &str = match path {
        Some(tail) => tail,
        None => match text::split_once(text::behind_last(without_git, "://"), '/') {
            Some((_, rest)) => rest,
            None => {
                return None;
            },
        },
    };
    let (before, name) = match text::rsplit_once(tail, '/') {
        Some(cut) => cut,
        None => {
            return None;
        },
    };
    let owner = match text::rsplit_once(before, '/') {
        Some((_, segment)) => segment,
        None => before,
    };
    if owner.is_empty() || name.is_empty() {
        return None;
    }
    proof {
        reveal_strlit("/");
    }
    let mut out = text::lowercase(owner);
    out.append("/");
    out.append(text::lowercase(name).as_str());
    Some(out)
}

/// The arguments that put a question to `git` about the checkout at `dir`.
pub fn git_arguments(dir: &str, question: GitQuestion) -> (r: Vec<String>)
    ensures
        text::texts(r@) == seq!["-C"@, dir@] + match question {
            GitQuestion::Branch => seq!["rev-parse"@, "--abbrev-ref"@, "HEAD"@],
            GitQuestion::Remote => seq!["remote"@, "get-url"@, "origin"@],
            GitQuestion::Email => seq!["config"@, "--get"@, "user.email"@],
        },
{
    let (a, b, c) = match question {
        GitQuestion::Branch => ("rev-parse", "--abbrev-ref", "HEAD"),
        GitQuestion::Remote => ("remote", "get-url", "origin"),
        GitQuestion::Email => ("config", "--get", "user.email"),
    };
    let r: Vec<String> = vec!["-C".to_owned(), dir.to_owned(), a.to_owned(), b.to_owned(), c.to_owned()];
    assert(text::texts(r@) =~= seq!["-C"@, dir@, a@, b@, c@]);
    r
}

/// The answer in one run of `git`; none when it could not be run, failed, or
/// had nothing to say.
pub fn git(output: Option<GitOutput>) -> (r: Option<String>)
    ensures
        text::optional(r) == answer(output),
{
    match output {
        Some(out) => {
            if !out.success {
                return None;
            }
            match text::utf8(out.stdout) {
                Some(printed) => {
                    let value = text::trim(printed.as_str());
                    if value.is_empty() {
                        None
                    } else {
                        Some(value.to_owned())
                    }
                },
                None => None,
            }
        },
        None => None,
    }
}

/// What the runs of `git` in a checkout say about it.
///
/// Every field is optional and a failure is silence: an agent working outside
/// a repository is a normal case, and losing presence over it would be absurd.
pub fn inspect(
    branch: Option<GitOutput>,
    remote: Option<GitOutput>,
    email: Option<GitOutput>,
) -> (r: Checkout)
    ensures
        r.view() == checkout_of(branch, remote, email),
{
    let branch = match git(branch) {
        Some(name) => if text::same(name.as_str(), "HEAD") {
            None
        } else {
            Some(name)
        },
        None => None,
    };
    let repository = match git(remote) {
        Some(url) => parse_remote(url.as_str()),
        None => None,
    };
    let project: Option<String> = match &repository {
        Some(name) => {
            let segments = text::split(name.as_str(), '/');
            if segments.len() > 1 {
                assert(text::texts(segments@)[1] == segments@[1]@);
                Some(segments[1].clone())
            } else {
                None
            }
        },
        None => None,
    };
    Checkout { repository, branch, project, email: git(email) }
}

// ---------------------------------------------------------------------------
// What git says is what is known
// ---------------------------------------------------------------------------

/// A run of `git` succeeded and printed `said`, with whitespace around it or
/// not.
pub open spec fn printed(
    output: Option<GitOutput>,
    before: Seq<char>,
    said: Seq<char>,
    after: Seq<char>,
) -> bool {
    &&& output is Some
    &&& output->0.success
    &&& valid_utf8(output->0.stdout@)
    &&& decode_utf8(output->0.stdout@) == before + said + after
    &&& text::blank(before)
    &&& text::blank(after)
    &&& said.len() > 0
    &&& !text::whitespace(said[0])
    &&& !text::whitespace(said.last())
}

/// A run of `git` said nothing: it could not be run, it failed, or what it
/// printed is blank or no text.
pub open spec fn said_nothing(output: Option<GitOutput>) -> bool {
    ||| output is None
    ||| !output->0.success
    ||| !valid_utf8(output->0.stdout@)
    ||| text::blank(decode_utf8(output->0.stdout@))
}

/// The branch of a checkout is the name that git printed, whatever is in it; a
/// detached `HEAD` is no branch.
pub proof fn the_branch_is_what_git_printed(
    before: Seq<char>,
    name: Seq<char>,
    after: Seq<char>,
    branch: Option<GitOutput>,
    remote: Option<GitOutput>,
    email: Option<GitOutput>,
    r: Checkout,
)
    requires
        call_ensures(inspect, (branch, remote, email), r),
        printed(branch, before, name, after),
    ensures
        name != "HEAD"@ ==> r.branch is Some && r.branch->0@ == name,
        name == "HEAD"@ ==> r.branch is None,
{
    text::whitespace_around_a_text_is_trimmed(before, name, after);
    assert(r@.branch == text::optional(r.branch));
}

/// The email of a checkout is the one that git printed.
pub proof fn the_email_is_what_git_printed(
    before: Seq<char>,
    address: Seq<char>,
    after: Seq<char>,
    branch: Option<GitOutput>,
    remote: Option<GitOutput>,
    email: Option<GitOutput>,
    r: Checkout,
)
    requires
        call_ensures(inspect, (branch, remote, email), r),
        printed(email, before, address, after),
    ensures
        r.email is Some && r.email->0@ == address,
{
    text::whitespace_around_a_text_is_trimmed(before, address, after);
    assert(r@.email == text::optional(r.email));
}

/// The repository of a checkout is the one that the remote names which git
/// printed.
pub proof fn the_repository_is_what_the_remote_names(
    before: Seq<char>,
    url: &str,
    after: Seq<char>,
    branch: Option<GitOutput>,
    remote: Option<GitOutput>,
    email: Option<GitOutput>,
    r: Checkout,
    named: Option<String>,
)
    requires
        call_ensures(inspect, (branch, remote, email), r),
        call_ensures(parse_remote, (url,), named),
        printed(remote, before, url@, after),
    ensures
        r.repository is Some <==> named is Some,
        r.repository is Some ==> r.repository->0@ == named->0@,
{
    text::whitespace_around_a_text_is_trimmed(before, url@, after);
    assert(r@.repository == text::optional(r.repository));
}

/// The project of a checkout is the name of its repository, without the owner;
/// there is none where there is no repository.
pub proof fn the_project_is_the_name_of_the_repository(
    branch: Option<GitOutput>,
    remote: Option<GitOutput>,
    email: Option<GitOutput>,
    r: Checkout,
    owner: Seq<char>,
    name: Seq<char>,
)
    requires
        call_ensures(inspect, (branch, remote, email), r),
        segment(owner),
        segment(name),
    ensures
        r.repository is Some && r.repository->0@ == owner + seq!['/'] + name ==> r.project is Some
            && r.project->0@ == name,
        r.repository is None ==> r.project is None,
{
    assert(r@.repository == text::optional(r.repository));
    assert(r@.project == text::optional(r.project));
    if r.repository is Some && r.repository->0@ == owner + seq!['/'] + name {
        text::lemma_two_pieces(owner, '/', name);
        assert(seq![owner, name][1] == name);
    }
}

/// What git does not say is not known, and the rest is not worse off for it: a
/// failure is silence, of one fact alone.
pub proof fn a_failure_of_git_is_silence(
    branch: Option<GitOutput>,
    remote: Option<GitOutput>,
    email: Option<GitOutput>,
    r: Checkout,
)
    requires
        call_ensures(inspect, (branch, remote, email), r),
    ensures
        said_nothing(branch) ==> r.branch is None,
        said_nothing(remote) ==> r.repository is None && r.project is None,
        said_nothing(email) ==> r.email is None,
{
    assert(r@.branch == text::optional(r.branch));
    assert(r@.repository == text::optional(r.repository));
    assert(r@.project == text::optional(r.project));
    assert(r@.email == text::optional(r.email));
    lemma_no_answer(branch);
    lemma_no_answer(remote);
    lemma_no_answer(email);
}

proof fn lemma_no_answer(output: Option<GitOutput>)
    ensures
        said_nothing(output) ==> answer(output) is None,
{
    match output {
        Some(out) => {
            if text::blank(decode_utf8(out.stdout@)) {
                text::a_blank_text_is_trimmed_away(decode_utf8(out.stdout@));
            }
        },
        None => {},
    }
}

/// One fact about a checkout does not depend on the runs of git for the others.
pub proof fn each_fact_has_its_own_source(
    branch: Option<GitOutput>,
    remote: Option<GitOutput>,
    email: Option<GitOutput>,
    r: Checkout,
    other_branch: Option<GitOutput>,
    other_remote: Option<GitOutput>,
    other_email: Option<GitOutput>,
    other: Checkout,
)
    requires
        call_ensures(inspect, (branch, remote, email), r),
        call_ensures(inspect, (other_branch, other_remote, other_email), other),
    ensures
        branch == other_branch ==> r@.branch == other@.branch,
        remote == other_remote ==> r@.repository == other@.repository && r@.project
            == other@.project,
        email == other_email ==> r@.email == other@.email,
{
}

/// Git is asked about the directory, whichever it is, and every question is
/// another: two that are put with the same words are the same question about
/// the same directory.
pub proof fn git_is_asked_about_the_directory(
    a: &str,
    p: GitQuestion,
    b: &str,
    q: GitQuestion,
    x: Vec<String>,
    y: Vec<String>,
)
    requires
        call_ensures(git_arguments, (a, p), x),
        call_ensures(git_arguments, (b, q), y),
    ensures
        x@.len() == 5,
        x@[0]@ == "-C"@,
        x@[1]@ == a@,
        p == GitQuestion::Branch ==> x@[2]@ == "rev-parse"@ && x@[3]@ == "--abbrev-ref"@ && x@[4]@
            == "HEAD"@,
        p == GitQuestion::Remote ==> x@[2]@ == "remote"@ && x@[3]@ == "get-url"@ && x@[4]@
            == "origin"@,
        p == GitQuestion::Email ==> x@[2]@ == "config"@ && x@[3]@ == "--get"@ && x@[4]@
            == "user.email"@,
        text::texts(x@) == text::texts(y@) <==> a@ == b@ && p == q,
{
    reveal_strlit("rev-parse");
    reveal_strlit("remote");
    reveal_strlit("config");
    assert("rev-parse"@.len() == 9);
    assert("remote"@[0] != "config"@[0]);
    let (s, t) = (text::texts(x@), text::texts(y@));
    assert(s.len() == 5);
    assert(s[0] == x@[0]@);
    assert(s[1] == x@[1]@);
    assert(s[2] == x@[2]@);
    assert(s[3] == x@[3]@);
    assert(s[4] == x@[4]@);
    assert(s[1] == a@);
    assert(t[1] == b@);
    if a@ == b@ && p == q {
        assert(s =~= t);
    }
}

} // verus!
