//! Where the token lives.
//!
//! A file of mode `0600` in a directory of mode `0700`, under the user's
//! configuration directory. [`Store`] is there so that another place, such as
//! the keychain of an operating system, is one implementation and no call
//! site.
use vstd::prelude::*;
use vstd::string::*;

use crate::failure;
use crate::failure::Failure;
use crate::path;
use crate::text;

verus! {

/// What `kintri login` saved.
#[derive(Debug)]
pub struct Credentials {
    /// Base URL of the gateway.
    pub gateway_url: String,
    /// The platform the developer logged in to, which is the address a person
    /// recognises. Absent when only a token was pasted.
    pub workspace_url: Option<String>,
    /// The workspace's display name, as the approval page reported it.
    pub workspace: Option<String>,
    /// The workspace token. Never logged, never printed, never sent anywhere
    /// but the gateway's `Authorization` header.
    pub token: String,
}

/// Credentials, mathematically.
pub struct CredentialsView {
    pub gateway_url: Seq<char>,
    pub workspace_url: Option<Seq<char>>,
    pub workspace: Option<Seq<char>>,
    pub token: Seq<char>,
}

impl View for Credentials {
    type V = CredentialsView;

    open spec fn view(&self) -> CredentialsView {
        CredentialsView {
            gateway_url: self.gateway_url@,
            workspace_url: text::optional(self.workspace_url),
            workspace: text::optional(self.workspace),
            token: self.token@,
        }
    }
}

impl CredentialsView {
    /// Where the developer thinks of themselves as logged in.
    pub open spec fn home(self) -> Seq<char> {
        match self.workspace_url {
            Some(url) => url,
            None => self.gateway_url,
        }
    }
}

/// The last four characters, or all of them when there are fewer.
pub open spec fn tail(token: Seq<char>) -> Seq<char> {
    if token.len() > 4 {
        token.skip(token.len() - 4)
    } else {
        token
    }
}

impl Credentials {
    /// Where the developer thinks of themselves as logged in: the platform
    /// they signed in at, or the gateway when only a token was pasted.
    pub fn home(&self) -> (r: &str)
        ensures
            r@ == self@.home(),
    {
        match &self.workspace_url {
            Some(url) => url.as_str(),
            None => self.gateway_url.as_str(),
        }
    }

    /// `Bearer <token>`.
    pub fn header(&self) -> (r: String)
        ensures
            r@ == "Bearer "@ + self@.token,
    {
        let mut out: String = "Bearer ".to_owned();
        out.append(self.token.as_str());
        out
    }

    /// An ellipsis and the last four characters of the token: enough to tell
    /// two tokens apart, not enough to be one.
    pub fn fingerprint(&self) -> (r: String)
        ensures
            r@ == "…"@ + tail(self@.token),
    {
        let n = self.token.as_str().unicode_len();
        let start: usize = if n > 4 {
            n - 4
        } else {
            0
        };
        assert(self.token@.subrange(start as int, n as int) =~= tail(self.token@));
        let mut out: String = "…".to_owned();
        out.append(self.token.as_str().substring_char(start, n));
        out
    }
}

/// What the fingerprint shows depends on the last four characters of the
/// token, and on nothing before them: two long tokens that end alike look
/// alike.
pub proof fn a_fingerprint_reveals_the_tail_alone(a: Seq<char>, b: Seq<char>)
    requires
        a.len() > 4,
        b.len() > 4,
        a.skip(a.len() - 4) == b.skip(b.len() - 4),
    ensures
        tail(a) == tail(b),
        tail(a).len() == 4,
{
}

/// Somewhere credentials can be kept.
pub trait Store {
    /// Read them, or `None` if nobody has logged in.
    fn load(&self) -> Result<Option<Credentials>, Failure>;

    /// Write them, replacing whatever was there.
    fn save(&self, credentials: &Credentials) -> Result<(), Failure>;

    /// Remove them. Not an error if there were none.
    fn clear(&self) -> Result<(), Failure>;

    /// Where they are, for a person to read.
    fn describe(&self) -> String;
}

/// A file in the user's configuration directory that only the user can read.
#[derive(Debug)]
pub struct FileStore {
    pub path: String,
}

/// The directory for the configuration: the one that was named, or `kintri` in
/// the user's configuration directory, or `.config/kintri` in their home.
pub open spec fn config_dir(
    named: Option<Seq<char>>,
    xdg: Option<Seq<char>>,
    home: Option<Seq<char>>,
) -> Option<Seq<char>> {
    match (named, xdg, home) {
        (Some(dir), _, _) => Some(dir),
        (None, Some(dir), _) => Some(path::joined(dir, "kintri"@)),
        (None, None, Some(dir)) => Some(
            path::joined(path::joined(dir, ".config"@), "kintri"@),
        ),
        (None, None, None) => None,
    }
}

/// The mode of a directory that only the user can enter.
pub const PRIVATE_DIRECTORY: u32 = 0o700;

/// The mode of a file that only the user can read and write.
pub const PRIVATE_FILE: u32 = 0o600;

/// One step of writing the file.
#[derive(Debug)]
pub enum FileStep {
    /// Create a directory and those above it.
    CreateDirectory(String),
    /// Set the mode of a file or a directory.
    Restrict(String, u32),
    /// Create a file, or empty it.
    Create(String),
    /// Write the credentials into a file.
    Write(String),
    /// Wait until a file has reached the disk.
    Sync(String),
    /// Give a file another name, in place of what had it.
    Rename(String, String),
}

/// A step, mathematically.
pub enum FileStepView {
    CreateDirectory(Seq<char>),
    Restrict(Seq<char>, u32),
    Create(Seq<char>),
    Write(Seq<char>),
    Sync(Seq<char>),
    Rename(Seq<char>, Seq<char>),
}

impl View for FileStep {
    type V = FileStepView;

    open spec fn view(&self) -> FileStepView {
        match self {
            FileStep::CreateDirectory(p) => FileStepView::CreateDirectory(p@),
            FileStep::Restrict(p, mode) => FileStepView::Restrict(p@, *mode),
            FileStep::Create(p) => FileStepView::Create(p@),
            FileStep::Write(p) => FileStepView::Write(p@),
            FileStep::Sync(p) => FileStepView::Sync(p@),
            FileStep::Rename(from, to) => FileStepView::Rename(from@, to@),
        }
    }
}

impl FileStepView {
    /// What could not be done, when the step fails.
    pub open spec fn undone(self) -> Seq<char> {
        match self {
            FileStepView::CreateDirectory(_) => "create config directory"@,
            FileStepView::Restrict(p, _) => "set permissions on "@ + p,
            FileStepView::Create(_) => "create credentials file"@,
            FileStepView::Write(_) => "write credentials"@,
            FileStepView::Sync(_) => "flush credentials"@,
            FileStepView::Rename(_, _) => "install credentials"@,
        }
    }

    /// Whether the step can change what a file of that name holds.
    pub open spec fn changes(self, name: Seq<char>) -> bool {
        match self {
            FileStepView::CreateDirectory(_) => false,
            FileStepView::Restrict(_, _) => false,
            FileStepView::Create(p) => p == name,
            FileStepView::Write(p) => p == name,
            FileStepView::Sync(_) => false,
            FileStepView::Rename(from, to) => from == name || to == name,
        }
    }
}

/// The name that the file has while it is written.
pub open spec fn temporary(name: Seq<char>) -> Seq<char> {
    name + ".tmp"@
}

/// The steps that write the file called `name`: through a temporary file
/// beside it, which is restricted before anything is in it and takes the name
/// once it is whole.
pub open spec fn save_steps(name: Seq<char>) -> Seq<FileStepView> {
    seq![
        FileStepView::CreateDirectory(path::parent(name)),
        FileStepView::Restrict(path::parent(name), PRIVATE_DIRECTORY),
        FileStepView::Create(temporary(name)),
        FileStepView::Restrict(temporary(name), PRIVATE_FILE),
        FileStepView::Write(temporary(name)),
        FileStepView::Sync(temporary(name)),
        FileStepView::Rename(temporary(name), name),
        FileStepView::Restrict(name, PRIVATE_FILE),
    ]
}

/// A write that is interrupted, at whatever step, leaves no half-written
/// credentials behind: the file changes in one step alone, by which it takes
/// the place of a file that was written and has reached the disk.
pub proof fn an_interrupted_save_leaves_no_half_token(name: Seq<char>, k: int)
    requires
        0 <= k < save_steps(name).len(),
        save_steps(name)[k].changes(name),
    ensures
        save_steps(name)[k] == FileStepView::Rename(temporary(name), name),
        exists|i: int, j: int|
            0 <= i < j < k && save_steps(name)[i] == FileStepView::Write(temporary(name))
                && save_steps(name)[j] == FileStepView::Sync(temporary(name)),
{
    reveal_strlit(".tmp");
    assert(temporary(name).len() == name.len() + 4);
    assert(save_steps(name)[4] == FileStepView::Write(temporary(name)));
    assert(save_steps(name)[5] == FileStepView::Sync(temporary(name)));
}

/// Nobody else can read the token at any time: what it is written into was
/// made private before, and takes its place under the name as it is.
pub proof fn a_token_is_private_before_it_is_written(name: Seq<char>, k: int, target: Seq<char>)
    requires
        0 <= k < save_steps(name).len(),
        save_steps(name)[k] == FileStepView::Write(target),
    ensures
        exists|i: int|
            0 <= i < k && save_steps(name)[i] == FileStepView::Restrict(target, PRIVATE_FILE),
{
    assert(save_steps(name)[3] == FileStepView::Restrict(temporary(name), PRIVATE_FILE));
}

impl FileStep {
    /// The failure that a step leaves behind, for what the system said.
    pub fn failure(&self, cause: &str) -> (r: Failure)
        ensures
            r@ == failure::caused(self@.undone(), cause@),
    {
        match self {
            FileStep::CreateDirectory(_) => Failure::because("create config directory", cause),
            FileStep::Restrict(p, _) => restrict(p.as_str(), cause),
            FileStep::Create(_) => Failure::because("create credentials file", cause),
            FileStep::Write(_) => Failure::because("write credentials", cause),
            FileStep::Sync(_) => Failure::because("flush credentials", cause),
            FileStep::Rename(_, _) => Failure::because("install credentials", cause),
        }
    }
}

/// The failure of a mode that could not be set.
pub fn restrict(path: &str, cause: &str) -> (r: Failure)
    ensures
        r@ == failure::caused("set permissions on "@ + path@, cause@),
{
    let mut summary: String = "set permissions on ".to_owned();
    summary.append(path);
    Failure::because(summary.as_str(), cause)
}

/// What came of reading the file.
#[derive(Debug)]
pub enum ReadOutcome {
    /// It holds these credentials.
    Held(Credentials),
    /// It holds something else.
    Malformed(String),
    /// There is no such file.
    Missing,
    /// The system did not let it be read.
    Unreadable(String),
}

/// What came of removing the file.
#[derive(Debug)]
pub enum RemoveOutcome {
    Removed,
    Missing,
    Failed(String),
}

impl FileStore {
    /// The file in `$KINTRI_CONFIG_DIR`, else in `$XDG_CONFIG_HOME/kintri`,
    /// else in `~/.config/kintri`.
    pub fn discover(
        named: Option<String>,
        xdg: Option<String>,
        home: Option<String>,
    ) -> (r: Result<FileStore, Failure>)
        ensures
            match config_dir(text::optional(named), text::optional(xdg), text::optional(home)) {
                Some(dir) => r is Ok && r->Ok_0.path@ == path::joined(dir, "credentials.json"@),
                None => r is Err && r->Err_0@ == failure::plain(
                    "neither HOME nor XDG_CONFIG_HOME is set"@,
                ),
            },
    {
        let dir: String = match named {
            Some(dir) => dir,
            None => match xdg {
                Some(dir) => path::join(dir.as_str(), "kintri"),
                None => match home {
                    Some(dir) => path::join(
                        path::join(dir.as_str(), ".config").as_str(),
                        "kintri",
                    ),
                    None => {
                        return Err(Failure::new("neither HOME nor XDG_CONFIG_HOME is set"));
                    },
                },
            },
        };
        Ok(FileStore { path: path::join(dir.as_str(), "credentials.json") })
    }

    /// The directory holding the credentials and the daemon's socket.
    pub fn dir(&self) -> (r: &str)
        ensures
            r@ == path::parent(self.path@),
    {
        path::parent_of(self.path.as_str())
    }

    /// The steps that write the file.
    pub fn save_plan(&self) -> (r: Vec<FileStep>)
        ensures
            r@.map_values(|step: FileStep| step@) == save_steps(self.path@),
    {
        let mut tmp: String = self.path.clone();
        tmp.append(".tmp");
        let dir: String = self.dir().to_owned();
        let mut steps: Vec<FileStep> = Vec::new();
        steps.push(FileStep::CreateDirectory(dir.clone()));
        steps.push(FileStep::Restrict(dir, PRIVATE_DIRECTORY));
        steps.push(FileStep::Create(tmp.clone()));
        steps.push(FileStep::Restrict(tmp.clone(), PRIVATE_FILE));
        steps.push(FileStep::Write(tmp.clone()));
        steps.push(FileStep::Sync(tmp.clone()));
        steps.push(FileStep::Rename(tmp, self.path.clone()));
        steps.push(FileStep::Restrict(self.path.clone(), PRIVATE_FILE));
        assert(steps@.map_values(|step: FileStep| step@) =~= save_steps(self.path@));
        steps
    }

    /// The credentials, for what came of reading the file: a file that is not
    /// there is nobody logged in.
    pub fn loaded(outcome: ReadOutcome) -> (r: Result<Option<Credentials>, Failure>)
        ensures
            match outcome {
                ReadOutcome::Held(c) => r is Ok && r->Ok_0 == Some(c),
                ReadOutcome::Missing => r is Ok && r->Ok_0 is None,
                ReadOutcome::Malformed(e) => r is Err && r->Err_0@ == failure::caused(
                    "credentials file is not valid JSON"@,
                    e@,
                ),
                ReadOutcome::Unreadable(e) => r is Err && r->Err_0@ == failure::caused(
                    "read credentials"@,
                    e@,
                ),
            },
    {
        match outcome {
            ReadOutcome::Held(c) => Ok(Some(c)),
            ReadOutcome::Missing => Ok(None),
            ReadOutcome::Malformed(e) => Err(
                Failure::because("credentials file is not valid JSON", e.as_str()),
            ),
            ReadOutcome::Unreadable(e) => Err(Failure::because("read credentials", e.as_str())),
        }
    }

    /// Whether the credentials are gone, for what came of removing the file: a
    /// file that was not there is gone too.
    pub fn cleared(outcome: RemoveOutcome) -> (r: Result<(), Failure>)
        ensures
            match outcome {
                RemoveOutcome::Failed(e) => r is Err && r->Err_0@ == failure::caused(
                    "remove credentials"@,
                    e@,
                ),
                _ => r is Ok,
            },
    {
        match outcome {
            RemoveOutcome::Failed(e) => Err(Failure::because("remove credentials", e.as_str())),
            _ => Ok(()),
        }
    }
}

// ---------------------------------------------------------------------------
// What is kept, and where
// ---------------------------------------------------------------------------

/// The header carries the token, the whole of it and nothing else.
pub proof fn the_header_carries_the_token(a: Credentials, b: Credentials, x: String, y: String)
    requires
        call_ensures(Credentials::header, (&a,), x),
        call_ensures(Credentials::header, (&b,), y),
    ensures
        text::has_prefix(x@, "Bearer "@),
        x@.skip(7) == a.token@,
        x@ == y@ <==> a.token@ == b.token@,
{
    reveal_strlit("Bearer ");
    assert(x@.take(7) =~= "Bearer "@);
    assert(x@.skip(7) =~= a.token@);
    assert(y@.skip(7) =~= b.token@);
}

/// A person is at home at the platform they logged in to, and at the gateway
/// only when there is no platform.
pub proof fn a_person_is_at_home_at_their_platform(c: Credentials, r: &str)
    requires
        call_ensures(Credentials::home, (&c,), r),
    ensures
        c.workspace_url is Some ==> r@ == c.workspace_url->0@,
        c.workspace_url is None ==> r@ == c.gateway_url@,
{
    assert(c@.workspace_url == text::optional(c.workspace_url));
    assert(c@.gateway_url == c.gateway_url@);
}

/// A fingerprint shows the last four characters of a token and is too short to
/// be one.
pub proof fn a_fingerprint_is_no_token(c: Credentials, r: String)
    requires
        call_ensures(Credentials::fingerprint, (&c,), r),
        c.token@.len() > 5,
    ensures
        r@.len() == 5,
        forall|k: int| 0 <= k < 4 ==> r@[k + 1] == #[trigger] c.token@[c.token@.len() - 4 + k],
        !text::stands_in(c.token@, r@),
{
    reveal_strlit("…");
    assert(c@.token == c.token@);
    let end = tail(c.token@);
    assert(r@ =~= "…"@ + end);
    assert forall|k: int| 0 <= k < 4 implies r@[k + 1] == #[trigger] c.token@[c.token@.len() - 4
        + k] by {
        assert(r@[k + 1] == end[k]);
    }
}

/// The credentials are in the directory that was named; in the user's
/// configuration directory only when none was named; in their home only when
/// there is none either.
pub proof fn the_credentials_are_where_they_are_looked_for(
    named: Option<String>,
    xdg: Option<String>,
    home: Option<String>,
    r: Result<FileStore, Failure>,
)
    requires
        call_ensures(FileStore::discover, (named, xdg, home), r),
    ensures
        r is Ok <==> named is Some || xdg is Some || home is Some,
        named is Some ==> r->Ok_0.path@ == path::joined(named->0@, "credentials.json"@),
        named is None && xdg is Some ==> r->Ok_0.path@ == path::joined(
            path::joined(xdg->0@, "kintri"@),
            "credentials.json"@,
        ),
        named is None && xdg is None && home is Some ==> r->Ok_0.path@ == path::joined(
            path::joined(path::joined(home->0@, ".config"@), "kintri"@),
            "credentials.json"@,
        ),
{
}

/// The daemon's files are beside the credentials: in the directory that was
/// named.
pub proof fn everything_is_in_the_directory_that_was_named(
    named: Option<String>,
    xdg: Option<String>,
    home: Option<String>,
    r: Result<FileStore, Failure>,
    dir: &str,
)
    requires
        named is Some,
        call_ensures(FileStore::discover, (named, xdg, home), r),
        r is Ok,
        call_ensures(FileStore::dir, (&r->Ok_0,), dir),
    ensures
        dir@ == path::tidy(named->0@),
{
    reveal_strlit("credentials.json");
    path::a_file_is_where_it_was_put(named->0@, "credentials.json"@);
}

/// The modes let the user read and write, and nobody else do anything.
pub proof fn nobody_else_is_let_in()
    ensures
        PRIVATE_FILE % 64 == 0,
        PRIVATE_FILE / 64 == 6,
        PRIVATE_DIRECTORY % 64 == 0,
        PRIVATE_DIRECTORY / 64 == 7,
{
}

/// At which step of a plan a step is taken.
pub open spec fn taken_at(steps: Seq<FileStep>, k: int, step: FileStepView) -> bool {
    0 <= k < steps.len() && steps[k]@ == step
}

/// A save leaves the credentials under their own name, in a directory that was
/// made for them and closed to others before anything was put in it; and what
/// has the name is closed to others again at the end.
#[verifier::spinoff_prover]
pub proof fn a_save_is_complete(store: FileStore, r: Vec<FileStep>, dir: &str)
    requires
        call_ensures(FileStore::save_plan, (&store,), r),
        call_ensures(FileStore::dir, (&store,), dir),
    ensures
        exists|made: int, closed: int, created: int, hidden: int, written: int, synced: int, put: int,
            kept: int|
            {
                &&& made < closed < created < hidden < written < synced < put < kept
                &&& #[trigger] taken_at(r@, made, FileStepView::CreateDirectory(dir@))
                &&& #[trigger] taken_at(r@, closed, FileStepView::Restrict(dir@, PRIVATE_DIRECTORY))
                &&& #[trigger] taken_at(r@, created, FileStepView::Create(temporary(store.path@)))
                &&& #[trigger] taken_at(
                    r@,
                    hidden,
                    FileStepView::Restrict(temporary(store.path@), PRIVATE_FILE),
                )
                &&& #[trigger] taken_at(r@, written, FileStepView::Write(temporary(store.path@)))
                &&& #[trigger] taken_at(r@, synced, FileStepView::Sync(temporary(store.path@)))
                &&& #[trigger] taken_at(
                    r@,
                    put,
                    FileStepView::Rename(temporary(store.path@), store.path@),
                )
                &&& #[trigger] taken_at(r@, kept, FileStepView::Restrict(store.path@, PRIVATE_FILE))
            },
        temporary(store.path@) != store.path@,
{
    reveal_strlit(".tmp");
    assert(temporary(store.path@).len() == store.path@.len() + 4);
    let views = r@.map_values(|step: FileStep| step@);
    let name = store.path@;
    assert(views.len() == 8);
    assert forall|k: int| 0 <= k < 8 implies r@[k]@ == #[trigger] save_steps(name)[k] by {
        assert(views[k] == r@[k]@);
    }
    assert(save_steps(name)[0] == FileStepView::CreateDirectory(dir@));
    assert(save_steps(name)[1] == FileStepView::Restrict(dir@, PRIVATE_DIRECTORY));
    assert(save_steps(name)[2] == FileStepView::Create(temporary(name)));
    assert(save_steps(name)[3] == FileStepView::Restrict(temporary(name), PRIVATE_FILE));
    assert(save_steps(name)[4] == FileStepView::Write(temporary(name)));
    assert(save_steps(name)[5] == FileStepView::Sync(temporary(name)));
    assert(save_steps(name)[6] == FileStepView::Rename(temporary(name), name));
    assert(save_steps(name)[7] == FileStepView::Restrict(name, PRIVATE_FILE));
    assert(taken_at(r@, 0, FileStepView::CreateDirectory(dir@)));
    assert(taken_at(r@, 1, FileStepView::Restrict(dir@, PRIVATE_DIRECTORY)));
    assert(taken_at(r@, 2, FileStepView::Create(temporary(name))));
    assert(taken_at(r@, 3, FileStepView::Restrict(temporary(name), PRIVATE_FILE)));
    assert(taken_at(r@, 4, FileStepView::Write(temporary(name))));
    assert(taken_at(r@, 5, FileStepView::Sync(temporary(name))));
    assert(taken_at(r@, 6, FileStepView::Rename(temporary(name), name)));
    assert(taken_at(r@, 7, FileStepView::Restrict(name, PRIVATE_FILE)));
}

/// A step that fails says what the system said; one that could not close
/// something to others says what.
pub proof fn a_failed_step_says_why(step: FileStep, cause: &str, r: Failure)
    requires
        call_ensures(FileStep::failure, (&step, cause), r),
    ensures
        text::has_suffix(r@.in_full(), cause@),
        step is Restrict ==> text::stands_in(step->Restrict_0@, r.summary@),
        step is Write ==> r.summary@ == "write credentials"@,
        step is Rename ==> r.summary@ == "install credentials"@,
        step is Create ==> r.summary@ == "create credentials file"@,
        step is Sync ==> r.summary@ == "flush credentials"@,
        step is CreateDirectory ==> r.summary@ == "create config directory"@,
{
    let told = r@.in_full();
    assert(r@.summary == r.summary@);
    assert(told.skip(told.len() - cause@.len()) =~= cause@);
    match step {
        FileStep::Restrict(p, _) => {
            let nothing = Seq::<char>::empty();
            text::lemma_stands_in("set permissions on "@, p@, nothing);
            assert("set permissions on "@ + p@ + nothing =~= "set permissions on "@ + p@);
        },
        _ => {},
    }
}

/// What is in the file is what is read, nobody is logged in where there is no
/// file, and a file that cannot be read or removed is a failure that says why.
pub proof fn what_was_read_is_what_is_held(
    outcome: ReadOutcome,
    r: Result<Option<Credentials>, Failure>,
    removal: RemoveOutcome,
    s: Result<(), Failure>,
)
    requires
        call_ensures(FileStore::loaded, (outcome,), r),
        call_ensures(FileStore::cleared, (removal,), s),
    ensures
        outcome is Held ==> r is Ok && r->Ok_0 == Some(outcome->Held_0),
        r is Ok && r->Ok_0 is None <==> outcome is Missing,
        outcome is Malformed ==> r is Err && text::has_suffix(
            r->Err_0@.in_full(),
            outcome->Malformed_0@,
        ),
        outcome is Unreadable ==> r is Err && text::has_suffix(
            r->Err_0@.in_full(),
            outcome->Unreadable_0@,
        ),
        s is Err <==> removal is Failed,
        removal is Failed ==> text::has_suffix(s->Err_0@.in_full(), removal->Failed_0@),
{
    match outcome {
        ReadOutcome::Malformed(e) => {
            let told = r->Err_0@.in_full();
            assert(told.skip(told.len() - e@.len()) =~= e@);
        },
        ReadOutcome::Unreadable(e) => {
            let told = r->Err_0@.in_full();
            assert(told.skip(told.len() - e@.len()) =~= e@);
        },
        _ => {},
    }
    match removal {
        RemoveOutcome::Failed(e) => {
            let told = s->Err_0@.in_full();
            assert(told.skip(told.len() - e@.len()) =~= e@);
        },
        _ => {},
    }
}

} // verus!
