//! Leaving the sandbox, step by step.
//!
//! Building a host invocation needs answers from outside: whether the
//! process is sandboxed, whether the spawn service answers, what the
//! instance metadata says, what the catalog tool prints, and, where the
//! environment is inherited or rewritten, the variables of the process and
//! which of the names in them exist. This module decides what to ask next
//! and what an answer means; asking is left to the caller. A session starts
//! with `Escape::begin`; the caller performs what `request` names, hands
//! the answer to `step`, and goes on until nothing is asked any more. The
//! first failure ends the session: after it nothing more is asked.

use vstd::prelude::*;
use crate::arg::{candidates, lemma_classification_looks_at_candidates, Argument, CmdArg};
use crate::error::{outcome, UnsandboxError};
use crate::info::{loaded, FlatpakInfo, HostRoots};
use crate::probe::KnownPaths;
use crate::resolver::{library_paths, linker_path};
use crate::spawn::{built, invocation, HostInvocation, Invocation, Observation, UnsandboxOptions};
use crate::spawn::{translated, Variables};

verus! {

/// What asking the spawn service came to.
#[derive(Clone, Copy, Debug, PartialEq, Eq, Structural)]
pub enum ProbeOutcome {
    /// The message bus could not be reached.
    NoBus,
    /// The bus was reached and the service did not answer.
    NoAnswer,
    /// The service answered.
    Answered,
}

/// Whether the sandbox may ask the host to spawn: it may where the spawn
/// service answered, it may not where the service stayed silent, and where
/// the bus could not be reached there was no way to tell.
pub open spec fn permission(probe: ProbeOutcome) -> Result<bool, UnsandboxError> {
    match probe {
        ProbeOutcome::NoBus => Err(UnsandboxError::IpcError),
        ProbeOutcome::NoAnswer => Ok(false),
        ProbeOutcome::Answered => Ok(true),
    }
}

/// Whether the sandbox may ask the host to spawn, going by what asking the
/// spawn service came to.
pub fn has_flatpak_spawn_permission(probe: ProbeOutcome) -> (r: Result<bool, UnsandboxError>)
    ensures
        r == permission(probe),
{
    match probe {
        ProbeOutcome::NoBus => Err(UnsandboxError::IpcError),
        ProbeOutcome::NoAnswer => Ok(false),
        ProbeOutcome::Answered => Ok(true),
    }
}

/// The host roots of an instance, going by what was found out about it:
/// whether the process is sandboxed, what asking the spawn service came to,
/// and the text of the instance metadata, unless it could not be read. The
/// three are looked at in this order and the first that fails decides: what
/// comes behind it has no part in the result.
pub open spec fn checked(
    sandboxed: bool,
    probe: ProbeOutcome,
    metadata: Option<Seq<char>>,
) -> Result<HostRoots, UnsandboxError> {
    if !sandboxed {
        Err(UnsandboxError::NotSandboxed)
    } else {
        match permission(probe) {
            Ok(true) => match metadata {
                None => Err(UnsandboxError::ConfigUnavailable),
                Some(text) => loaded(text),
            },
            _ => Err(UnsandboxError::NoPermission),
        }
    }
}

/// Where the spawn service did not answer, the result is `NoPermission`
/// whatever the metadata holds, and whether or not it could be read.
pub proof fn lemma_failed_probe_decides(
    probe: ProbeOutcome,
    one: Option<Seq<char>>,
    other: Option<Seq<char>>,
)
    requires
        probe != ProbeOutcome::Answered,
    ensures
        checked(true, probe, one) == Err::<HostRoots, UnsandboxError>(UnsandboxError::NoPermission),
        checked(true, probe, one) == checked(true, probe, other),
{
}

/// Outside the sandbox the result is `NotSandboxed`, whatever the probe and
/// the metadata are.
pub proof fn lemma_unsandboxed_decides(
    probe: ProbeOutcome,
    metadata: Option<Seq<char>>,
    other_probe: ProbeOutcome,
    other_metadata: Option<Seq<char>>,
)
    ensures
        checked(false, probe, metadata) == Err::<HostRoots, UnsandboxError>(
            UnsandboxError::NotSandboxed,
        ),
        checked(false, probe, metadata) == checked(false, other_probe, other_metadata),
{
}

impl FlatpakInfo {
    /// The descriptor of the instance, going by what was found out about
    /// it: whether the process is sandboxed, what asking the spawn service
    /// came to, and the text of the instance metadata, unless it could not
    /// be read. A process that is not sandboxed has no descriptor; nor has
    /// one that the spawn service did not answer, whatever its metadata;
    /// metadata that could not be read is unavailable, and metadata that
    /// does not name both host roots is malformed.
    pub fn new(sandboxed: bool, probe: ProbeOutcome, metadata: Option<&str>) -> (r: Result<
        FlatpakInfo,
        UnsandboxError,
    >)
        ensures
            outcome(r) == checked(
                sandboxed,
                probe,
                match metadata {
                    Some(text) => Some(text@),
                    None => None,
                },
            ),
            r matches Ok(info) ==> info.well_formed(),
    {
        if !sandboxed {
            return Err(UnsandboxError::NotSandboxed);
        }
        match has_flatpak_spawn_permission(probe) {
            Ok(true) => match metadata {
                None => Err(UnsandboxError::ConfigUnavailable),
                Some(text) => FlatpakInfo::from_metadata(text),
            },
            _ => Err(UnsandboxError::NoPermission),
        }
    }
}

/// What the caller is to find out next.
#[derive(Clone, Copy, Debug, PartialEq, Eq, Structural)]
pub enum Request {
    /// Whether the process runs inside the sandbox.
    CheckSandbox,
    /// Whether the spawn service answers.
    ProbePermission,
    /// The text of the instance metadata.
    ReadMetadata,
    /// What the catalog tool prints when asked to be verbose.
    ListDirectories,
    /// What the catalog tool prints when asked for all libraries.
    ListLibraries,
    /// The variables of the calling process.
    ReadEnvironment,
    /// Which of the session's candidates exist.
    ProbePaths,
    /// Nothing: the session has ended.
    Nothing,
}

/// An answer, as contracts speak of it.
pub enum Answer {
    /// Whether the process runs inside the sandbox.
    Sandboxed(bool),
    /// What asking the spawn service came to.
    Permission(ProbeOutcome),
    /// The text of the instance metadata, unless it could not be read.
    Metadata(Option<Seq<char>>),
    /// What the catalog tool printed, unless it could not be run.
    Listing(Option<Seq<u8>>),
    /// The variables of the calling process.
    Environment(Variables),
    /// The paths that exist.
    Paths(Set<Seq<char>>),
}

/// How far a session has come, as contracts speak of it.
pub enum Progress {
    /// Nothing is known yet.
    Sandbox,
    /// The process is sandboxed.
    Permission,
    /// The spawn service answered.
    Metadata,
    /// The host roots are known.
    Directories(HostRoots),
    /// The library directories are known as well.
    Libraries(HostRoots, Seq<Seq<char>>),
    /// The linker is known as well.
    Environment(HostRoots, Seq<Seq<char>>, Seq<char>),
    /// The variables of the calling process are known as well.
    Paths(HostRoots, Seq<Seq<char>>, Seq<char>, Variables),
    /// The session has ended, with an invocation or a failure.
    Done(Result<Invocation, UnsandboxError>),
}

/// A session, as contracts speak of it: what is to be run, and how far the
/// session has come.
pub struct Session {
    /// The command.
    pub command: Seq<Argument>,
    /// The variables to add.
    pub extra: Seq<(Seq<char>, Argument)>,
    /// The working directory, if it is not to be the caller's own.
    pub cwd: Option<Seq<char>>,
    /// How the environment is put together.
    pub options: UnsandboxOptions,
    /// How far the session has come.
    pub progress: Progress,
}

/// Whether the invocation depends on the variables of the calling process.
pub open spec fn needs_environment(options: UnsandboxOptions) -> bool {
    !options.clear_env || options.translate_env
}

/// The session at its start.
pub open spec fn started(
    command: Seq<Argument>,
    extra: Seq<(Seq<char>, Argument)>,
    cwd: Option<Seq<char>>,
    options: UnsandboxOptions,
) -> Session {
    Session { command, extra, cwd, options, progress: Progress::Sandbox }
}

/// What the session asks for.
pub open spec fn pending(session: Session) -> Request {
    match session.progress {
        Progress::Sandbox => Request::CheckSandbox,
        Progress::Permission => Request::ProbePermission,
        Progress::Metadata => Request::ReadMetadata,
        Progress::Directories(_) => Request::ListDirectories,
        Progress::Libraries(_, _) => Request::ListLibraries,
        Progress::Environment(_, _, _) => Request::ReadEnvironment,
        Progress::Paths(_, _, _, _) => Request::ProbePaths,
        Progress::Done(_) => Request::Nothing,
    }
}

/// The names whose existence decides what the values of `variables`
/// denote, variable by variable.
pub open spec fn candidates_of(variables: Variables) -> Seq<Seq<char>>
    decreases variables.len(),
{
    if variables.len() == 0 {
        Seq::empty()
    } else {
        candidates_of(variables.drop_last()) + candidates(variables.last().1)
    }
}

/// The names of which the session wants to know whether they exist.
pub open spec fn wanted(session: Session) -> Seq<Seq<char>> {
    match session.progress {
        Progress::Paths(_, _, _, variables) => candidates_of(variables),
        _ => Seq::empty(),
    }
}

/// The invocation of a session whose linkage is known.
pub open spec fn finished(
    session: Session,
    roots: HostRoots,
    directories: Seq<Seq<char>>,
    linker: Seq<char>,
    current: Variables,
    existing: Set<Seq<char>>,
) -> Progress {
    Progress::Done(
        Ok(
            invocation(
                roots,
                session.command,
                session.extra,
                session.cwd,
                session.options,
                linker,
                directories,
                current,
                existing,
            ),
        ),
    )
}

/// How far the session has come once it has `answer`. An answer to
/// something that the session did not ask leaves it where it is.
pub open spec fn progress_after(session: Session, answer: Answer) -> Progress {
    match (session.progress, answer) {
        (Progress::Sandbox, Answer::Sandboxed(inside)) => if inside {
            Progress::Permission
        } else {
            Progress::Done(Err(UnsandboxError::NotSandboxed))
        },
        (Progress::Permission, Answer::Permission(probe)) => match permission(probe) {
            Ok(true) => Progress::Metadata,
            _ => Progress::Done(Err(UnsandboxError::NoPermission)),
        },
        (Progress::Metadata, Answer::Metadata(text)) => match text {
            None => Progress::Done(Err(UnsandboxError::ConfigUnavailable)),
            Some(text) => match loaded(text) {
                Ok(roots) => Progress::Directories(roots),
                Err(error) => Progress::Done(Err(error)),
            },
        },
        (Progress::Directories(roots), Answer::Listing(output)) => match output {
            None => Progress::Done(Err(UnsandboxError::SubprocessError)),
            Some(output) => match library_paths(roots, output) {
                Ok(directories) => Progress::Libraries(roots, directories),
                Err(error) => Progress::Done(Err(error)),
            },
        },
        (Progress::Libraries(roots, directories), Answer::Listing(output)) => match output {
            None => Progress::Done(Err(UnsandboxError::SubprocessError)),
            Some(output) => match linker_path(roots, output) {
                Err(error) => Progress::Done(Err(error)),
                Ok(linker) => if needs_environment(session.options) {
                    Progress::Environment(roots, directories, linker)
                } else {
                    finished(session, roots, directories, linker, Seq::empty(), Set::empty())
                },
            },
        },
        (Progress::Environment(roots, directories, linker), Answer::Environment(current)) => {
            if session.options.translate_env {
                Progress::Paths(roots, directories, linker, current)
            } else {
                finished(session, roots, directories, linker, current, Set::empty())
            }
        },
        (Progress::Paths(roots, directories, linker, current), Answer::Paths(existing)) => finished(
            session,
            roots,
            directories,
            linker,
            current,
            existing,
        ),
        _ => session.progress,
    }
}

/// The session once it has `answer`.
pub open spec fn after(session: Session, answer: Answer) -> Session {
    Session { progress: progress_after(session, answer), ..session }
}

// ---------------------------------------------------------------------------
// Laws of a session
// ---------------------------------------------------------------------------

/// A session that has ended stays as it is, whatever it is told.
pub proof fn lemma_done_is_final(session: Session, answer: Answer)
    requires
        session.progress is Done,
    ensures
        after(session, answer) == session,
        pending(session) == Request::Nothing,
{
}

/// Outside the sandbox the session ends at once, with `NotSandboxed`.
pub proof fn lemma_outside_the_sandbox(
    command: Seq<Argument>,
    extra: Seq<(Seq<char>, Argument)>,
    cwd: Option<Seq<char>>,
    options: UnsandboxOptions,
)
    ensures
        pending(started(command, extra, cwd, options)) == Request::CheckSandbox,
        after(started(command, extra, cwd, options), Answer::Sandboxed(false)).progress
            == Progress::Done(Err(UnsandboxError::NotSandboxed)),
{
}

/// Where the spawn service does not answer, the session ends with
/// `NoPermission`: it asks for nothing more, neither for the metadata nor
/// for a catalog.
pub proof fn lemma_no_permission_ends_session(session: Session, probe: ProbeOutcome)
    requires
        session.progress is Permission,
        probe != ProbeOutcome::Answered,
    ensures
        pending(session) == Request::ProbePermission,
        after(session, Answer::Permission(probe)).progress == Progress::Done(
            Err(UnsandboxError::NoPermission),
        ),
        pending(after(session, Answer::Permission(probe))) == Request::Nothing,
        forall|answer: Answer| #[trigger]
            after(after(session, Answer::Permission(probe)), answer) == after(
                session,
                Answer::Permission(probe),
            ),
{
}

/// The metadata is asked for only once the process is known to be
/// sandboxed and the spawn service has answered, and a catalog only once
/// the metadata has named the host roots.
pub proof fn lemma_order_of_requests(session: Session, answer: Answer)
    ensures
        pending(after(session, answer)) == Request::ProbePermission ==> session.progress is Permission
            || answer == Answer::Sandboxed(true),
        pending(after(session, answer)) == Request::ReadMetadata ==> session.progress is Metadata
            || answer == Answer::Permission(ProbeOutcome::Answered),
        pending(after(session, answer)) == Request::ListDirectories
            ==> session.progress is Directories || (session.progress is Metadata
            && answer is Metadata),
        pending(after(session, answer)) == Request::ListLibraries ==> session.progress is Libraries
            || (session.progress is Directories && answer is Listing),
{
}

/// The first three answers of a session come to what `checked` makes of
/// them: the session goes on to the catalog with the host roots, or ends
/// with the failure.
pub proof fn lemma_session_checks(
    command: Seq<Argument>,
    extra: Seq<(Seq<char>, Argument)>,
    cwd: Option<Seq<char>>,
    options: UnsandboxOptions,
    sandboxed: bool,
    probe: ProbeOutcome,
    metadata: Option<Seq<char>>,
)
    ensures
        after(
            after(
                after(started(command, extra, cwd, options), Answer::Sandboxed(sandboxed)),
                Answer::Permission(probe),
            ),
            Answer::Metadata(metadata),
        ).progress == match checked(sandboxed, probe, metadata) {
            Ok(roots) => Progress::Directories(roots),
            Err(error) => Progress::Done(Err(error)),
        },
{
}

/// The session once it has had `answers`, one after the other.
pub open spec fn after_all(session: Session, answers: Seq<Answer>) -> Session
    decreases answers.len(),
{
    if answers.len() == 0 {
        session
    } else {
        after(after_all(session, answers.drop_last()), answers.last())
    }
}

/// A session that has ended stays as it is, however many answers follow.
pub proof fn lemma_ended_session_stays(session: Session, answers: Seq<Answer>)
    requires
        session.progress is Done,
    ensures
        after_all(session, answers) == session,
    decreases answers.len(),
{
    if answers.len() > 0 {
        lemma_ended_session_stays(session, answers.drop_last());
    }
}

/// Answers given one after the other can be given in two runs.
pub proof fn lemma_after_all_in_two(session: Session, first: Seq<Answer>, then: Seq<Answer>)
    ensures
        after_all(session, first + then) == after_all(after_all(session, first), then),
    decreases then.len(),
{
    if then.len() > 0 {
        lemma_after_all_in_two(session, first, then.drop_last());
        assert((first + then).drop_last() =~= first + then.drop_last());
    }
}

/// In a sandbox whose spawn service does not answer, a session ends with
/// `NoPermission` whatever it is told afterwards, and from the failed probe
/// on it asks for nothing: neither for the metadata nor for a catalog.
pub proof fn lemma_failed_probe_ends_all(
    command: Seq<Argument>,
    extra: Seq<(Seq<char>, Argument)>,
    cwd: Option<Seq<char>>,
    options: UnsandboxOptions,
    probe: ProbeOutcome,
    later: Seq<Answer>,
)
    requires
        probe != ProbeOutcome::Answered,
    ensures
        ({
            let first = seq![Answer::Sandboxed(true), Answer::Permission(probe)];
            let session = after_all(started(command, extra, cwd, options), first + later);
            &&& session.progress == Progress::Done(Err(UnsandboxError::NoPermission))
            &&& pending(session) == Request::Nothing
        }),
{
    let first = seq![Answer::Sandboxed(true), Answer::Permission(probe)];
    let begun = started(command, extra, cwd, options);
    reveal_with_fuel(after_all, 3);
    lemma_after_all_in_two(begun, first, later);
    lemma_ended_session_stays(after_all(begun, first), later);
}

/// A session that is given every answer it asks for ends as the direct
/// construction does: with the failure of the metadata where it is
/// malformed, and else with what `built` makes of the same answers.
pub proof fn lemma_full_session(
    command: Seq<Argument>,
    extra: Seq<(Seq<char>, Argument)>,
    cwd: Option<Seq<char>>,
    options: UnsandboxOptions,
    metadata: Seq<char>,
    observed: Observation,
)
    ensures
        ({
            let s0 = started(command, extra, cwd, options);
            let s1 = after(s0, Answer::Sandboxed(true));
            let s2 = after(s1, Answer::Permission(ProbeOutcome::Answered));
            let s3 = after(s2, Answer::Metadata(Some(metadata)));
            let s4 = after(s3, Answer::Listing(Some(observed.directory_listing)));
            let s5 = after(s4, Answer::Listing(Some(observed.library_listing)));
            let s6 = after(s5, Answer::Environment(observed.environment));
            let s7 = after(s6, Answer::Paths(observed.known_paths));
            s7.progress == Progress::Done(
                match loaded(metadata) {
                    Err(error) => Err(error),
                    Ok(roots) => built(roots, command, extra, cwd, options, observed),
                },
            )
        }),
{
}

/// To rewrite the variables of the calling process it is enough to know
/// which of their candidates exist: two states of the file system that
/// agree on them give the same values.
pub proof fn lemma_translation_looks_at_candidates(
    current: Variables,
    roots: HostRoots,
    one: Set<Seq<char>>,
    other: Set<Seq<char>>,
)
    requires
        forall|i: int|
            0 <= i < candidates_of(current).len() ==> (one.contains(
                #[trigger] candidates_of(current)[i],
            ) <==> other.contains(candidates_of(current)[i])),
    ensures
        translated(current, roots, one) == translated(current, roots, other),
    decreases current.len(),
{
    if current.len() > 0 {
        let front = current.drop_last();
        let names = candidates_of(current);
        let before = candidates_of(front);
        let last = candidates(current.last().1);
        assert forall|i: int| 0 <= i < before.len() implies (one.contains(#[trigger] before[i])
            <==> other.contains(before[i])) by {
            assert(names[i] == before[i]);
        }
        lemma_translation_looks_at_candidates(front, roots, one, other);
        assert forall|i: int| 0 <= i < last.len() implies (one.contains(#[trigger] last[i])
            <==> other.contains(last[i])) by {
            assert(names[before.len() + i] == last[i]);
        }
        lemma_classification_looks_at_candidates(current.last().1, one, other);
        assert forall|i: int| 0 <= i < current.len() implies translated(current, roots, one)[i]
            == translated(current, roots, other)[i] by {
            if i < front.len() {
                assert(translated(front, roots, one)[i] == translated(current, roots, one)[i]);
            }
        }
    }
}

// ---------------------------------------------------------------------------
// The session
// ---------------------------------------------------------------------------

/// An answer to what a session asked.
#[derive(Clone, Debug, PartialEq, Eq)]
pub enum Reply {
    /// Whether the process runs inside the sandbox.
    Sandboxed(bool),
    /// What asking the spawn service came to.
    Permission(ProbeOutcome),
    /// The text of the instance metadata, unless it could not be read.
    Metadata(Option<String>),
    /// What the catalog tool printed, unless it could not be run.
    Listing(Option<Vec<u8>>),
    /// The variables of the calling process.
    Environment(Vec<(String, String)>),
    /// The paths that exist.
    Paths(KnownPaths),
}

impl View for Reply {
    type V = Answer;

    open spec fn view(&self) -> Answer {
        match self {
            Reply::Sandboxed(inside) => Answer::Sandboxed(*inside),
            Reply::Permission(probe) => Answer::Permission(*probe),
            Reply::Metadata(text) => Answer::Metadata(
                match text {
                    Some(text) => Some(text@),
                    None => None,
                },
            ),
            Reply::Listing(output) => Answer::Listing(
                match output {
                    Some(output) => Some(output@),
                    None => None,
                },
            ),
            Reply::Environment(variables) => Answer::Environment(variables.deep_view()),
            Reply::Paths(known) => Answer::Paths(known@),
        }
    }
}

/// How far a session has come.
#[derive(Debug)]
enum Stage {
    Sandbox,
    Permission,
    Metadata,
    Directories(FlatpakInfo),
    Libraries(FlatpakInfo, Vec<String>),
    Environment(FlatpakInfo, Vec<String>, String),
    Paths(FlatpakInfo, Vec<String>, String, Vec<(String, String)>),
    Done(Result<HostInvocation, UnsandboxError>),
}

impl View for Stage {
    type V = Progress;

    closed spec fn view(&self) -> Progress {
        match self {
            Stage::Sandbox => Progress::Sandbox,
            Stage::Permission => Progress::Permission,
            Stage::Metadata => Progress::Metadata,
            Stage::Directories(info) => Progress::Directories(info@),
            Stage::Libraries(info, directories) => Progress::Libraries(
                info@,
                directories.deep_view(),
            ),
            Stage::Environment(info, directories, linker) => Progress::Environment(
                info@,
                directories.deep_view(),
                linker@,
            ),
            Stage::Paths(info, directories, linker, current) => Progress::Paths(
                info@,
                directories.deep_view(),
                linker@,
                current.deep_view(),
            ),
            Stage::Done(result) => Progress::Done(outcome(*result)),
        }
    }
}

/// One attempt to leave the sandbox: what is to be run, and how far the
/// attempt has come.
#[derive(Debug)]
pub struct Escape {
    command: Vec<CmdArg>,
    envs: Vec<(String, CmdArg)>,
    cwd: Option<String>,
    options: UnsandboxOptions,
    stage: Stage,
}

impl View for Escape {
    type V = Session;

    closed spec fn view(&self) -> Session {
        Session {
            command: self.command.deep_view(),
            extra: self.envs.deep_view(),
            cwd: self.cwd.deep_view(),
            options: self.options,
            progress: self.stage@,
        }
    }
}

impl Escape {
    /// A session for running `command` on the host with the variables
    /// `envs` added, in the directory `cwd` if one is given, and with the
    /// environment put together as `options` say. Where `envs` names a
    /// variable twice, the later entry counts.
    pub fn begin(
        command: Vec<CmdArg>,
        envs: Vec<(String, CmdArg)>,
        cwd: Option<String>,
        options: UnsandboxOptions,
    ) -> (r: Escape)
        ensures
            r@ == started(command.deep_view(), envs.deep_view(), cwd.deep_view(), options),
    {
        Escape { command, envs, cwd, options, stage: Stage::Sandbox }
    }

    /// What the caller is to find out next.
    pub fn request(&self) -> (r: Request)
        ensures
            r == pending(self@),
    {
        match &self.stage {
            Stage::Sandbox => Request::CheckSandbox,
            Stage::Permission => Request::ProbePermission,
            Stage::Metadata => Request::ReadMetadata,
            Stage::Directories(_) => Request::ListDirectories,
            Stage::Libraries(_, _) => Request::ListLibraries,
            Stage::Environment(_, _, _) => Request::ReadEnvironment,
            Stage::Paths(_, _, _, _) => Request::ProbePaths,
            Stage::Done(_) => Request::Nothing,
        }
    }

    /// The names of which the session wants to know whether they exist:
    /// none, unless that is what it asks for.
    pub fn candidates(&self) -> (r: Vec<String>)
        ensures
            r.deep_view() == wanted(self@),
    {
        let mut r: Vec<String> = Vec::new();
        match &self.stage {
            Stage::Paths(_, _, _, current) => {
                let mut i: usize = 0;
                while i < current.len()
                    invariant
                        i <= current.len(),
                        r.deep_view() == candidates_of(current.deep_view().take(i as int)),
                    decreases current.len() - i,
                {
                    let mut names = CmdArg::candidates(current[i].1.as_str());
                    proof {
                        let done = current.deep_view().take(i + 1);
                        assert(done.drop_last() =~= current.deep_view().take(i as int));
                    }
                    r.append(&mut names);
                    i += 1;
                }
                assert(current.deep_view().take(current.len() as int) =~= current.deep_view());
            },
            _ => {},
        }
        r
    }

    /// The session once it has `reply`. A reply to something that the
    /// session did not ask leaves it where it is.
    pub fn step(self, reply: Reply) -> (r: Escape)
        ensures
            r@ == after(self@, reply@),
    {
        let Escape { command, envs, cwd, options, stage } = self;
        let next = match stage {
            Stage::Sandbox => match reply {
                Reply::Sandboxed(inside) => if inside {
                    Stage::Permission
                } else {
                    Stage::Done(Err(UnsandboxError::NotSandboxed))
                },
                _ => Stage::Sandbox,
            },
            Stage::Permission => match reply {
                Reply::Permission(probe) => match has_flatpak_spawn_permission(probe) {
                    Ok(true) => Stage::Metadata,
                    _ => Stage::Done(Err(UnsandboxError::NoPermission)),
                },
                _ => Stage::Permission,
            },
            Stage::Metadata => match reply {
                Reply::Metadata(text) => match text {
                    None => Stage::Done(Err(UnsandboxError::ConfigUnavailable)),
                    Some(text) => match FlatpakInfo::from_metadata(text.as_str()) {
                        Ok(info) => Stage::Directories(info),
                        Err(error) => Stage::Done(Err(error)),
                    },
                },
                _ => Stage::Metadata,
            },
            Stage::Directories(info) => match reply {
                Reply::Listing(output) => match output {
                    None => Stage::Done(Err(UnsandboxError::SubprocessError)),
                    Some(output) => match info.get_all_lib_paths(output) {
                        Ok(directories) => Stage::Libraries(info, directories),
                        Err(error) => Stage::Done(Err(error)),
                    },
                },
                _ => Stage::Directories(info),
            },
            Stage::Libraries(info, directories) => match reply {
                Reply::Listing(output) => match output {
                    None => Stage::Done(Err(UnsandboxError::SubprocessError)),
                    Some(output) => match info.get_ld_path(output) {
                        Err(error) => Stage::Done(Err(error)),
                        Ok(linker) => if !options.clear_env || options.translate_env {
                            Stage::Environment(info, directories, linker)
                        } else {
                            let current: Vec<(String, String)> = Vec::new();
                            Stage::Done(
                                Ok(
                                    info.assemble(
                                        &command,
                                        &envs,
                                        &cwd,
                                        options,
                                        linker,
                                        &directories,
                                        &current,
                                        &KnownPaths::none(),
                                    ),
                                ),
                            )
                        },
                    },
                },
                _ => Stage::Libraries(info, directories),
            },
            Stage::Environment(info, directories, linker) => match reply {
                Reply::Environment(current) => if options.translate_env {
                    Stage::Paths(info, directories, linker, current)
                } else {
                    Stage::Done(
                        Ok(
                            info.assemble(
                                &command,
                                &envs,
                                &cwd,
                                options,
                                linker,
                                &directories,
                                &current,
                                &KnownPaths::none(),
                            ),
                        ),
                    )
                },
                _ => Stage::Environment(info, directories, linker),
            },
            Stage::Paths(info, directories, linker, current) => match reply {
                Reply::Paths(known) => Stage::Done(
                    Ok(
                        info.assemble(
                            &command,
                            &envs,
                            &cwd,
                            options,
                            linker,
                            &directories,
                            &current,
                            &known,
                        ),
                    ),
                ),
                _ => Stage::Paths(info, directories, linker, current),
            },
            Stage::Done(result) => Stage::Done(result),
        };
        Escape { command, envs, cwd, options, stage: next }
    }

    /// The invocation or the failure that the session ended with; `None`
    /// while it still asks for something.
    pub fn finish(self) -> (r: Option<Result<HostInvocation, UnsandboxError>>)
        ensures
            match r {
                Some(result) => self@.progress == Progress::Done(outcome(result)),
                None => !(self@.progress is Done),
            },
    {
        match self.stage {
            Stage::Done(result) => Some(result),
            _ => None,
        }
    }
}

} // verus!
