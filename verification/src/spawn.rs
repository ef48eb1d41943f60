//! The host invocation: the spawn broker as the program, the host's dynamic
//! linker and library path in front of the command, and the environment
//! that the command is to see.
//!
//! The environment is a list of variables, each name at most once. It is
//! put together from up to three sources, a later one overriding an earlier
//! one name by name: the environment of the calling process, unless it is to
//! be cleared; the same environment with each value rewritten for the host,
//! where that is asked for; and the variables that the caller adds. At the
//! end the library path is set, whatever stood under its name before.
//!
//! Each source is a list of pairs that is read in its order, a later entry
//! overriding an earlier one of the same name. A list read like this says
//! what a map from names to values says, and it fixes the order of the
//! result, which would otherwise hang on the order in which a map happens
//! to be walked.

use vstd::prelude::*;
use crate::arg::{classification, rendering, Argument, CmdArg};
use crate::error::{outcome, UnsandboxError};
use crate::info::{host_path, FlatpakInfo, HostRoots};
use crate::probe::KnownPaths;
use crate::resolver::{library_paths, linker_path};
use crate::text::{copy_range, find_char, first_index, from_chars, join, join_strings};
use crate::text::{lemma_join_is_empty, to_chars};

verus! {

/// The spawn broker, which runs a command on the host.
pub open spec fn broker() -> Seq<char> {
    "/usr/bin/flatpak-spawn"@
}

/// The broker's flag for running on the host.
pub open spec fn host_marker() -> Seq<char> {
    "--host"@
}

/// The dynamic linker's flag for the directories to search.
pub open spec fn library_path_flag() -> Seq<char> {
    "--library-path"@
}

/// The environment variable for the directories to search.
pub open spec fn library_path_variable() -> Seq<char> {
    "LD_LIBRARY_PATH"@
}

/// How the environment of the host invocation is put together.
#[derive(Clone, Copy, Debug, PartialEq, Eq)]
pub struct UnsandboxOptions {
    /// Whether the calling process's variables are added with their values
    /// rewritten for the host.
    pub translate_env: bool,
    /// Whether to start from an empty environment instead of the calling
    /// process's own.
    pub clear_env: bool,
}

/// A list of variables.
pub type Variables = Seq<(Seq<char>, Seq<char>)>;

/// The variable that `entry` sets: the name stands before the first `=`, the
/// value behind it. An entry without `=` sets nothing.
pub open spec fn assignment(entry: Seq<char>) -> Option<(Seq<char>, Seq<char>)> {
    let at = first_index(entry, '=');
    if 0 <= at < entry.len() {
        Some((entry.take(at), entry.skip(at + 1)))
    } else {
        None
    }
}

/// The variable that `entry` sets, written as `NAME=VALUE`.
pub fn parse_assignment(entry: &str) -> (r: Option<(String, String)>)
    ensures
        r.deep_view() == assignment(entry@),
{
    let chars = to_chars(entry);
    let at = find_char(&chars, 0, '=');
    assert(chars@.skip(0) =~= chars@);
    if at < chars.len() {
        let name = from_chars(&copy_range(&chars, 0, at));
        let value = from_chars(&copy_range(&chars, at + 1, chars.len()));
        Some((name, value))
    } else {
        None
    }
}

/// The value of `name` in `entries`: that of the first entry with this name.
pub open spec fn value_of(entries: Variables, name: Seq<char>) -> Option<Seq<char>>
    decreases entries.len(),
{
    if entries.len() == 0 {
        None
    } else if entries.first().0 == name {
        Some(entries.first().1)
    } else {
        value_of(entries.drop_first(), name)
    }
}

/// Whether no two entries have the same name.
pub open spec fn distinct_names(entries: Variables) -> bool {
    forall|i: int, j: int|
        0 <= i < j < entries.len() ==> (#[trigger] entries[i]).0 != (#[trigger] entries[j]).0
}

/// `entries` with `name` set to `value`: the entry of that name keeps its
/// place and gets the value; without such an entry, a new one is added at
/// the end.
pub open spec fn with_entry(entries: Variables, name: Seq<char>, value: Seq<char>) -> Variables
    decreases entries.len(),
{
    if entries.len() == 0 {
        seq![(name, value)]
    } else if entries.first().0 == name {
        seq![(name, value)] + entries.drop_first()
    } else {
        seq![entries.first()] + with_entry(entries.drop_first(), name, value)
    }
}

/// `entries` with each variable of `more` set, in the order of `more`.
pub open spec fn merged(entries: Variables, more: Variables) -> Variables
    decreases more.len(),
{
    if more.len() == 0 {
        entries
    } else {
        with_entry(merged(entries, more.drop_last()), more.last().0, more.last().1)
    }
}

/// The variables of `current`, each value as what it denotes, rewritten for
/// the host.
pub open spec fn translated(current: Variables, roots: HostRoots, existing: Set<Seq<char>>) -> Variables {
    Seq::new(
        current.len(),
        |i: int| (current[i].0, rendering(classification(current[i].1, existing), roots)),
    )
}

/// The variables of `extra`, each value rewritten for the host.
pub open spec fn rendered(extra: Seq<(Seq<char>, Argument)>, roots: HostRoots) -> Variables {
    Seq::new(extra.len(), |i: int| (extra[i].0, rendering(extra[i].1, roots)))
}

/// The environment of the host invocation.
pub open spec fn environment(
    roots: HostRoots,
    extra: Seq<(Seq<char>, Argument)>,
    options: UnsandboxOptions,
    library_path: Seq<char>,
    current: Variables,
    existing: Set<Seq<char>>,
) -> Variables {
    let inherited = if options.clear_env {
        Seq::empty()
    } else {
        merged(Seq::empty(), current)
    };
    let rewritten = if options.translate_env {
        merged(inherited, translated(current, roots, existing))
    } else {
        inherited
    };
    with_entry(merged(rewritten, rendered(extra, roots)), library_path_variable(), library_path)
}

/// Each argument as the string that stands for it on the host.
pub open spec fn renderings(command: Seq<Argument>, roots: HostRoots) -> Seq<Seq<char>> {
    Seq::new(command.len(), |i: int| rendering(command[i], roots))
}

/// A host invocation as contracts speak of it.
pub struct Invocation {
    /// The program to run.
    pub program: Seq<char>,
    /// Its arguments, in order.
    pub args: Seq<Seq<char>>,
    /// The variables of its environment.
    pub envs: Variables,
    /// The directory to run it in, if it is not to be the caller's own.
    pub cwd: Option<Seq<char>>,
}

/// The host invocation for a command, once the linker and the library
/// directories of the host are known.
pub open spec fn invocation(
    roots: HostRoots,
    command: Seq<Argument>,
    extra: Seq<(Seq<char>, Argument)>,
    cwd: Option<Seq<char>>,
    options: UnsandboxOptions,
    linker: Seq<char>,
    directories: Seq<Seq<char>>,
    current: Variables,
    existing: Set<Seq<char>>,
) -> Invocation {
    let library_path = join(directories, seq![':']);
    Invocation {
        program: broker(),
        args: seq![host_marker(), linker, library_path_flag(), library_path] + renderings(
            command,
            roots,
        ),
        envs: environment(roots, extra, options, library_path, current, existing),
        cwd: match cwd {
            Some(dir) => Some(host_path(roots, dir)),
            None => None,
        },
    }
}

// ---------------------------------------------------------------------------
// Laws of the environment
// ---------------------------------------------------------------------------

/// Setting a variable gives it the value, keeps the names distinct, and
/// brings in no name but the one that was set.
pub proof fn lemma_with_entry(entries: Variables, name: Seq<char>, value: Seq<char>)
    ensures
        value_of(with_entry(entries, name, value), name) == Some(value),
        distinct_names(entries) ==> distinct_names(with_entry(entries, name, value)),
        forall|i: int|
            0 <= i < with_entry(entries, name, value).len() ==> {
                ||| (#[trigger] with_entry(entries, name, value)[i]).0 == name
                ||| exists|j: int| 0 <= j < entries.len() && entries[j].0 == with_entry(entries, name, value)[i].0
            },
    decreases entries.len(),
{
    let result = with_entry(entries, name, value);
    if entries.len() > 0 && entries.first().0 != name {
        let rest = entries.drop_first();
        lemma_with_entry(rest, name, value);
        assert(result.drop_first() =~= with_entry(rest, name, value));
    }
    assert forall|i: int| 0 <= i < result.len() implies {
        ||| (#[trigger] result[i]).0 == name
        ||| exists|j: int| 0 <= j < entries.len() && entries[j].0 == result[i].0
    } by {}
}

/// Setting a variable leaves the value of every other variable as it was.
pub proof fn lemma_with_entry_keeps(
    entries: Variables,
    name: Seq<char>,
    value: Seq<char>,
    other: Seq<char>,
)
    requires
        other != name,
    ensures
        value_of(with_entry(entries, name, value), other) == value_of(entries, other),
    decreases entries.len(),
{
    let result = with_entry(entries, name, value);
    reveal_with_fuel(value_of, 2);
    if entries.len() > 0 {
        if entries.first().0 == name {
            assert(result.drop_first() =~= entries.drop_first());
        } else {
            lemma_with_entry_keeps(entries.drop_first(), name, value, other);
            assert(result.drop_first() =~= with_entry(entries.drop_first(), name, value));
        }
    }
}

/// Merging keeps the names distinct.
pub proof fn lemma_merged_distinct(entries: Variables, more: Variables)
    requires
        distinct_names(entries),
    ensures
        distinct_names(merged(entries, more)),
    decreases more.len(),
{
    if more.len() > 0 {
        lemma_merged_distinct(entries, more.drop_last());
        lemma_with_entry(merged(entries, more.drop_last()), more.last().0, more.last().1);
    }
}

/// The value of `name` in `entries` where the last entry counts.
pub open spec fn last_value(entries: Variables, name: Seq<char>) -> Option<Seq<char>>
    decreases entries.len(),
{
    if entries.len() == 0 {
        None
    } else if entries.last().0 == name {
        Some(entries.last().1)
    } else {
        last_value(entries.drop_last(), name)
    }
}

/// In a merge the later source wins: a variable that `more` names has the
/// value of its last entry in `more`, and any other variable keeps the value
/// it had.
pub proof fn lemma_merged_value(entries: Variables, more: Variables, name: Seq<char>)
    ensures
        value_of(merged(entries, more), name) == match last_value(more, name) {
            Some(value) => Some(value),
            None => value_of(entries, name),
        },
    decreases more.len(),
{
    if more.len() > 0 {
        let front = more.drop_last();
        lemma_merged_value(entries, front, name);
        lemma_with_entry(merged(entries, front), more.last().0, more.last().1);
        if more.last().0 != name {
            lemma_with_entry_keeps(merged(entries, front), more.last().0, more.last().1, name);
        }
    }
}

/// Where the value of a variable comes from: the library path is always the
/// one that was resolved; any other variable has the value that the caller
/// added, else, where the environment is rewritten, the rewritten value of
/// the calling process, else, unless the environment is cleared, the value
/// of the calling process as it is. Within one source the last entry counts.
pub proof fn lemma_environment_value(
    roots: HostRoots,
    extra: Seq<(Seq<char>, Argument)>,
    options: UnsandboxOptions,
    library_path: Seq<char>,
    current: Variables,
    existing: Set<Seq<char>>,
    name: Seq<char>,
)
    ensures
        value_of(environment(roots, extra, options, library_path, current, existing), name) == if name
            == library_path_variable() {
            Some(library_path)
        } else if last_value(rendered(extra, roots), name) is Some {
            last_value(rendered(extra, roots), name)
        } else if options.translate_env && last_value(
            translated(current, roots, existing),
            name,
        ) is Some {
            last_value(translated(current, roots, existing), name)
        } else if !options.clear_env {
            last_value(current, name)
        } else {
            None
        },
{
    let none = Seq::<(Seq<char>, Seq<char>)>::empty();
    let inherited = if options.clear_env {
        none
    } else {
        merged(none, current)
    };
    let rewritten = if options.translate_env {
        merged(inherited, translated(current, roots, existing))
    } else {
        inherited
    };
    let added = merged(rewritten, rendered(extra, roots));
    lemma_merged_value(none, current, name);
    lemma_merged_value(inherited, translated(current, roots, existing), name);
    lemma_merged_value(rewritten, rendered(extra, roots), name);
    lemma_with_entry(added, library_path_variable(), library_path);
    if name != library_path_variable() {
        lemma_with_entry_keeps(added, library_path_variable(), library_path, name);
    }
}

/// The environment names no variable twice, and its library path is the one
/// that was resolved, whatever the caller or the calling process had under
/// that name.
pub proof fn lemma_environment(
    roots: HostRoots,
    extra: Seq<(Seq<char>, Argument)>,
    options: UnsandboxOptions,
    library_path: Seq<char>,
    current: Variables,
    existing: Set<Seq<char>>,
)
    ensures
        distinct_names(environment(roots, extra, options, library_path, current, existing)),
        value_of(
            environment(roots, extra, options, library_path, current, existing),
            library_path_variable(),
        ) == Some(library_path),
{
    let none = Seq::<(Seq<char>, Seq<char>)>::empty();
    let inherited = if options.clear_env {
        none
    } else {
        merged(none, current)
    };
    let rewritten = if options.translate_env {
        merged(inherited, translated(current, roots, existing))
    } else {
        inherited
    };
    lemma_merged_distinct(none, current);
    lemma_merged_distinct(inherited, translated(current, roots, existing));
    lemma_merged_distinct(rewritten, rendered(extra, roots));
    lemma_with_entry(merged(rewritten, rendered(extra, roots)), library_path_variable(), library_path);
}

/// With the environment cleared, nothing rewritten and nothing added, the
/// environment holds the library path and nothing else.
pub proof fn lemma_cleared_environment(
    roots: HostRoots,
    extra: Seq<(Seq<char>, Argument)>,
    options: UnsandboxOptions,
    library_path: Seq<char>,
    current: Variables,
    existing: Set<Seq<char>>,
)
    requires
        options.clear_env,
        !options.translate_env,
        extra.len() == 0,
    ensures
        environment(roots, extra, options, library_path, current, existing) == seq![
            (library_path_variable(), library_path),
        ],
{
}

/// Whatever the command, an invocation starts with the host marker, the
/// linker, the library-path flag and the library directories joined by `:`,
/// and the command follows. The joined directories are empty only where the
/// catalog named no directory, or a single one without a name.
pub proof fn lemma_invocation_linkage(
    roots: HostRoots,
    command: Seq<Argument>,
    extra: Seq<(Seq<char>, Argument)>,
    cwd: Option<Seq<char>>,
    options: UnsandboxOptions,
    linker: Seq<char>,
    directories: Seq<Seq<char>>,
    current: Variables,
    existing: Set<Seq<char>>,
)
    ensures
        ({
            let built = invocation(
                roots,
                command,
                extra,
                cwd,
                options,
                linker,
                directories,
                current,
                existing,
            );
            &&& built.program == broker()
            &&& built.args.len() == 4 + command.len()
            &&& built.args[0] == host_marker()
            &&& built.args[1] == linker
            &&& built.args[2] == library_path_flag()
            &&& built.args[3] == join(directories, seq![':'])
            &&& built.args[3].len() > 0 <==> directories.len() >= 2 || (directories.len() == 1
                && directories[0].len() > 0)
            &&& forall|i: int|
                0 <= i < command.len() ==> built.args[4 + i] == rendering(command[i], roots)
            &&& value_of(built.envs, library_path_variable()) == Some(built.args[3])
        }),
{
    lemma_join_is_empty(directories, seq![':']);
    lemma_environment(roots, extra, options, join(directories, seq![':']), current, existing);
}

// ---------------------------------------------------------------------------
// Building
// ---------------------------------------------------------------------------

/// The host invocation for a command whose linkage is read from the two
/// outputs of the catalog tool. The library directories are read first, then
/// the linker; the first failure is the result, and without both there is no
/// invocation.
pub open spec fn built(
    roots: HostRoots,
    command: Seq<Argument>,
    extra: Seq<(Seq<char>, Argument)>,
    cwd: Option<Seq<char>>,
    options: UnsandboxOptions,
    observed: Observation,
) -> Result<Invocation, UnsandboxError> {
    match library_paths(roots, observed.directory_listing) {
        Err(error) => Err(error),
        Ok(directories) => match linker_path(roots, observed.library_listing) {
            Err(error) => Err(error),
            Ok(linker) => Ok(
                invocation(
                    roots,
                    command,
                    extra,
                    cwd,
                    options,
                    linker,
                    directories,
                    observed.environment,
                    observed.known_paths,
                ),
            ),
        },
    }
}

/// Where the first entry named `name` stands decides what setting it means:
/// that entry gets the value, or a new entry is added at the end.
proof fn lemma_with_entry_at(entries: Variables, name: Seq<char>, value: Seq<char>, at: int)
    requires
        0 <= at <= entries.len(),
        forall|j: int| 0 <= j < at ==> (#[trigger] entries[j]).0 != name,
        at < entries.len() ==> entries[at].0 == name,
    ensures
        with_entry(entries, name, value) == if at < entries.len() {
            entries.update(at, (name, value))
        } else {
            entries.push((name, value))
        },
    decreases entries.len(),
{
    if entries.len() > 0 && at > 0 {
        lemma_with_entry_at(entries.drop_first(), name, value, at - 1);
    }
}

/// Sets the variable `name` to `value`.
fn set_entry(entries: &mut Vec<(String, String)>, name: String, value: String)
    ensures
        final(entries).deep_view() == with_entry(old(entries).deep_view(), name@, value@),
{
    let mut at: usize = 0;
    while at < entries.len() && entries[at].0 != name
        invariant
            at <= entries.len(),
            forall|j: int| 0 <= j < at ==> (#[trigger] entries.deep_view()[j]).0 != name@,
        decreases entries.len() - at,
    {
        at += 1;
    }
    let ghost before = entries.deep_view();
    proof {
        lemma_with_entry_at(before, name@, value@, at as int);
    }
    if at < entries.len() {
        entries.set(at, (name, value));
    } else {
        entries.push((name, value));
    }
}

/// What was read inside the sandbox for one invocation, as contracts speak
/// of it.
pub struct Observation {
    /// What the catalog tool printed when asked to be verbose.
    pub directory_listing: Seq<u8>,
    /// What the catalog tool printed when asked for all libraries.
    pub library_listing: Seq<u8>,
    /// The variables of the calling process.
    pub environment: Variables,
    /// The paths that exist.
    pub known_paths: Set<Seq<char>>,
}

/// What was read inside the sandbox for one invocation: the two outputs of
/// the catalog tool, the environment of the calling process, and the paths
/// known to exist. The environment is looked at only where it is inherited
/// or rewritten, the known paths only where it is rewritten.
#[derive(Clone, Debug, PartialEq, Eq)]
pub struct Observed {
    /// What the catalog tool printed when asked to be verbose.
    pub directory_listing: Vec<u8>,
    /// What the catalog tool printed when asked for all libraries.
    pub library_listing: Vec<u8>,
    /// The variables of the calling process.
    pub environment: Vec<(String, String)>,
    /// The paths that exist.
    pub known_paths: KnownPaths,
}

impl View for Observed {
    type V = Observation;

    open spec fn view(&self) -> Observation {
        Observation {
            directory_listing: self.directory_listing@,
            library_listing: self.library_listing@,
            environment: self.environment.deep_view(),
            known_paths: self.known_paths@,
        }
    }
}

/// A host invocation: the program, its arguments, its environment and,
/// where it is not the caller's own, its working directory. It is built in
/// one piece and not changed afterwards; running it is up to the caller.
#[derive(Clone, Debug, PartialEq, Eq)]
pub struct HostInvocation {
    program: String,
    args: Vec<String>,
    envs: Vec<(String, String)>,
    cwd: Option<String>,
}

impl View for HostInvocation {
    type V = Invocation;

    closed spec fn view(&self) -> Invocation {
        Invocation {
            program: self.program@,
            args: self.args.deep_view(),
            envs: self.envs.deep_view(),
            cwd: self.cwd.deep_view(),
        }
    }
}

impl DeepView for HostInvocation {
    type V = Invocation;

    open spec fn deep_view(&self) -> Invocation {
        self@
    }
}

impl HostInvocation {
    /// The program to run.
    pub fn program(&self) -> (r: &str)
        ensures
            r@ == self@.program,
    {
        self.program.as_str()
    }

    /// The arguments, in order.
    pub fn args(&self) -> (r: &Vec<String>)
        ensures
            r.deep_view() == self@.args,
    {
        &self.args
    }

    /// The variables of the environment, each name once.
    pub fn envs(&self) -> (r: &Vec<(String, String)>)
        ensures
            r.deep_view() == self@.envs,
    {
        &self.envs
    }

    /// The working directory, if it is not to be the caller's own.
    pub fn cwd(&self) -> (r: Option<&String>)
        ensures
            r.deep_view() == self@.cwd,
    {
        self.cwd.as_ref()
    }
}

impl FlatpakInfo {
    /// Sets in `entries` each variable of `current`, with its value as it
    /// is, or as what it denotes, rewritten for the host.
    fn merge_current(
        &self,
        entries: &mut Vec<(String, String)>,
        current: &Vec<(String, String)>,
        known: Option<&KnownPaths>,
    )
        ensures
            final(entries).deep_view() == merged(
                old(entries).deep_view(),
                match known {
                    Some(known) => translated(current.deep_view(), self@, known@),
                    None => current.deep_view(),
                },
            ),
    {
        let ghost start = entries.deep_view();
        let ghost more = match known {
            Some(known) => translated(current.deep_view(), self@, known@),
            None => current.deep_view(),
        };
        let mut i: usize = 0;
        while i < current.len()
            invariant
                i <= current.len(),
                more.len() == current.len(),
                more == match known {
                    Some(known) => translated(current.deep_view(), self@, known@),
                    None => current.deep_view(),
                },
                entries.deep_view() == merged(start, more.take(i as int)),
            decreases current.len() - i,
        {
            let name = current[i].0.clone();
            let value = match known {
                Some(known) => CmdArg::classify(current[i].1.clone(), known).into_string(self),
                None => current[i].1.clone(),
            };
            proof {
                assert(more.take(i + 1).drop_last() =~= more.take(i as int));
            }
            set_entry(entries, name, value);
            i += 1;
        }
        assert(more.take(current.len() as int) =~= more);
    }

    /// Sets in `entries` each variable of `extra`, its value rewritten for
    /// the host.
    fn merge_extra(&self, entries: &mut Vec<(String, String)>, extra: &Vec<(String, CmdArg)>)
        ensures
            final(entries).deep_view() == merged(
                old(entries).deep_view(),
                rendered(extra.deep_view(), self@),
            ),
    {
        let ghost start = entries.deep_view();
        let ghost more = rendered(extra.deep_view(), self@);
        let mut i: usize = 0;
        while i < extra.len()
            invariant
                i <= extra.len(),
                more == rendered(extra.deep_view(), self@),
                entries.deep_view() == merged(start, more.take(i as int)),
            decreases extra.len() - i,
        {
            let name = extra[i].0.clone();
            let value = extra[i].1.into_string(self);
            proof {
                assert(more.take(i + 1).drop_last() =~= more.take(i as int));
            }
            set_entry(entries, name, value);
            i += 1;
        }
        assert(more.take(extra.len() as int) =~= more);
    }

    /// Each argument of `command` as the string that stands for it on the
    /// host, added to `args`.
    fn render_command(&self, args: &mut Vec<String>, command: &Vec<CmdArg>)
        ensures
            final(args).deep_view() == old(args).deep_view() + renderings(command.deep_view(), self@),
    {
        let ghost start = args.deep_view();
        let mut i: usize = 0;
        while i < command.len()
            invariant
                i <= command.len(),
                args.deep_view() == start + renderings(command.deep_view(), self@).take(i as int),
            decreases command.len() - i,
        {
            let text = command[i].into_string(self);
            let ghost before = args.deep_view();
            args.push(text);
            assert(args.deep_view() =~= before.push(text@));
            i += 1;
        }
    }

    /// The host invocation for `command`, once the host's linker and library
    /// directories are known: the broker as the program; the host marker,
    /// the linker, the library-path flag and the directories joined by `:`,
    /// then the command, each argument rewritten for the host; the
    /// environment as `options` asks for it, with the library path set to
    /// the same directories; and `cwd`, rewritten for the host, as the
    /// working directory.
    pub fn assemble(
        &self,
        command: &Vec<CmdArg>,
        envs: &Vec<(String, CmdArg)>,
        cwd: &Option<String>,
        options: UnsandboxOptions,
        linker: String,
        directories: &Vec<String>,
        environment: &Vec<(String, String)>,
        known_paths: &KnownPaths,
    ) -> (r: HostInvocation)
        ensures
            r@ == invocation(
                self@,
                command.deep_view(),
                envs.deep_view(),
                cwd.deep_view(),
                options,
                linker@,
                directories.deep_view(),
                environment.deep_view(),
                known_paths@,
            ),
    {
        proof {
            reveal_strlit(":");
            assert(":"@ =~= seq![':']);
        }
        let library_path = join_strings(directories, ":");
        let mut args: Vec<String> = Vec::new();
        args.push("--host".to_string());
        args.push(linker);
        args.push("--library-path".to_string());
        args.push(library_path.clone());
        assert(args.deep_view() =~= seq![
            host_marker(),
            linker@,
            library_path_flag(),
            library_path@,
        ]);
        self.render_command(&mut args, command);
        let mut vars: Vec<(String, String)> = Vec::new();
        assert(vars.deep_view() =~= Seq::<(Seq<char>, Seq<char>)>::empty());
        if !options.clear_env {
            self.merge_current(&mut vars, environment, None);
        }
        if options.translate_env {
            self.merge_current(&mut vars, environment, Some(known_paths));
        }
        self.merge_extra(&mut vars, envs);
        set_entry(&mut vars, "LD_LIBRARY_PATH".to_string(), library_path);
        let cwd = match cwd {
            Some(dir) => Some(self.to_host_path(dir.as_str())),
            None => None,
        };
        HostInvocation { program: "/usr/bin/flatpak-spawn".to_string(), args, envs: vars, cwd }
    }

    /// The host invocation for `command`: the linkage is read from the two
    /// outputs of the catalog tool in `observed`, and the invocation is then
    /// put together as `assemble` does. Nothing is run.
    pub fn run_unsandboxed(
        &self,
        command: Vec<CmdArg>,
        envs: Vec<(String, CmdArg)>,
        cwd: Option<String>,
        options: UnsandboxOptions,
        observed: Observed,
    ) -> (r: Result<HostInvocation, UnsandboxError>)
        ensures
            outcome(r) == built(
                self@,
                command.deep_view(),
                envs.deep_view(),
                cwd.deep_view(),
                options,
                observed@,
            ),
    {
        let Observed { directory_listing, library_listing, environment, known_paths } = observed;
        let directories = match self.get_all_lib_paths(directory_listing) {
            Ok(directories) => directories,
            Err(error) => {
                return Err(error);
            },
        };
        let linker = match self.get_ld_path(library_listing) {
            Ok(linker) => linker,
            Err(error) => {
                return Err(error);
            },
        };
        Ok(
            self.assemble(
                &command,
                &envs,
                &cwd,
                options,
                linker,
                &directories,
                &environment,
                &known_paths,
            ),
        )
    }
}

} // verus!
