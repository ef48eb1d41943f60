//! Command arguments and what they denote: a literal, a path, or a list of
//! paths joined by a delimiter.
//!
//! A string is told apart by what exists. A string that names an existing
//! entry is a path. Otherwise it is cut at each `:`, and if that fails at
//! each `,`; the pieces, without surrounding white space, make a path list
//! only if every one of them exists. Anything else is a literal.

use vstd::prelude::*;
use crate::info::{host_path, host_paths, FlatpakInfo, HostRoots};
use crate::probe::{confirmed, KnownPaths};
use crate::text::{from_chars, join, join_strings, split, split_chars, to_chars, trim, trimmed};
use crate::text::{cuts_back, lemma_join_keeps_order, lemma_join_split, lemma_join_split_by};
use crate::text::{matches_at, part_start, split_by};

verus! {

/// What an argument denotes.
pub enum Argument {
    /// Text that is passed on as it is.
    Literal(Seq<char>),
    /// One path.
    PathRef(Seq<char>),
    /// Paths in their order, and the delimiter that joins them.
    PathList(Seq<Seq<char>>, Seq<char>),
}

/// The pieces of `raw` between the occurrences of `d`, each without
/// surrounding white space.
pub open spec fn pieces(raw: Seq<char>, d: char) -> Seq<Seq<char>> {
    Seq::new(split(raw, d).len(), |i: int| trim(split(raw, d)[i]))
}

/// Whether every path of `paths` is among `existing`.
pub open spec fn all_exist(paths: Seq<Seq<char>>, existing: Set<Seq<char>>) -> bool {
    forall|i: int| 0 <= i < paths.len() ==> existing.contains(#[trigger] paths[i])
}

/// What `raw` denotes when exactly the paths in `existing` exist.
pub open spec fn classification(raw: Seq<char>, existing: Set<Seq<char>>) -> Argument {
    if existing.contains(raw) {
        Argument::PathRef(raw)
    } else if all_exist(pieces(raw, ':'), existing) {
        Argument::PathList(pieces(raw, ':'), seq![':'])
    } else if all_exist(pieces(raw, ','), existing) {
        Argument::PathList(pieces(raw, ','), seq![','])
    } else {
        Argument::Literal(raw)
    }
}

/// The string that stands for `arg` on the host: a literal as it is, a path
/// as the host names it, a path list as its paths, each as the host names
/// it, in their order and joined by the list's own delimiter.
pub open spec fn rendering(arg: Argument, roots: HostRoots) -> Seq<char> {
    match arg {
        Argument::Literal(text) => text,
        Argument::PathRef(path) => host_path(roots, path),
        Argument::PathList(paths, delim) => join(host_paths(roots, paths), delim),
    }
}

/// The names whose existence decides what `raw` denotes: `raw` itself and
/// its pieces at either delimiter.
pub open spec fn candidates(raw: Seq<char>) -> Seq<Seq<char>> {
    seq![raw] + pieces(raw, ':') + pieces(raw, ',')
}

/// A string that names an existing entry denotes that path.
pub proof fn lemma_existing_name_is_path(raw: Seq<char>, existing: Set<Seq<char>>)
    requires
        existing.contains(raw),
    ensures
        classification(raw, existing) == Argument::PathRef(raw),
{
}

/// A string that names nothing, and whose pieces at a delimiter all exist,
/// denotes the list of those pieces with that very delimiter. The colon is
/// tried first: the comma decides only where some piece at the colon is
/// missing.
pub proof fn lemma_existing_pieces_are_list(raw: Seq<char>, existing: Set<Seq<char>>, d: char)
    requires
        !existing.contains(raw),
        d == ':' || d == ',',
        all_exist(pieces(raw, d), existing),
        d == ',' ==> !all_exist(pieces(raw, ':'), existing),
    ensures
        classification(raw, existing) == Argument::PathList(pieces(raw, d), seq![d]),
{
}

/// A string that names nothing, and of which some piece is missing at
/// either delimiter, is a literal, however many of its pieces exist.
pub proof fn lemma_missing_piece_is_literal(
    raw: Seq<char>,
    existing: Set<Seq<char>>,
    at_colon: int,
    at_comma: int,
)
    requires
        !existing.contains(raw),
        0 <= at_colon < pieces(raw, ':').len(),
        !existing.contains(pieces(raw, ':')[at_colon]),
        0 <= at_comma < pieces(raw, ',').len(),
        !existing.contains(pieces(raw, ',')[at_comma]),
    ensures
        classification(raw, existing) == Argument::Literal(raw),
{
}

/// Existing paths joined by a delimiter denote the list of exactly these
/// paths, as long as the joined string names nothing itself and no path
/// holds the delimiter or is surrounded by white space. The colon is tried
/// first: the comma decides only where some piece at the colon is missing.
pub proof fn lemma_joined_paths_are_list(paths: Seq<Seq<char>>, existing: Set<Seq<char>>, d: char)
    requires
        paths.len() >= 1,
        d == ':' || d == ',',
        !existing.contains(join(paths, seq![d])),
        d == ',' ==> !all_exist(pieces(join(paths, seq![d]), ':'), existing),
        forall|i: int|
            0 <= i < paths.len() ==> {
                &&& existing.contains(#[trigger] paths[i])
                &&& !paths[i].contains(d)
                &&& trim(paths[i]) == paths[i]
            },
    ensures
        classification(join(paths, seq![d]), existing) == Argument::PathList(paths, seq![d]),
{
    lemma_join_split(paths, d);
    assert(pieces(join(paths, seq![d]), d) =~= paths);
}

/// What a string denotes depends on the existence of its candidates
/// alone: two states of the file system that agree on them give the same
/// classification.
pub proof fn lemma_classification_looks_at_candidates(
    raw: Seq<char>,
    one: Set<Seq<char>>,
    other: Set<Seq<char>>,
)
    requires
        forall|i: int|
            0 <= i < candidates(raw).len() ==> (one.contains(#[trigger] candidates(raw)[i])
                <==> other.contains(candidates(raw)[i])),
    ensures
        classification(raw, one) == classification(raw, other),
{
    let names = candidates(raw);
    let by_colon = pieces(raw, ':');
    let by_comma = pieces(raw, ',');
    assert(names[0] == raw);
    assert forall|k: int| 0 <= k < by_colon.len() implies (one.contains(#[trigger] by_colon[k])
        <==> other.contains(by_colon[k])) by {
        assert(names[1 + k] == by_colon[k]);
    }
    assert forall|k: int| 0 <= k < by_comma.len() implies (one.contains(#[trigger] by_comma[k])
        <==> other.contains(by_comma[k])) by {
        assert(names[1 + by_colon.len() + k] == by_comma[k]);
    }
}

/// A rendered path list keeps the order of its paths: the host's name for
/// path `i` stands in the result behind the names for the paths before it
/// and one delimiter for each of them.
pub proof fn lemma_rendered_list_keeps_order(
    roots: HostRoots,
    paths: Seq<Seq<char>>,
    delim: Seq<char>,
    i: int,
)
    requires
        0 <= i < paths.len(),
    ensures
        matches_at(
            rendering(Argument::PathList(paths, delim), roots),
            host_path(roots, paths[i]),
            part_start(host_paths(roots, paths), delim, i),
        ),
        part_start(host_paths(roots, paths), delim, i + 1) == part_start(
            host_paths(roots, paths),
            delim,
            i,
        ) + host_path(roots, paths[i]).len() + delim.len(),
{
    lemma_join_keeps_order(host_paths(roots, paths), delim, i);
}

/// Cutting a rendered path list at its delimiter gives the host's names for
/// its paths back, one for one and in their order, as long as the list is
/// not empty and none of these names holds the delimiter.
pub proof fn lemma_rendered_list_splits_back(roots: HostRoots, paths: Seq<Seq<char>>, d: char)
    requires
        paths.len() >= 1,
        forall|i: int| 0 <= i < paths.len() ==> !host_path(roots, #[trigger] paths[i]).contains(d),
    ensures
        split(rendering(Argument::PathList(paths, seq![d]), roots), d) == host_paths(roots, paths),
{
    let hosts = host_paths(roots, paths);
    lemma_join_split(hosts, d);
}

/// Cutting a rendered path list at its delimiter, whatever its length as
/// long as it is not empty, gives the host's names for its paths back, one
/// for one and in their order, exactly where the delimiter tells these names
/// apart: in each name but the last, followed by the delimiter, that
/// delimiter is the first one to be found, and the last name holds none.
pub proof fn lemma_rendered_list_cuts_back(roots: HostRoots, paths: Seq<Seq<char>>, delim: Seq<char>)
    requires
        delim.len() > 0,
    ensures
        split_by(rendering(Argument::PathList(paths, delim), roots), delim) == host_paths(
            roots,
            paths,
        ) <==> cuts_back(host_paths(roots, paths), delim),
{
    lemma_join_split_by(host_paths(roots, paths), delim);
}

/// The pieces of `chars` between the occurrences of `d`, each without
/// surrounding white space.
fn trimmed_pieces(chars: &Vec<char>, d: char) -> (r: Vec<String>)
    ensures
        r.deep_view() == pieces(chars@, d),
{
    let parts = split_chars(chars, d);
    let mut r: Vec<String> = Vec::new();
    let mut i: usize = 0;
    while i < parts.len()
        invariant
            i <= parts.len(),
            parts.deep_view() == split(chars@, d),
            r.deep_view() == pieces(chars@, d).take(i as int),
        decreases parts.len() - i,
    {
        let piece = from_chars(&trimmed(&parts[i]));
        proof {
            assert(parts@[i as int].deep_view() =~= parts@[i as int]@);
        }
        let ghost before = r.deep_view();
        r.push(piece);
        assert(r.deep_view() =~= before.push(piece@));
        i += 1;
    }
    r
}

/// A command argument, or the value of an environment variable.
#[derive(Clone, Debug, PartialEq, Eq)]
pub enum CmdArg {
    /// Text that is passed on as it is.
    StringArg(String),
    /// One path, as the sandbox names it.
    PathArg(String),
    /// Paths as the sandbox names them, and the delimiter that joins them.
    PathDelimArg(Vec<String>, String),
}

impl View for CmdArg {
    type V = Argument;

    open spec fn view(&self) -> Argument {
        match self {
            CmdArg::StringArg(text) => Argument::Literal(text@),
            CmdArg::PathArg(path) => Argument::PathRef(path@),
            CmdArg::PathDelimArg(paths, delim) => Argument::PathList(paths.deep_view(), delim@),
        }
    }
}

impl DeepView for CmdArg {
    type V = Argument;

    open spec fn deep_view(&self) -> Argument {
        self@
    }
}

impl CmdArg {
    /// The argument that denotes the path `p`.
    pub fn new_path(p: &str) -> (r: CmdArg)
        ensures
            r@ == Argument::PathRef(p@),
    {
        CmdArg::PathArg(p.to_string())
    }

    /// The argument that denotes the paths `p`, joined by `delim`.
    pub fn new_path_list(p: Vec<String>, delim: String) -> (r: CmdArg)
        ensures
            r@ == Argument::PathList(p.deep_view(), delim@),
    {
        CmdArg::PathDelimArg(p, delim)
    }

    /// The argument that denotes the text `s` itself.
    pub fn new_string(s: String) -> (r: CmdArg)
        ensures
            r@ == Argument::Literal(s@),
    {
        CmdArg::StringArg(s)
    }

    /// The names whose existence decides what `s` denotes.
    pub fn candidates(s: &str) -> (r: Vec<String>)
        ensures
            r.deep_view() == candidates(s@),
    {
        let chars = to_chars(s);
        let mut r: Vec<String> = Vec::new();
        r.push(s.to_string());
        let mut by_colon = trimmed_pieces(&chars, ':');
        let mut by_comma = trimmed_pieces(&chars, ',');
        r.append(&mut by_colon);
        r.append(&mut by_comma);
        r
    }

    /// What `s` denotes when exactly the paths in `known` exist.
    pub fn classify(s: String, known: &KnownPaths) -> (r: CmdArg)
        ensures
            r@ == classification(s@, known@),
    {
        if known.contains(s.as_str()) {
            return CmdArg::PathArg(s);
        }
        let chars = to_chars(s.as_str());
        let by_colon = trimmed_pieces(&chars, ':');
        if known.contains_all(&by_colon) {
            proof {
                reveal_strlit(":");
                assert(":"@ =~= seq![':']);
            }
            return CmdArg::PathDelimArg(by_colon, ":".to_string());
        }
        let by_comma = trimmed_pieces(&chars, ',');
        if known.contains_all(&by_comma) {
            proof {
                reveal_strlit(",");
                assert(","@ =~= seq![',']);
            }
            return CmdArg::PathDelimArg(by_comma, ",".to_string());
        }
        CmdArg::StringArg(s)
    }

    /// What `s` denotes, going by what the file system holds right now:
    /// each candidate of `s` is looked up, and `s` is classified by what was
    /// found. Which candidates exist, only the file system decides.
    pub fn new_guess(s: String) -> (r: CmdArg)
        ensures
            exists|answers: Seq<bool>|
                answers.len() == candidates(s@).len() && r@ == classification(
                    s@,
                    confirmed(candidates(s@), answers),
                ),
    {
        let names = CmdArg::candidates(s.as_str());
        let known = KnownPaths::probe(&names);
        CmdArg::classify(s, &known)
    }

    /// The string that stands for this argument on the host.
    pub fn into_string(&self, flatpak: &FlatpakInfo) -> (r: String)
        ensures
            r@ == rendering(self@, flatpak@),
    {
        match self {
            CmdArg::PathArg(path) => flatpak.to_host_path(path.as_str()),
            CmdArg::StringArg(text) => text.clone(),
            CmdArg::PathDelimArg(paths, delim) => {
                let hosts = flatpak.to_host_paths(paths);
                join_strings(&hosts, delim.as_str())
            },
        }
    }
}

} // verus!
