//! Reading the host's linker catalog: where the dynamic linker is, and in
//! which directories the host keeps its libraries.
//!
//! The catalog tool prints text, one entry per line. In its listing of all
//! libraries, the linker's entry begins with `ld-linux` and gives the
//! linker's path behind ` => `: the line is cut at each ` => `, and the path
//! is the second piece. In its verbose listing, each library directory has
//! a line of its own that starts in the first column and ends the
//! directory's name with a colon; the lines that follow it are indented
//! with a tab and name the libraries in that directory.

use vstd::prelude::*;
use crate::error::{outcome, UnsandboxError};
use crate::info::{app_name, below, host_path, host_paths, lemma_host_path_leaves_sandbox};
use crate::info::{outside_sandbox, runtime_name, FlatpakInfo, HostRoots};
use crate::text::{copy_range, decode, decoded, find_char, find_match, first_index};
use crate::text::{from_chars, lemma_first_match_is_least, lines, split_by, split_lines};
use crate::text::{starts_with, to_chars, trim, trimmed};

verus! {

/// How the entry of the dynamic linker begins.
pub open spec fn linker_name() -> Seq<char> {
    "ld-linux"@
}

/// What stands between a library's name and its path.
pub open spec fn arrow() -> Seq<char> {
    " => "@
}

/// The path that `line` gives for the dynamic linker: the line, without
/// surrounding white space, begins with the linker's name; cut at each
/// arrow, the line has a second piece; the path is that piece, without
/// surrounding white space. So the path ends where a second arrow starts.
pub open spec fn linker_entry(line: Seq<char>) -> Option<Seq<char>> {
    let pieces = split_by(line, arrow());
    if linker_name().is_prefix_of(trim(line)) && pieces.len() >= 2 {
        Some(trim(pieces[1]))
    } else {
        None
    }
}

/// The path of the first line that gives one for the dynamic linker.
pub open spec fn first_linker(catalog: Seq<Seq<char>>) -> Option<Seq<char>>
    decreases catalog.len(),
{
    if catalog.len() == 0 {
        None
    } else {
        match linker_entry(catalog.first()) {
            Some(path) => Some(path),
            None => first_linker(catalog.drop_first()),
        }
    }
}

/// Whether `line` belongs to the directory named above it.
pub open spec fn is_indented(line: Seq<char>) -> bool {
    line.len() > 0 && line.first() == '\t'
}

/// What `line` holds before its first colon; all of it where it has none.
pub open spec fn directory_of(line: Seq<char>) -> Seq<char> {
    line.take(first_index(line, ':'))
}

/// The directory that `line` names, unless it is indented.
pub open spec fn directory_entry(line: Seq<char>) -> Option<Seq<char>> {
    if is_indented(line) {
        None
    } else {
        Some(directory_of(line))
    }
}

/// The directories that the lines of a verbose listing name, in the order
/// of the listing: one for each line that is not indented.
pub open spec fn directories(listing: Seq<Seq<char>>) -> Seq<Seq<char>> {
    listing.filter_map(|line: Seq<char>| directory_entry(line))
}

/// The first linker entry of a catalog is what its first line with such an
/// entry gives; a catalog has none exactly if no line has one.
pub proof fn lemma_first_linker(catalog: Seq<Seq<char>>)
    ensures
        match first_linker(catalog) {
            Some(path) => exists|i: int|
                0 <= i < catalog.len() && linker_entry(#[trigger] catalog[i]) == Some(path)
                    && forall|j: int| 0 <= j < i ==> linker_entry(#[trigger] catalog[j]) is None,
            None => forall|i: int|
                0 <= i < catalog.len() ==> linker_entry(#[trigger] catalog[i]) is None,
        },
    decreases catalog.len(),
{
    if catalog.len() > 0 {
        let rest = catalog.drop_first();
        match linker_entry(catalog.first()) {
            Some(path) => {
            },
            None => {
                lemma_first_linker(rest);
                match first_linker(rest) {
                    Some(path) => {
                        let i = choose|i: int|
                            0 <= i < rest.len() && linker_entry(#[trigger] rest[i]) == Some(path)
                                && forall|j: int|
                                0 <= j < i ==> linker_entry(#[trigger] rest[j]) is None;
                        assert forall|j: int| 0 <= j < i + 1 implies linker_entry(
                            #[trigger] catalog[j],
                        ) is None by {
                            if j > 0 {
                                assert(catalog[j] == rest[j - 1]);
                            }
                        }
                    },
                    None => {
                        assert forall|i: int| 0 <= i < catalog.len() implies linker_entry(
                            #[trigger] catalog[i],
                        ) is None by {
                            if i > 0 {
                                assert(catalog[i] == rest[i - 1]);
                            }
                        }
                    },
                }
            },
        }
    }
}

/// The host's name for the dynamic linker, read from the output of the
/// catalog tool. Output that is not text is a failure of the tool; text
/// without an entry for the linker leaves the linker unknown.
pub open spec fn linker_path(roots: HostRoots, output: Seq<u8>) -> Result<Seq<char>, UnsandboxError> {
    match decoded(output) {
        None => Err(UnsandboxError::SubprocessError),
        Some(text) => match first_linker(lines(text)) {
            None => Err(UnsandboxError::LinkerNotFound),
            Some(path) => Ok(host_path(roots, path)),
        },
    }
}

/// The host's names for its library directories, read from the verbose
/// output of the catalog tool.
pub open spec fn library_paths(roots: HostRoots, output: Seq<u8>) -> Result<
    Seq<Seq<char>>,
    UnsandboxError,
> {
    match decoded(output) {
        None => Err(UnsandboxError::SubprocessError),
        Some(text) => Ok(host_paths(roots, directories(lines(text)))),
    }
}

/// Where both host directories lie outside of the sandbox's `/app` and
/// `/usr`, none of the library directories that are returned lies under
/// `/app` or `/usr`, and neither does the linker.
pub proof fn lemma_linkage_leaves_sandbox(roots: HostRoots, output: Seq<u8>)
    requires
        outside_sandbox(roots.app_path),
        outside_sandbox(roots.runtime_path),
    ensures
        library_paths(roots, output) matches Ok(found) ==> forall|i: int|
            0 <= i < found.len() ==> below(#[trigger] found[i], app_name()) is None && below(
                found[i],
                runtime_name(),
            ) is None,
        linker_path(roots, output) matches Ok(linker) ==> below(linker, app_name()) is None
            && below(linker, runtime_name()) is None,
{
    if let Ok(found) = library_paths(roots, output) {
        let named = directories(lines(decoded(output)->Some_0));
        assert forall|i: int| 0 <= i < found.len() implies below(
            #[trigger] found[i],
            app_name(),
        ) is None && below(found[i], runtime_name()) is None by {
            lemma_host_path_leaves_sandbox(roots, named[i]);
        }
    }
    if let Ok(linker) = linker_path(roots, output) {
        lemma_host_path_leaves_sandbox(roots, first_linker(lines(decoded(output)->Some_0))->Some_0);
    }
}

/// The path that `line` gives for the dynamic linker.
fn read_linker_entry(line: &Vec<char>) -> (r: Option<String>)
    ensures
        r.deep_view() == linker_entry(line@),
{
    let name = to_chars("ld-linux");
    let arrow = to_chars(" => ");
    proof {
        reveal_strlit(" => ");
        lemma_first_match_is_least(line@, arrow@);
    }
    if !starts_with(&trimmed(line), &name) {
        return None;
    }
    match find_match(line, &arrow) {
        None => None,
        Some(at) => {
            let tail = copy_range(line, at + arrow.len(), line.len());
            proof {
                lemma_first_match_is_least(tail@, arrow@);
            }
            let piece = match find_match(&tail, &arrow) {
                None => tail,
                Some(end) => copy_range(&tail, 0, end),
            };
            assert(split_by(line@, arrow@)[1] == split_by(tail@, arrow@)[0]);
            Some(from_chars(&trimmed(&piece)))
        },
    }
}

/// The path that the catalog `text` gives for the dynamic linker, as the
/// catalog names it.
pub fn find_linker(text: &str) -> (r: Option<String>)
    ensures
        r.deep_view() == first_linker(lines(text@)),
{
    let catalog = split_lines(&to_chars(text));
    let mut i: usize = 0;
    assert(catalog.deep_view().skip(0) =~= catalog.deep_view());
    while i < catalog.len()
        invariant
            i <= catalog.len(),
            catalog.deep_view() == lines(text@),
            first_linker(lines(text@)) == first_linker(catalog.deep_view().skip(i as int)),
        decreases catalog.len() - i,
    {
        proof {
            let rest = catalog.deep_view().skip(i as int);
            assert(catalog@[i as int].deep_view() =~= catalog@[i as int]@);
            assert(rest.drop_first() =~= catalog.deep_view().skip(i + 1));
        }
        match read_linker_entry(&catalog[i]) {
            Some(path) => {
                return Some(path);
            },
            None => {},
        }
        i += 1;
    }
    None
}

/// The directories that the verbose listing `text` names, as the listing
/// names them.
pub fn find_directories(text: &str) -> (r: Vec<String>)
    ensures
        r.deep_view() == directories(lines(text@)),
{
    let listing = split_lines(&to_chars(text));
    let mut r: Vec<String> = Vec::new();
    let mut i: usize = 0;
    while i < listing.len()
        invariant
            i <= listing.len(),
            listing.deep_view() == lines(text@),
            r.deep_view() == directories(listing.deep_view().take(i as int)),
        decreases listing.len() - i,
    {
        let line = &listing[i];
        proof {
            let done = listing.deep_view().take(i + 1);
            assert(listing@[i as int].deep_view() =~= line@);
            assert(done.drop_last() =~= listing.deep_view().take(i as int));
        }
        if !(line.len() > 0 && line[0] == '\t') {
            let end = find_char(line, 0, ':');
            let name = from_chars(&copy_range(line, 0, end));
            proof {
                assert(line@.skip(0) =~= line@);
            }
            r.push(name);
        }
        i += 1;
    }
    assert(listing.deep_view().take(listing.len() as int) =~= listing.deep_view());
    r
}

impl FlatpakInfo {
    /// The host's name for the dynamic linker, read from what the catalog
    /// tool printed when asked for all libraries.
    pub fn get_ld_path(&self, output: Vec<u8>) -> (r: Result<String, UnsandboxError>)
        ensures
            outcome(r) == linker_path(self@, output@),
    {
        match decode(output) {
            None => Err(UnsandboxError::SubprocessError),
            Some(text) => match find_linker(text.as_str()) {
                None => Err(UnsandboxError::LinkerNotFound),
                Some(path) => Ok(self.to_host_path(path.as_str())),
            },
        }
    }

    /// The host's names for its library directories, in the order of the
    /// catalog, read from what the catalog tool printed when asked to be
    /// verbose.
    pub fn get_all_lib_paths(&self, output: Vec<u8>) -> (r: Result<Vec<String>, UnsandboxError>)
        ensures
            outcome(r) == library_paths(self@, output@),
    {
        match decode(output) {
            None => Err(UnsandboxError::SubprocessError),
            Some(text) => Ok(self.to_host_paths(&find_directories(text.as_str()))),
        }
    }
}

} // verus!
