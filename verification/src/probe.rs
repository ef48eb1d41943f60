//! What exists in the file system, as far as a caller has looked.
//!
//! Telling a path from a literal needs to know which names exist. That
//! knowledge is a value here, a set of paths known to exist, so that
//! everything decided from it is a function of it. The set is either given
//! by the caller or gathered from the file system for a list of candidates.

use vstd::prelude::*;

verus! {

/// `std::path::Path::exists`: whether the file system has an entry under
/// this name right now. The answer depends on the file system, and on the
/// moment, so nothing is claimed about it.
#[verifier::external_body]
fn path_exists(path: &str) -> bool {
    std::path::Path::new(path).exists()
}

/// Where a sandbox keeps its instance metadata.
pub open spec fn metadata_location() -> Seq<char> {
    "/.flatpak-info"@
}

/// Where a sandbox keeps its instance metadata.
pub fn metadata_path() -> (r: &'static str)
    ensures
        r@ == metadata_location(),
{
    "/.flatpak-info"
}

/// Whether the process runs inside the sandbox: the sandbox, and only the
/// sandbox, has the instance metadata at the root of its file system. The
/// file system is asked for `metadata_path()`, and its answer is the result.
pub fn is_flatpaked() -> bool {
    path_exists(metadata_path())
}

/// Whether one of the first `upto` answers confirms `path`: it is `true` and
/// belongs to a candidate that is `path`.
pub open spec fn confirms(
    candidates: Seq<Seq<char>>,
    answers: Seq<bool>,
    upto: int,
    path: Seq<char>,
) -> bool {
    exists|i: int|
        0 <= i < upto && i < candidates.len() && i < answers.len() && answers[i]
            && #[trigger] candidates[i] == path
}

/// The candidates that the answers confirm: candidate `i` is among them
/// where answer `i` is `true`.
pub open spec fn confirmed(candidates: Seq<Seq<char>>, answers: Seq<bool>) -> Set<Seq<char>> {
    Set::new(|path: Seq<char>| confirms(candidates, answers, candidates.len() as int, path))
}

/// A set of paths known to exist.
#[derive(Clone, Debug, PartialEq, Eq)]
pub struct KnownPaths {
    paths: Vec<String>,
}

impl View for KnownPaths {
    type V = Set<Seq<char>>;

    closed spec fn view(&self) -> Set<Seq<char>> {
        self.paths.deep_view().to_set()
    }
}

impl KnownPaths {
    /// The knowledge that exactly `paths` exist.
    pub fn new(paths: Vec<String>) -> (r: KnownPaths)
        ensures
            r@ == paths.deep_view().to_set(),
    {
        KnownPaths { paths }
    }

    /// The knowledge that nothing exists.
    pub fn none() -> (r: KnownPaths)
        ensures
            r@ == Set::<Seq<char>>::empty(),
    {
        KnownPaths { paths: Vec::new() }
    }

    /// Whether `path` is known to exist.
    pub fn contains(&self, path: &str) -> (b: bool)
        ensures
            b == self@.contains(path@),
    {
        let needle = path.to_string();
        let mut i: usize = 0;
        while i < self.paths.len()
            invariant
                i <= self.paths.len(),
                needle@ == path@,
                forall|j: int| 0 <= j < i ==> self.paths.deep_view()[j] != path@,
            decreases self.paths.len() - i,
        {
            if self.paths[i] == needle {
                assert(self.paths.deep_view()[i as int] == path@);
                return true;
            }
            i += 1;
        }
        false
    }

    /// Whether every path of `paths` is known to exist.
    pub fn contains_all(&self, paths: &Vec<String>) -> (b: bool)
        ensures
            b == forall|i: int| 0 <= i < paths.len() ==> self@.contains(#[trigger] paths.deep_view()[i]),
    {
        let mut i: usize = 0;
        while i < paths.len()
            invariant
                i <= paths.len(),
                forall|j: int| 0 <= j < i ==> self@.contains(#[trigger] paths.deep_view()[j]),
            decreases paths.len() - i,
        {
            if !self.contains(paths[i].as_str()) {
                assert(!self@.contains(paths.deep_view()[i as int]));
                return false;
            }
            i += 1;
        }
        true
    }

    /// The knowledge that those candidates exist whose answer is `true`. The
    /// answers belong to the candidates by position; a candidate without an
    /// answer is not known to exist.
    pub fn from_answers(candidates: &Vec<String>, answers: &Vec<bool>) -> (r: KnownPaths)
        ensures
            r@ == confirmed(candidates.deep_view(), answers@),
    {
        let mut found: Vec<String> = Vec::new();
        let mut i: usize = 0;
        while i < candidates.len() && i < answers.len()
            invariant
                i <= candidates.len(),
                i <= answers.len(),
                forall|k: int|
                    0 <= k < found.len() ==> confirms(
                        candidates.deep_view(),
                        answers@,
                        i as int,
                        #[trigger] found.deep_view()[k],
                    ),
                forall|j: int|
                    0 <= j < i && answers@[j] ==> found.deep_view().contains(
                        #[trigger] candidates.deep_view()[j],
                    ),
            decreases candidates.len() - i,
        {
            let ghost before = found.deep_view();
            if answers[i] {
                found.push(candidates[i].clone());
                proof {
                    let path = candidates.deep_view()[i as int];
                    assert(found.deep_view() =~= before.push(path));
                    assert forall|j: int| 0 <= j < i + 1 && answers@[j] implies found.deep_view().contains(
                        #[trigger] candidates.deep_view()[j],
                    ) by {
                        if j < i {
                            let k = choose|k: int|
                                0 <= k < before.len() && before[k] == candidates.deep_view()[j];
                            assert(found.deep_view()[k] == candidates.deep_view()[j]);
                        } else {
                            assert(found.deep_view()[before.len() as int] == path);
                        }
                    }
                }
            }
            i += 1;
        }
        KnownPaths { paths: found }
    }

    /// Looks each candidate up in the file system and keeps those that
    /// exist. Which ones exist, only the file system decides: the result is
    /// what some answers, one for each candidate, confirm.
    pub fn probe(candidates: &Vec<String>) -> (r: KnownPaths)
        ensures
            exists|answers: Seq<bool>|
                answers.len() == candidates.len() && r@ == confirmed(
                    candidates.deep_view(),
                    answers,
                ),
    {
        let mut answers: Vec<bool> = Vec::new();
        let mut i: usize = 0;
        while i < candidates.len()
            invariant
                i <= candidates.len(),
                answers.len() == i,
            decreases candidates.len() - i,
        {
            answers.push(path_exists(candidates[i].as_str()));
            i += 1;
        }
        KnownPaths::from_answers(candidates, &answers)
    }
}

} // verus!
