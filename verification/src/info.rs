//! Where the host keeps what the sandbox shows under `/app` and `/usr`, and
//! the rewriting of sandbox paths to host paths.
//!
//! Paths are compared by their components, not by their spelling. The
//! components of a path are what stands between its separators; empty ones
//! and `.` do not count, so that `/app/bin`, `//app/bin` and `/./app/bin/`
//! all lie under `/app`, while `/application` and `/../app` do not. Only
//! absolute sandbox paths are rewritten: a relative `app/bin` is left as it
//! is. A path under `/app` becomes the host's application directory joined
//! with what follows `app`: a separator is put between the two unless the
//! directory ends with one, and what follows is taken as it is written but
//! for the separators and `.` components at its two ends. So `/app` becomes
//! the directory followed by a separator, and `/app//bin/./x/` becomes the
//! directory followed by `/bin/./x`.

use vstd::prelude::*;
use configparser::ini::Ini;
use crate::error::{outcome, UnsandboxError};
use crate::text::{copy_range, first_index, from_chars, has_at, lemma_first_index};
use crate::text::{lemma_first_index_bounds, lemma_split_joined, matches_at, split, to_chars};

verus! {

/// The two host directories of a sandbox instance, as character sequences.
pub struct HostRoots {
    /// The host directory that the sandbox shows as `/app`.
    pub app_path: Seq<char>,
    /// The host directory that the sandbox shows as `/usr`.
    pub runtime_path: Seq<char>,
}

/// The component under which the sandbox shows the application's files.
pub open spec fn app_name() -> Seq<char> {
    "app"@
}

/// The component under which the sandbox shows the runtime's files.
pub open spec fn runtime_name() -> Seq<char> {
    "usr"@
}

/// Whether `path` is not empty and starts at the root.
pub open spec fn is_absolute(path: Seq<char>) -> bool {
    path.len() > 0 && path[0] == '/'
}

/// Whether `s` begins with something that is no component: a separator, or
/// a `.` that a separator or the end follows.
pub open spec fn starts_blank(s: Seq<char>) -> bool {
    s.len() > 0 && (s[0] == '/' || (s[0] == '.' && (s.len() == 1 || s[1] == '/')))
}

/// Whether `s` ends with something that is no component: a separator, or a
/// `.` that stands behind a separator or at the start.
pub open spec fn ends_blank(s: Seq<char>) -> bool {
    s.len() > 0 && (s.last() == '/' || (s.last() == '.' && (s.len() == 1 || s[s.len() - 2]
        == '/')))
}

/// `s` from its first component on.
pub open spec fn trim_front(s: Seq<char>) -> Seq<char>
    decreases s.len(),
{
    if starts_blank(s) {
        trim_front(s.skip(1))
    } else {
        s
    }
}

/// `s` up to the end of its last component.
pub open spec fn trim_back(s: Seq<char>) -> Seq<char>
    decreases s.len(),
{
    if ends_blank(s) {
        trim_back(s.drop_last())
    } else {
        s
    }
}

/// Whether `s` begins with the component `name`: with its characters, and
/// behind them a separator or the end.
pub open spec fn begins_with(s: Seq<char>, name: Seq<char>) -> bool {
    matches_at(s, name, 0) && (s.len() == name.len() || s[name.len() as int] == '/')
}

/// What follows the component `name` in `path`, where `path` is absolute and
/// `name` is its first component: the rest of the path as it is written,
/// from its first component to the end of its last one. A path that does not
/// lie under `/name` has no such rest.
pub open spec fn below(path: Seq<char>, name: Seq<char>) -> Option<Seq<char>> {
    let first = trim_front(path.skip(1));
    if is_absolute(path) && begins_with(first, name) {
        Some(trim_back(trim_front(first.skip(name.len() as int))))
    } else {
        None
    }
}

/// The directory `root` with `rest` below it: a separator stands between the
/// two unless `root` is empty or ends with one.
pub open spec fn joined(root: Seq<char>, rest: Seq<char>) -> Seq<char> {
    if root.len() == 0 || root.last() == '/' {
        root + rest
    } else {
        root + seq!['/'] + rest
    }
}

/// The host's name for what the sandbox calls `path`: for a path under
/// `/app`, the host's application directory with the rest of the path below
/// it; for a path under `/usr`, the host's runtime directory in the same
/// way; any other path is the same on both sides.
pub open spec fn host_path(roots: HostRoots, path: Seq<char>) -> Seq<char> {
    match below(path, app_name()) {
        Some(rest) => joined(roots.app_path, rest),
        None => match below(path, runtime_name()) {
            Some(rest) => joined(roots.runtime_path, rest),
            None => path,
        },
    }
}

/// Each path of `paths` as the host names it, in the same order.
pub open spec fn host_paths(roots: HostRoots, paths: Seq<Seq<char>>) -> Seq<Seq<char>> {
    Seq::new(paths.len(), |i: int| host_path(roots, paths[i]))
}

/// A path that lies neither under `/app` nor under `/usr` is left as it is.
pub proof fn lemma_foreign_path_unchanged(roots: HostRoots, path: Seq<char>)
    requires
        below(path, app_name()) is None,
        below(path, runtime_name()) is None,
    ensures
        host_path(roots, path) == path,
{
}

/// A path under `/app` becomes the host's application directory with the
/// rest of the path below it: the result begins with that directory, and the
/// runtime directory has no part in it.
pub proof fn lemma_app_path_rewritten(roots: HostRoots, path: Seq<char>, other: HostRoots)
    requires
        below(path, app_name()) is Some,
        other.app_path == roots.app_path,
    ensures
        host_path(roots, path) == joined(roots.app_path, below(path, app_name())->Some_0),
        roots.app_path.is_prefix_of(host_path(roots, path)),
        host_path(roots, path) == host_path(other, path),
{
}

/// A path under `/usr` does not lie under `/app`. It becomes the host's
/// runtime directory with the rest of the path below it: the result begins
/// with that directory, and the application directory has no part in it.
pub proof fn lemma_runtime_path_rewritten(roots: HostRoots, path: Seq<char>, other: HostRoots)
    requires
        below(path, runtime_name()) is Some,
        other.runtime_path == roots.runtime_path,
    ensures
        below(path, app_name()) is None,
        host_path(roots, path) == joined(roots.runtime_path, below(path, runtime_name())->Some_0),
        roots.runtime_path.is_prefix_of(host_path(roots, path)),
        host_path(roots, path) == host_path(other, path),
{
    reveal_strlit("app");
    reveal_strlit("usr");
    let first = trim_front(path.skip(1));
    assert(first.subrange(0, 3)[0] == 'u');
}

/// For a path that is written plainly, `/app/` and then a rest that neither
/// begins nor ends with a separator or a `.` component, and a directory that
/// does not end with a separator, rewriting takes exactly the four
/// characters `/app` away and puts the directory in their place.
pub proof fn lemma_plain_app_path_rewritten(roots: HostRoots, rest: Seq<char>)
    requires
        rest.len() > 0,
        !starts_blank(rest),
        !ends_blank(rest),
        roots.app_path.len() > 0,
        roots.app_path.last() != '/',
    ensures
        ({
            let path = seq!['/'] + app_name() + seq!['/'] + rest;
            &&& host_path(roots, path) == roots.app_path + path.skip(4)
            &&& host_path(roots, path).len() == roots.app_path.len() + path.len() - 4
        }),
{
    reveal_strlit("app");
    let path = seq!['/'] + app_name() + seq!['/'] + rest;
    let first = path.skip(1);
    assert(first =~= app_name() + seq!['/'] + rest);
    assert(!starts_blank(first));
    assert(first.subrange(0, 3) =~= app_name());
    let behind = first.skip(3);
    assert(behind =~= seq!['/'] + rest);
    assert(behind.skip(1) =~= rest);
    reveal_with_fuel(trim_front, 2);
    assert(trim_front(behind) == rest);
    assert(path.skip(4) =~= behind);
    assert(roots.app_path + seq!['/'] + rest =~= roots.app_path + path.skip(4));
}

/// With absolute host roots, an absolute path stays absolute.
pub proof fn lemma_host_path_absolute(roots: HostRoots, path: Seq<char>)
    requires
        is_absolute(roots.app_path),
        is_absolute(roots.runtime_path),
        is_absolute(path),
    ensures
        is_absolute(host_path(roots, path)),
{
}

// ---------------------------------------------------------------------------
// Components
// ---------------------------------------------------------------------------

/// Whether what stands between two separators counts as a component: it is
/// neither empty nor `.`.
pub open spec fn is_component(piece: Seq<char>) -> bool {
    piece.len() > 0 && piece != seq!['.']
}

/// The test for components, as a function.
pub open spec fn component_test() -> spec_fn(Seq<char>) -> bool {
    |piece: Seq<char>| is_component(piece)
}

/// The components of `path`, in their order: what stands between its
/// separators, without what is empty or `.`.
pub open spec fn components(path: Seq<char>) -> Seq<Seq<char>> {
    split(path, '/').filter(component_test())
}

/// The components of two paths with a separator between them are those of
/// the first and then those of the second.
pub proof fn lemma_components_joined(a: Seq<char>, b: Seq<char>)
    ensures
        components(a + seq!['/'] + b) == components(a) + components(b),
{
    lemma_split_joined(a, b, '/');
    Seq::filter_distributes_over_add(split(a, '/'), split(b, '/'), component_test());
}

/// What holds no separator is one component, or none where it is empty or
/// `.`.
pub proof fn lemma_components_of_piece(piece: Seq<char>)
    requires
        !piece.contains('/'),
    ensures
        components(piece) == if is_component(piece) {
            seq![piece]
        } else {
            Seq::empty()
        },
{
    lemma_first_index_bounds(piece, '/');
    reveal_with_fuel(Seq::filter, 2);
}

/// `trim_front` takes no component away, and what it leaves does not begin
/// with anything but a component.
pub proof fn lemma_trim_front_components(s: Seq<char>)
    ensures
        components(trim_front(s)) == components(s),
        !starts_blank(trim_front(s)),
    decreases s.len(),
{
    let none = Seq::<char>::empty();
    lemma_components_of_piece(none);
    if starts_blank(s) {
        lemma_trim_front_components(s.skip(1));
        if s[0] == '/' {
            assert(s =~= none + seq!['/'] + s.skip(1));
            lemma_components_joined(none, s.skip(1));
        } else if s.len() == 1 {
            assert(s =~= seq!['.']);
            assert(s.skip(1) =~= none);
            lemma_components_of_piece(s);
        } else {
            let dot = seq!['.'];
            lemma_components_of_piece(dot);
            assert(s =~= dot + seq!['/'] + s.skip(2));
            lemma_components_joined(dot, s.skip(2));
            assert(s.skip(1) =~= none + seq!['/'] + s.skip(2));
            lemma_components_joined(none, s.skip(2));
        }
    }
}

/// `trim_back` takes no component away.
pub proof fn lemma_trim_back_components(s: Seq<char>)
    ensures
        components(trim_back(s)) == components(s),
    decreases s.len(),
{
    let none = Seq::<char>::empty();
    lemma_components_of_piece(none);
    if ends_blank(s) {
        let front = s.drop_last();
        lemma_trim_back_components(front);
        if s.last() == '/' {
            assert(s =~= front + seq!['/'] + none);
            lemma_components_joined(front, none);
        } else if s.len() == 1 {
            assert(s =~= seq!['.']);
            assert(front =~= none);
            lemma_components_of_piece(s);
        } else {
            let dot = seq!['.'];
            let before = s.take(s.len() - 2);
            lemma_components_of_piece(dot);
            assert(s =~= before + seq!['/'] + dot);
            lemma_components_joined(before, dot);
            assert(front =~= before + seq!['/'] + none);
            lemma_components_joined(before, none);
        }
    }
}

/// A path that begins with a component has that component first: it is
/// what stands before the first separator, and the components behind it are
/// those of what follows it.
pub proof fn lemma_first_component(s: Seq<char>)
    requires
        s.len() > 0,
        !starts_blank(s),
    ensures
        components(s).len() >= 1,
        components(s)[0] == s.take(first_index(s, '/')),
        components(s).drop_first() == components(s.skip(first_index(s, '/'))),
{
    let none = Seq::<char>::empty();
    let n = first_index(s, '/');
    let head = s.take(n);
    lemma_first_index_bounds(s, '/');
    lemma_components_of_piece(none);
    lemma_components_of_piece(head);
    if n == s.len() {
        assert(head =~= s);
        assert(s.skip(n) =~= none);
    } else {
        let tail = s.skip(n + 1);
        assert(s =~= head + seq!['/'] + tail);
        lemma_components_joined(head, tail);
        assert(s.skip(n) =~= none + seq!['/'] + tail);
        lemma_components_joined(none, tail);
    }
}

/// A path lies under `/name` exactly if it is absolute and `name` is its
/// first component, and what follows `name` has the components behind it.
pub proof fn lemma_below_by_components(path: Seq<char>, name: Seq<char>)
    requires
        is_component(name),
        !name.contains('/'),
    ensures
        below(path, name) is Some <==> is_absolute(path) && components(path).len() >= 1
            && components(path)[0] == name,
        below(path, name) is Some ==> components(below(path, name)->Some_0) == components(
            path,
        ).drop_first(),
{
    let none = Seq::<char>::empty();
    lemma_components_of_piece(none);
    if is_absolute(path) {
        let first = trim_front(path.skip(1));
        assert(path =~= none + seq!['/'] + path.skip(1));
        lemma_components_joined(none, path.skip(1));
        lemma_trim_front_components(path.skip(1));
        assert(components(path) =~= components(first));
        if first.len() == 0 {
            assert(first =~= none);
        } else {
            let n = first_index(first, '/');
            lemma_first_component(first);
            lemma_first_index_bounds(first, '/');
            if begins_with(first, name) {
                assert forall|j: int| 0 <= j < name.len() implies first[j] != '/' by {
                    assert(first.subrange(0, name.len() as int)[j] == name[j]);
                    if name[j] == '/' {
                        assert(name.contains('/'));
                    }
                }
                lemma_first_index(first, '/', name.len() as int);
                assert(first.take(n) =~= name);
                let behind = first.skip(name.len() as int);
                lemma_trim_front_components(behind);
                lemma_trim_back_components(trim_front(behind));
            }
            if first.take(n) == name {
                assert(first.subrange(0, name.len() as int) =~= first.take(n));
                assert(begins_with(first, name));
            }
        }
    }
}

/// A directory with a path below it has the components of the directory
/// and then those of the path, and is absolute where the directory is.
pub proof fn lemma_joined_components(root: Seq<char>, rest: Seq<char>)
    ensures
        components(joined(root, rest)) == components(root) + components(rest),
        is_absolute(root) ==> is_absolute(joined(root, rest)),
{
    let none = Seq::<char>::empty();
    lemma_components_of_piece(none);
    if root.len() == 0 {
        assert(root =~= none);
    } else if root.last() == '/' {
        let front = root.drop_last();
        assert(root =~= front + seq!['/'] + none);
        lemma_components_joined(front, none);
        lemma_components_joined(front, rest);
    } else {
        lemma_components_joined(root, rest);
    }
}

/// A path under `/app` has, on the host, the components of the application
/// directory and then its own components behind `app`: exactly that one
/// component is taken away, and every later one is kept in its order. The
/// same holds of a path under `/usr` and the runtime directory.
pub proof fn lemma_host_path_components(roots: HostRoots, path: Seq<char>)
    ensures
        below(path, app_name()) is Some ==> components(host_path(roots, path)) == components(
            roots.app_path,
        ) + components(path).drop_first(),
        below(path, runtime_name()) is Some ==> components(host_path(roots, path)) == components(
            roots.runtime_path,
        ) + components(path).drop_first(),
{
    lemma_names_are_components();
    lemma_below_by_components(path, app_name());
    lemma_below_by_components(path, runtime_name());
    if below(path, app_name()) is Some {
        lemma_joined_components(roots.app_path, below(path, app_name())->Some_0);
    } else if below(path, runtime_name()) is Some {
        lemma_joined_components(roots.runtime_path, below(path, runtime_name())->Some_0);
    }
}

/// `app` and `usr` are components without a separator.
pub proof fn lemma_names_are_components()
    ensures
        is_component(app_name()),
        !app_name().contains('/'),
        is_component(runtime_name()),
        !runtime_name().contains('/'),
        app_name() != runtime_name(),
{
    reveal_strlit("app");
    reveal_strlit("usr");
    assert(app_name()[0] == 'a');
}

/// A path that is not absolute, or whose first component is neither `app`
/// nor `usr`, is left as it is.
pub proof fn lemma_other_paths_unchanged(roots: HostRoots, path: Seq<char>)
    requires
        !is_absolute(path) || components(path).len() == 0 || (components(path)[0] != app_name()
            && components(path)[0] != runtime_name()),
    ensures
        host_path(roots, path) == path,
{
    lemma_names_are_components();
    lemma_below_by_components(path, app_name());
    lemma_below_by_components(path, runtime_name());
}

/// Whether `root` is a directory outside of what the sandbox shows under
/// `/app` and `/usr`: it is absolute, and it has a first component, which is
/// neither `app` nor `usr`.
pub open spec fn outside_sandbox(root: Seq<char>) -> bool {
    &&& is_absolute(root)
    &&& components(root).len() >= 1
    &&& components(root)[0] != app_name()
    &&& components(root)[0] != runtime_name()
}

/// Where both host directories lie outside of the sandbox's `/app` and
/// `/usr`, no path lies under `/app` or `/usr` any more once it is
/// rewritten.
pub proof fn lemma_host_path_leaves_sandbox(roots: HostRoots, path: Seq<char>)
    requires
        outside_sandbox(roots.app_path),
        outside_sandbox(roots.runtime_path),
    ensures
        below(host_path(roots, path), app_name()) is None,
        below(host_path(roots, path), runtime_name()) is None,
{
    let host = host_path(roots, path);
    lemma_names_are_components();
    lemma_host_path_components(roots, path);
    lemma_below_by_components(host, app_name());
    lemma_below_by_components(host, runtime_name());
    if below(path, app_name()) is Some {
        lemma_joined_components(roots.app_path, below(path, app_name())->Some_0);
    } else if below(path, runtime_name()) is Some {
        lemma_joined_components(roots.runtime_path, below(path, runtime_name())->Some_0);
    }
}

// ---------------------------------------------------------------------------
// The instance metadata
// ---------------------------------------------------------------------------

/// `configparser::ini::Ini`, a parsed configuration: sections, each with
/// keys, each with at most one value. Nothing is read from it but through
/// the functions below.
#[verifier::external_type_specification]
#[verifier::external_body]
pub struct ExIni(configparser::ini::Ini);

/// What a configuration holds: the value under a section and a key, both as
/// the configuration stores them. A key that stands alone on its line has no
/// value.
pub uninterp spec fn ini_entries(ini: Ini) -> Map<(Seq<char>, Seq<char>), Option<Seq<char>>>;

/// Whether a configuration has the settings that `Ini::new` gives it: names
/// are stored in lower case, `;` and `#` start a comment, `=` and `:` end a
/// key, values take one line, and the default section is not consulted for
/// keys that a section lacks.
pub uninterp spec fn ini_has_defaults(ini: Ini) -> bool;

/// What a configuration with the settings of `Ini::new` holds once it has
/// read `text`; `None` where it rejects the text.
pub uninterp spec fn ini_parsed(text: Seq<char>) -> Option<
    Map<(Seq<char>, Seq<char>), Option<Seq<char>>>,
>;

/// Whether `name` is written in ASCII without capital letters.
pub open spec fn is_lower_ascii(name: Seq<char>) -> bool {
    forall|i: int|
        0 <= i < name.len() ==> (#[trigger] name[i]) as u32 <= 0x7F && !('A' <= name[i] <= 'Z')
}

/// The value that `entries` hold under `section` and `key`.
pub open spec fn lookup(
    entries: Map<(Seq<char>, Seq<char>), Option<Seq<char>>>,
    section: Seq<char>,
    key: Seq<char>,
) -> Option<Seq<char>> {
    if entries.contains_key((section, key)) {
        entries[(section, key)]
    } else {
        None
    }
}

/// `configparser::ini::Ini::new` makes a configuration with the default
/// settings.
pub assume_specification[ configparser::ini::Ini::new ]() -> (ini: Ini)
    ensures
        ini_has_defaults(ini),
;

/// The length from which on a text is not handed to the parser. The parser
/// numbers the lines that it reads in a counter of 32 bits, which it moves
/// on once more than there are lines; a text has at most as many lines as
/// characters, so below this length the counter cannot run over.
pub const METADATA_LIMIT: usize = 0x7fff_fffe;

/// `configparser::ini::Ini::read` parses the text with the configuration's
/// settings and, where it accepts the text, replaces what the configuration
/// held by what the text says. The settings stay as they are. The text has
/// to be short enough for the parser's line counter.
#[verifier::external_body]
fn ini_read(ini: &mut Ini, text: String) -> (accepted: bool)
    requires
        ini_has_defaults(*old(ini)),
        text@.len() < METADATA_LIMIT,
    ensures
        ini_has_defaults(*final(ini)),
        accepted == ini_parsed(text@) is Some,
        accepted ==> ini_entries(*final(ini)) == ini_parsed(text@)->Some_0,
{
    ini.read(text).is_ok()
}

/// `configparser::ini::Ini::get` returns the value that the configuration
/// holds under the section and the key. With the default settings it looks
/// both names up in lower case, and a name that is already written in
/// lower-case ASCII is looked up as it is. A key without a value, a key
/// that the section lacks and a section that the configuration lacks all
/// give `None`.
pub assume_specification[ configparser::ini::Ini::get ](
    ini: &Ini,
    section: &str,
    key: &str,
) -> (value: Option<String>)
    requires
        ini_has_defaults(*ini),
        is_lower_ascii(section@),
        is_lower_ascii(key@),
    ensures
        value.deep_view() == lookup(ini_entries(*ini), section@, key@),
;

/// The section of the instance metadata that names the host roots, as the
/// parser stores it.
pub open spec fn instance_section() -> Seq<char> {
    "instance"@
}

/// The value of `key` in the instance section of the metadata `text`.
pub open spec fn metadata_value(text: Seq<char>, key: Seq<char>) -> Option<Seq<char>> {
    match ini_parsed(text) {
        Some(entries) => lookup(entries, instance_section(), key),
        None => None,
    }
}

/// The host roots made of two paths: both have to be absolute.
pub open spec fn roots_from(app_path: Seq<char>, runtime_path: Seq<char>) -> Result<
    HostRoots,
    UnsandboxError,
> {
    if is_absolute(app_path) && is_absolute(runtime_path) {
        Ok(HostRoots { app_path, runtime_path })
    } else {
        Err(UnsandboxError::ConfigMalformed)
    }
}

/// The host roots made of what the metadata holds under its two keys: both
/// have to be there, and both have to be absolute paths.
pub open spec fn roots_from_values(
    app_path: Option<Seq<char>>,
    runtime_path: Option<Seq<char>>,
) -> Result<HostRoots, UnsandboxError> {
    match (app_path, runtime_path) {
        (Some(app_path), Some(runtime_path)) => roots_from(app_path, runtime_path),
        _ => Err(UnsandboxError::ConfigMalformed),
    }
}

/// The host roots that the metadata `text` names: its instance section has
/// to give an absolute path under `app-path` and under `runtime-path`. A
/// text of `METADATA_LIMIT` characters or more is not read and names none.
pub open spec fn loaded(text: Seq<char>) -> Result<HostRoots, UnsandboxError> {
    if text.len() >= METADATA_LIMIT {
        Err(UnsandboxError::ConfigMalformed)
    } else {
        roots_from_values(metadata_value(text, "app-path"@), metadata_value(text, "runtime-path"@))
    }
}

/// Where the first component of `v` at or behind `from` starts.
fn skip_blanks(v: &Vec<char>, from: usize) -> (i: usize)
    requires
        from <= v.len(),
    ensures
        from <= i <= v.len(),
        v@.skip(i as int) == trim_front(v@.skip(from as int)),
{
    let mut i: usize = from;
    while i < v.len() && (v[i] == '/' || (v[i] == '.' && (i + 1 == v.len() || v[i + 1] == '/')))
        invariant
            from <= i <= v.len(),
            trim_front(v@.skip(i as int)) == trim_front(v@.skip(from as int)),
        decreases v.len() - i,
    {
        assert(v@.skip(i as int).skip(1) =~= v@.skip(i + 1));
        i += 1;
    }
    i
}

/// Where the last component of `v[lo..hi]` ends.
fn drop_blanks(v: &Vec<char>, lo: usize, hi: usize) -> (j: usize)
    requires
        lo <= hi <= v.len(),
    ensures
        lo <= j <= hi,
        v@.subrange(lo as int, j as int) == trim_back(v@.subrange(lo as int, hi as int)),
{
    let mut j: usize = hi;
    while j > lo && (v[j - 1] == '/' || (v[j - 1] == '.' && (j - 1 == lo || v[j - 2] == '/')))
        invariant
            lo <= j <= hi <= v.len(),
            trim_back(v@.subrange(lo as int, j as int)) == trim_back(
                v@.subrange(lo as int, hi as int),
            ),
        decreases j - lo,
    {
        assert(v@.subrange(lo as int, j as int).drop_last() =~= v@.subrange(lo as int, j - 1));
        j -= 1;
    }
    j
}

/// What follows the component `name` in `path`, where `path` is absolute and
/// `name` is its first component.
fn rest_below(path: &Vec<char>, name: &Vec<char>) -> (r: Option<Vec<char>>)
    ensures
        r.deep_view() == below(path@, name@),
{
    if path.len() == 0 || path[0] != '/' {
        return None;
    }
    let start = skip_blanks(path, 1);
    let ghost first = path@.skip(start as int);
    if !has_at(path, start, name) {
        assert(!matches_at(first, name@, 0)) by {
            if matches_at(first, name@, 0) {
                assert(path@.subrange(start as int, start + name@.len()) =~= first.subrange(
                    0,
                    name@.len() as int,
                ));
            }
        }
        return None;
    }
    assert(matches_at(first, name@, 0)) by {
        assert(path@.subrange(start as int, start + name@.len()) =~= first.subrange(
            0,
            name@.len() as int,
        ));
    }
    let end = start + name.len();
    if end < path.len() && path[end] != '/' {
        return None;
    }
    assert(first.skip(name@.len() as int) =~= path@.skip(end as int));
    let lo = skip_blanks(path, end);
    let hi = drop_blanks(path, lo, path.len());
    let rest = copy_range(path, lo, hi);
    Some(rest)
}

/// The directory `root` with `rest` below it.
fn join_below(root: &String, rest: &Vec<char>) -> (r: String)
    ensures
        r@ == joined(root@, rest@),
{
    let chars = to_chars(root.as_str());
    let mut r = root.clone();
    if chars.len() > 0 && chars[chars.len() - 1] != '/' {
        r.push('/');
    }
    r.append(from_chars(rest).as_str());
    r
}

/// Whether `path` is not empty and starts at the root.
fn begins_at_root(path: &str) -> (r: bool)
    ensures
        r == is_absolute(path@),
{
    let chars = to_chars(path);
    chars.len() > 0 && chars[0] == '/'
}

/// The instance descriptor: the host directories behind the sandbox's `/app`
/// and `/usr`. Both are absolute paths.
#[derive(Clone, Debug, PartialEq, Eq)]
pub struct FlatpakInfo {
    app_path: String,
    runtime_path: String,
}

impl View for FlatpakInfo {
    type V = HostRoots;

    closed spec fn view(&self) -> HostRoots {
        HostRoots { app_path: self.app_path@, runtime_path: self.runtime_path@ }
    }
}

impl DeepView for FlatpakInfo {
    type V = HostRoots;

    open spec fn deep_view(&self) -> HostRoots {
        self@
    }
}

impl FlatpakInfo {
    /// What every descriptor satisfies: both roots are absolute paths.
    pub open spec fn well_formed(&self) -> bool {
        is_absolute(self@.app_path) && is_absolute(self@.runtime_path)
    }

    /// The descriptor with these two host roots. Both have to be absolute
    /// paths; otherwise there is no such descriptor.
    pub fn from_paths(app_path: String, runtime_path: String) -> (r: Result<
        FlatpakInfo,
        UnsandboxError,
    >)
        ensures
            outcome(r) == roots_from(app_path@, runtime_path@),
            r matches Ok(info) ==> info.well_formed(),
    {
        if begins_at_root(app_path.as_str()) && begins_at_root(runtime_path.as_str()) {
            Ok(FlatpakInfo { app_path, runtime_path })
        } else {
            Err(UnsandboxError::ConfigMalformed)
        }
    }

    /// The descriptor made of what the metadata holds under `app-path` and
    /// under `runtime-path`. Both values have to be there, and both have to
    /// be absolute paths; otherwise the metadata is malformed.
    pub fn from_values(app_path: Option<String>, runtime_path: Option<String>) -> (r: Result<
        FlatpakInfo,
        UnsandboxError,
    >)
        ensures
            outcome(r) == roots_from_values(app_path.deep_view(), runtime_path.deep_view()),
            r matches Ok(info) ==> info.well_formed(),
    {
        match (app_path, runtime_path) {
            (Some(app_path), Some(runtime_path)) => FlatpakInfo::from_paths(app_path, runtime_path),
            _ => Err(UnsandboxError::ConfigMalformed),
        }
    }

    /// The descriptor that the instance metadata `metadata` names. The
    /// metadata is a text of sections with keys; its section `Instance` has
    /// to give an absolute path under `app-path` and under `runtime-path`.
    /// Metadata that cannot be parsed, or that lacks one of the two, is
    /// malformed, and so is metadata of `METADATA_LIMIT` characters or
    /// more, which is not parsed at all. Section and key are found whatever
    /// their case: the parser stores all names in lower case.
    pub fn from_metadata(metadata: &str) -> (r: Result<FlatpakInfo, UnsandboxError>)
        ensures
            outcome(r) == loaded(metadata@),
            r matches Ok(info) ==> info.well_formed(),
    {
        if metadata.unicode_len() >= METADATA_LIMIT {
            return Err(UnsandboxError::ConfigMalformed);
        }
        let mut ini = Ini::new();
        if !ini_read(&mut ini, metadata.to_string()) {
            return Err(UnsandboxError::ConfigMalformed);
        }
        proof {
            reveal_strlit("instance");
            reveal_strlit("app-path");
            reveal_strlit("runtime-path");
        }
        let app_path = ini.get("instance", "app-path");
        let runtime_path = ini.get("instance", "runtime-path");
        FlatpakInfo::from_values(app_path, runtime_path)
    }

    /// The host directory that the sandbox shows as `/app`.
    pub fn app_path(&self) -> (r: &str)
        ensures
            r@ == self@.app_path,
    {
        self.app_path.as_str()
    }

    /// The host directory that the sandbox shows as `/usr`.
    pub fn runtime_path(&self) -> (r: &str)
        ensures
            r@ == self@.runtime_path,
    {
        self.runtime_path.as_str()
    }

    /// The host's name for what the sandbox calls `path`.
    pub fn to_host_path(&self, path: &str) -> (r: String)
        ensures
            r@ == host_path(self@, path@),
    {
        let chars = to_chars(path);
        match rest_below(&chars, &to_chars("app")) {
            Some(rest) => join_below(&self.app_path, &rest),
            None => match rest_below(&chars, &to_chars("usr")) {
                Some(rest) => join_below(&self.runtime_path, &rest),
                None => path.to_string(),
            },
        }
    }

    /// Each path of `paths` as the host names it, in the same order.
    pub fn to_host_paths(&self, paths: &Vec<String>) -> (r: Vec<String>)
        ensures
            r.deep_view() == host_paths(self@, paths.deep_view()),
    {
        let mut r: Vec<String> = Vec::new();
        let mut i: usize = 0;
        while i < paths.len()
            invariant
                i <= paths.len(),
                r.deep_view() == host_paths(self@, paths.deep_view().take(i as int)),
            decreases paths.len() - i,
        {
            let host = self.to_host_path(paths[i].as_str());
            let ghost before = r.deep_view();
            r.push(host);
            assert(r.deep_view() =~= before.push(host@));
            i += 1;
        }
        r
    }
}

} // verus!
