//! Text as sequences of characters: trimming, splitting, joining and line
//! breaking, each with a mathematical definition and an executable
//! counterpart proved against it.

use vstd::prelude::*;
use vstd::std_specs::iter::IteratorSpec;
use vstd::utf8::{decode_utf8, valid_utf8};

verus! {

/// `String::push` of the standard library appends exactly one character and
/// leaves the characters before it as they were.
pub assume_specification[ String::push ](s: &mut String, c: char)
    ensures
        final(s)@ == old(s)@.push(c),
;

/// The error of `String::from_utf8`; nothing is read from it.
#[verifier::external_type_specification]
#[verifier::external_body]
pub struct ExFromUtf8Error(std::string::FromUtf8Error);

/// `String::from_utf8` of the standard library accepts exactly the byte
/// sequences that are valid UTF-8, and the string it returns then holds the
/// characters that these bytes encode.
pub assume_specification[ String::from_utf8 ](vec: Vec<u8>) -> (r: Result<
    String,
    std::string::FromUtf8Error,
>)
    ensures
        r is Ok <==> valid_utf8(vec@),
        r matches Ok(s) ==> s@ == decode_utf8(vec@),
;

/// The text that `bytes` encode, if they encode any.
pub open spec fn decoded(bytes: Seq<u8>) -> Option<Seq<char>> {
    if valid_utf8(bytes) {
        Some(decode_utf8(bytes))
    } else {
        None
    }
}

/// The text that `bytes` encode, if they encode any.
pub fn decode(bytes: Vec<u8>) -> (r: Option<String>)
    ensures
        r.deep_view() == decoded(bytes@),
{
    match String::from_utf8(bytes) {
        Ok(text) => Some(text),
        Err(_) => None,
    }
}

/// The characters of `s`, in order.
pub fn to_chars(s: &str) -> (v: Vec<char>)
    ensures
        v@ == s@,
{
    let mut v: Vec<char> = Vec::new();
    for c in it: s.chars()
        invariant
            it.seq() == s@,
            v@ == it.seq().take(it.index() as int),
    {
        v.push(c);
    }
    v
}

/// The string made of the characters of `v`, in order.
pub fn from_chars(v: &Vec<char>) -> (s: String)
    ensures
        s@ == v@,
{
    let mut s = String::new();
    let mut i: usize = 0;
    while i < v.len()
        invariant
            i <= v.len(),
            s@ == v@.take(i as int),
        decreases v.len() - i,
    {
        s.push(v[i]);
        i += 1;
    }
    s
}

/// The characters `v[lo..hi]` as a vector of their own.
pub(crate) fn copy_range(v: &Vec<char>, lo: usize, hi: usize) -> (r: Vec<char>)
    requires
        lo <= hi <= v.len(),
    ensures
        r@ == v@.subrange(lo as int, hi as int),
{
    let mut r: Vec<char> = Vec::new();
    let mut i: usize = lo;
    while i < hi
        invariant
            lo <= i <= hi <= v.len(),
            r@ == v@.subrange(lo as int, i as int),
        decreases hi - i,
    {
        r.push(v[i]);
        i += 1;
    }
    r
}

// ---------------------------------------------------------------------------
// White space and trimming
// ---------------------------------------------------------------------------

/// The characters that count as white space: those with the Unicode
/// property `White_Space`.
pub open spec fn is_space(c: char) -> bool {
    let u = c as u32;
    ||| 0x09 <= u <= 0x0D
    ||| u == 0x20
    ||| u == 0x85
    ||| u == 0xA0
    ||| u == 0x1680
    ||| 0x2000 <= u <= 0x200A
    ||| u == 0x2028
    ||| u == 0x2029
    ||| u == 0x202F
    ||| u == 0x205F
    ||| u == 0x3000
}

/// Whether `c` is white space.
pub fn is_whitespace(c: char) -> (b: bool)
    ensures
        b == is_space(c),
{
    let u: u32 = c as u32;
    (0x09 <= u && u <= 0x0D) || u == 0x20 || u == 0x85 || u == 0xA0 || u == 0x1680 || (0x2000 <= u
        && u <= 0x200A) || u == 0x2028 || u == 0x2029 || u == 0x202F || u == 0x205F || u == 0x3000
}

/// `s` without its leading white space.
pub open spec fn trim_start(s: Seq<char>) -> Seq<char>
    decreases s.len(),
{
    if s.len() > 0 && is_space(s.first()) {
        trim_start(s.drop_first())
    } else {
        s
    }
}

/// `s` without its trailing white space.
pub open spec fn trim_end(s: Seq<char>) -> Seq<char>
    decreases s.len(),
{
    if s.len() > 0 && is_space(s.last()) {
        trim_end(s.drop_last())
    } else {
        s
    }
}

/// `s` without the white space that surrounds it.
pub open spec fn trim(s: Seq<char>) -> Seq<char> {
    trim_end(trim_start(s))
}

/// What `trim_start` takes away: it returns how many characters, all of
/// them white space, and what follows them does not begin with white space.
pub proof fn lemma_trim_start(s: Seq<char>) -> (cut: int)
    ensures
        0 <= cut <= s.len(),
        trim_start(s) == s.skip(cut),
        forall|i: int| 0 <= i < cut ==> is_space(#[trigger] s[i]),
        cut < s.len() ==> !is_space(s[cut]),
    decreases s.len(),
{
    if s.len() > 0 && is_space(s.first()) {
        let rest = s.drop_first();
        let cut = lemma_trim_start(rest);
        assert forall|i: int| 0 <= i < cut + 1 implies is_space(#[trigger] s[i]) by {
            if i > 0 {
                assert(s[i] == rest[i - 1]);
            }
        }
        cut + 1
    } else {
        0
    }
}

/// What `trim_end` keeps: it returns how many characters; those behind them
/// are all white space, and the last one kept is not.
pub proof fn lemma_trim_end(s: Seq<char>) -> (kept: int)
    ensures
        0 <= kept <= s.len(),
        trim_end(s) == s.take(kept),
        forall|i: int| kept <= i < s.len() ==> is_space(#[trigger] s[i]),
        kept > 0 ==> !is_space(s[kept - 1]),
    decreases s.len(),
{
    if s.len() > 0 && is_space(s.last()) {
        let rest = s.drop_last();
        let kept = lemma_trim_end(rest);
        assert forall|i: int| kept <= i < s.len() implies is_space(#[trigger] s[i]) by {
            if i < rest.len() {
                assert(s[i] == rest[i]);
            }
        }
        kept
    } else {
        s.len() as int
    }
}

/// Trimming takes away white space at both ends and nothing else: what is
/// left is a stretch of `s`, the characters before and behind it are all
/// white space, and it neither begins nor ends with white space.
pub proof fn lemma_trim(s: Seq<char>) -> (bounds: (int, int))
    ensures
        0 <= bounds.0 <= bounds.1 <= s.len(),
        trim(s) == s.subrange(bounds.0, bounds.1),
        forall|i: int| 0 <= i < bounds.0 ==> is_space(#[trigger] s[i]),
        forall|i: int| bounds.1 <= i < s.len() ==> is_space(#[trigger] s[i]),
        trim(s).len() > 0 ==> !is_space(trim(s).first()) && !is_space(trim(s).last()),
{
    let cut = lemma_trim_start(s);
    let rest = s.skip(cut);
    let kept = lemma_trim_end(rest);
    assert forall|i: int| cut + kept <= i < s.len() implies is_space(#[trigger] s[i]) by {
        assert(s[i] == rest[i - cut]);
    }
    (cut, cut + kept)
}

/// Trimming leaves exactly those strings as they are that are empty or
/// neither begin nor end with white space.
pub proof fn lemma_trim_keeps(s: Seq<char>)
    ensures
        trim(s) == s <==> s.len() == 0 || (!is_space(s.first()) && !is_space(s.last())),
{
    lemma_trim(s);
}

/// The characters of `v` without surrounding white space.
pub fn trimmed(v: &Vec<char>) -> (r: Vec<char>)
    ensures
        r@ == trim(v@),
{
    let mut lo: usize = 0;
    assert(v@.skip(0) =~= v@);
    while lo < v.len() && is_whitespace(v[lo])
        invariant
            lo <= v.len(),
            trim_start(v@) == trim_start(v@.skip(lo as int)),
        decreases v.len() - lo,
    {
        assert(v@.skip(lo as int).drop_first() =~= v@.skip(lo + 1));
        lo += 1;
    }
    let mut hi: usize = v.len();
    while hi > lo && is_whitespace(v[hi - 1])
        invariant
            lo <= hi <= v.len(),
            trim(v@) == trim_end(v@.subrange(lo as int, hi as int)),
        decreases hi - lo,
    {
        assert(v@.subrange(lo as int, hi as int).drop_last() =~= v@.subrange(
            lo as int,
            hi - 1,
        ));
        hi -= 1;
    }
    copy_range(v, lo, hi)
}

// ---------------------------------------------------------------------------
// Searching
// ---------------------------------------------------------------------------

/// The position of the first `c` in `s`, or the length of `s` where it holds
/// none.
pub open spec fn first_index(s: Seq<char>, c: char) -> int
    decreases s.len(),
{
    if s.len() == 0 || s.first() == c {
        0
    } else {
        1 + first_index(s.drop_first(), c)
    }
}

/// `first_index` is the one position before which no `c` stands and at which
/// either `s` ends or a `c` stands.
pub proof fn lemma_first_index(s: Seq<char>, c: char, i: int)
    requires
        0 <= i <= s.len(),
        forall|j: int| 0 <= j < i ==> s[j] != c,
        i == s.len() || s[i] == c,
    ensures
        first_index(s, c) == i,
    decreases s.len(),
{
    if s.len() > 0 && s.first() != c {
        lemma_first_index(s.drop_first(), c, i - 1);
    }
}

/// What `first_index` returns lies within `s`, no `c` stands before it, and
/// a `c` stands at it unless it is the length.
pub proof fn lemma_first_index_bounds(s: Seq<char>, c: char)
    ensures
        0 <= first_index(s, c) <= s.len(),
        forall|j: int| 0 <= j < first_index(s, c) ==> s[j] != c,
        first_index(s, c) < s.len() ==> s[first_index(s, c)] == c,
        first_index(s, c) == s.len() <==> !s.contains(c),
    decreases s.len(),
{
    if s.len() > 0 && s.first() != c {
        let t = s.drop_first();
        lemma_first_index_bounds(t, c);
        assert forall|j: int| 0 <= j < first_index(t, c) + 1 implies s[j] != c by {
            if j > 0 {
                assert(t[j - 1] == s[j]);
            }
        }
    }
}

/// The position of the first `c` in `v` at or after `from`, or the length of
/// `v` where none follows.
pub(crate) fn find_char(v: &Vec<char>, from: usize, c: char) -> (i: usize)
    requires
        from <= v.len(),
    ensures
        i == from + first_index(v@.skip(from as int), c),
        from <= i <= v.len(),
{
    let mut i: usize = from;
    while i < v.len() && v[i] != c
        invariant
            from <= i <= v.len(),
            forall|j: int| from <= j < i ==> v@[j] != c,
        decreases v.len() - i,
    {
        i += 1;
    }
    proof {
        lemma_first_index(v@.skip(from as int), c, i - from);
    }
    i
}

/// Whether `s` holds `pat` from position `at` on.
pub open spec fn matches_at(s: Seq<char>, pat: Seq<char>, at: int) -> bool {
    0 <= at && at + pat.len() <= s.len() && s.subrange(at, at + pat.len()) == pat
}

/// The position at which `pat` first occurs in `s`, if it occurs.
#[verifier::opaque]
pub open spec fn first_match(s: Seq<char>, pat: Seq<char>) -> Option<int> {
    if exists|i: int| matches_at(s, pat, i) {
        let i = choose|i: int| matches_at(s, pat, i) && forall|j: int| j < i ==> !matches_at(s, pat, j);
        Some(i)
    } else {
        None
    }
}

/// Among the positions at which a pattern occurs there is a least one.
proof fn lemma_least_match(s: Seq<char>, pat: Seq<char>, i: int)
    requires
        matches_at(s, pat, i),
    ensures
        exists|k: int| matches_at(s, pat, k) && forall|j: int| j < k ==> !matches_at(s, pat, j),
    decreases i,
{
    if exists|j: int| j < i && matches_at(s, pat, j) {
        let j = choose|j: int| j < i && matches_at(s, pat, j);
        lemma_least_match(s, pat, j);
    }
}

/// `first_match` is the least position at which the pattern occurs.
pub proof fn lemma_first_match(s: Seq<char>, pat: Seq<char>, i: int)
    requires
        matches_at(s, pat, i),
        forall|j: int| 0 <= j < i ==> !matches_at(s, pat, j),
    ensures
        first_match(s, pat) == Some(i),
{
    reveal(first_match);
    lemma_least_match(s, pat, i);
}

/// Whether `v` holds `pat` from position `at` on.
pub(crate) fn has_at(v: &Vec<char>, at: usize, pat: &Vec<char>) -> (r: bool)
    requires
        at <= v.len(),
    ensures
        r == matches_at(v@, pat@, at as int),
{
    if pat.len() > v.len() - at {
        return false;
    }
    let mut k: usize = 0;
    while k < pat.len()
        invariant
            k <= pat.len(),
            at + pat.len() <= v.len(),
            v@.subrange(at as int, at + k) == pat@.take(k as int),
        decreases pat.len() - k,
    {
        if v[at + k] != pat[k] {
            return false;
        }
        k += 1;
    }
    assert(pat@.take(pat.len() as int) =~= pat@);
    true
}

/// The position at which `pat` first occurs in `v`, if it occurs.
pub fn find_match(v: &Vec<char>, pat: &Vec<char>) -> (r: Option<usize>)
    ensures
        match r {
            Some(i) => first_match(v@, pat@) == Some(i as int) && i + pat.len() <= v.len(),
            None => first_match(v@, pat@) is None,
        },
{
    let mut i: usize = 0;
    while i <= v.len()
        invariant
            forall|j: int| 0 <= j < i ==> !matches_at(v@, pat@, j),
        decreases v.len() + 1 - i,
    {
        if has_at(v, i, pat) {
            proof {
                lemma_first_match(v@, pat@, i as int);
            }
            return Some(i);
        }
        if i == v.len() {
            proof {
                lemma_first_match_is_least(v@, pat@);
            }
            return None;
        }
        i += 1;
    }
    proof {
        lemma_first_match_is_least(v@, pat@);
    }
    None
}

/// Whether `v` begins with `pat`.
pub fn starts_with(v: &Vec<char>, pat: &Vec<char>) -> (r: bool)
    ensures
        r == pat@.is_prefix_of(v@),
{
    has_at(v, 0, pat)
}

// ---------------------------------------------------------------------------
// Splitting and joining
// ---------------------------------------------------------------------------

/// The pieces of `s` between the occurrences of `d`, in order. A string
/// without `d` is one piece; `n` occurrences make `n + 1` pieces, some of
/// which may be empty.
pub open spec fn split(s: Seq<char>, d: char) -> Seq<Seq<char>>
    decreases s.len(),
{
    let n = first_index(s, d);
    if 0 <= n < s.len() {
        seq![s.take(n)] + split(s.skip(n + 1), d)
    } else {
        seq![s]
    }
}

/// The pieces, with `sep` between each two neighbours.
pub open spec fn join(parts: Seq<Seq<char>>, sep: Seq<char>) -> Seq<char>
    decreases parts.len(),
{
    if parts.len() == 0 {
        Seq::empty()
    } else if parts.len() == 1 {
        parts[0]
    } else {
        parts[0] + sep + join(parts.drop_first(), sep)
    }
}

/// Joining one more piece appends the separator and the piece.
pub proof fn lemma_join_push(parts: Seq<Seq<char>>, sep: Seq<char>, last: Seq<char>)
    requires
        parts.len() > 0,
    ensures
        join(parts.push(last), sep) == join(parts, sep) + sep + last,
    decreases parts.len(),
{
    let all = parts.push(last);
    assert(all.drop_first() =~= parts.drop_first().push(last));
    if parts.len() == 1 {
        assert(join(all.drop_first(), sep) == last);
    } else {
        lemma_join_push(parts.drop_first(), sep, last);
    }
}

/// Splitting yields at least one piece, and no piece holds the delimiter.
pub proof fn lemma_split_pieces(s: Seq<char>, d: char)
    ensures
        split(s, d).len() >= 1,
        forall|i: int| 0 <= i < split(s, d).len() ==> !(#[trigger] split(s, d)[i]).contains(d),
    decreases s.len(),
{
    lemma_first_index_bounds(s, d);
    let n = first_index(s, d);
    if n < s.len() {
        let rest = s.skip(n + 1);
        lemma_split_pieces(rest, d);
    }
}

/// Joining the pieces of a split with the delimiter gives the string back.
pub proof fn lemma_split_join(s: Seq<char>, d: char)
    ensures
        join(split(s, d), seq![d]) == s,
    decreases s.len(),
{
    lemma_first_index_bounds(s, d);
    let n = first_index(s, d);
    if n < s.len() {
        let rest = s.skip(n + 1);
        lemma_split_join(rest, d);
        lemma_split_pieces(rest, d);
        let pieces = split(s, d);
        assert(pieces.drop_first() =~= split(rest, d));
    }
}

/// Splitting two strings with the delimiter between them gives the pieces
/// of the first and then the pieces of the second.
pub proof fn lemma_split_joined(a: Seq<char>, b: Seq<char>, d: char)
    ensures
        split(a + seq![d] + b, d) == split(a, d) + split(b, d),
    decreases a.len(),
{
    let whole = a + seq![d] + b;
    lemma_first_index_bounds(a, d);
    let n = first_index(a, d);
    assert forall|j: int| 0 <= j < n implies whole[j] != d by {
        assert(whole[j] == a[j]);
    }
    lemma_first_index(whole, d, n);
    assert(whole.take(n) =~= a.take(n));
    if n < a.len() {
        assert(whole.skip(n + 1) =~= a.skip(n + 1) + seq![d] + b);
        lemma_split_joined(a.skip(n + 1), b, d);
        assert(split(whole, d) =~= split(a, d) + split(b, d));
    } else {
        assert(whole.skip(n + 1) =~= b);
        assert(a.take(n) =~= a);
    }
}

/// Splitting what was joined with the delimiter gives the pieces back, in
/// their order, as long as there is a piece and none holds the delimiter.
pub proof fn lemma_join_split(parts: Seq<Seq<char>>, d: char)
    requires
        parts.len() >= 1,
        forall|i: int| 0 <= i < parts.len() ==> !(#[trigger] parts[i]).contains(d),
    ensures
        split(join(parts, seq![d]), d) == parts,
    decreases parts.len(),
{
    let s = join(parts, seq![d]);
    if parts.len() == 1 {
        lemma_first_index_bounds(parts[0], d);
    } else {
        let rest = parts.drop_first();
        lemma_join_split(rest, d);
        let head = parts[0];
        let n = head.len() as int;
        lemma_first_index(s, d, n);
        assert(s.take(n) =~= head);
        assert(s.skip(n + 1) =~= join(rest, seq![d]));
    }
}

/// What `first_match` returns is a position at which the pattern occurs and
/// before which it does not; it returns none only where the pattern does not
/// occur at all.
pub proof fn lemma_first_match_is_least(s: Seq<char>, pat: Seq<char>)
    ensures
        match first_match(s, pat) {
            Some(at) => matches_at(s, pat, at) && forall|j: int| j < at ==> !matches_at(s, pat, j),
            None => forall|j: int| !matches_at(s, pat, j),
        },
{
    reveal(first_match);
    if exists|i: int| matches_at(s, pat, i) {
        let i = choose|i: int| matches_at(s, pat, i);
        lemma_least_match(s, pat, i);
    }
}

/// The pieces of `s` between the occurrences of `sep`, which are looked for
/// from the left, each behind the one before. A string without `sep` is one
/// piece. An empty `sep` cuts nothing.
pub open spec fn split_by(s: Seq<char>, sep: Seq<char>) -> Seq<Seq<char>>
    decreases s.len(),
{
    match first_match(s, sep) {
        Some(at) if sep.len() > 0 && matches_at(s, sep, at) => seq![s.take(at)] + split_by(
            s.skip(at + sep.len()),
            sep,
        ),
        _ => seq![s],
    }
}

/// Whether cutting at `sep` tells the pieces apart again once they are
/// joined by it: in each piece but the last, followed by `sep`, that `sep`
/// is the first one to be found, and the last piece holds none.
pub open spec fn cuts_back(parts: Seq<Seq<char>>, sep: Seq<char>) -> bool {
    &&& parts.len() >= 1
    &&& forall|i: int|
        0 <= i < parts.len() - 1 ==> first_match((#[trigger] parts[i]) + sep, sep) == Some(
            parts[i].len() as int,
        )
    &&& first_match(parts.last(), sep) is None
}

/// Cutting yields at least one piece.
pub proof fn lemma_split_by_pieces(s: Seq<char>, sep: Seq<char>)
    ensures
        split_by(s, sep).len() >= 1,
{
}

/// Where a piece is followed by a separator and more, the first separator
/// of the whole is the first one of the piece with its separator, and it
/// stands no further right than where the piece ends.
proof fn lemma_first_separator(head: Seq<char>, sep: Seq<char>, tail: Seq<char>)
    requires
        sep.len() > 0,
    ensures
        first_match(head + sep + tail, sep) == first_match(head + sep, sep),
        first_match(head + sep, sep) matches Some(at) && 0 <= at <= head.len(),
{
    let short = head + sep;
    let whole = head + sep + tail;
    let n = head.len() as int;
    assert(short.subrange(n, n + sep.len()) =~= sep);
    assert(whole.subrange(n, n + sep.len()) =~= sep);
    assert(matches_at(short, sep, n));
    assert(matches_at(whole, sep, n));
    lemma_first_match_is_least(short, sep);
    lemma_first_match_is_least(whole, sep);
    let a = first_match(short, sep)->Some_0;
    let b = first_match(whole, sep)->Some_0;
    assert(short.subrange(a, a + sep.len()) =~= whole.subrange(a, a + sep.len()));
    assert(short.subrange(b, b + sep.len()) =~= whole.subrange(b, b + sep.len()));
    assert(matches_at(whole, sep, a));
    assert(matches_at(short, sep, b));
}

/// One step of cutting a joined string: where the first separator stands
/// right behind the first piece, that piece is cut off and the rest is cut
/// in the same way; where it stands earlier, what is cut off is shorter
/// than the first piece.
proof fn lemma_split_by_step(head: Seq<char>, sep: Seq<char>, tail: Seq<char>)
    requires
        sep.len() > 0,
    ensures
        first_match(head + sep, sep) == Some(head.len() as int) ==> split_by(
            head + sep + tail,
            sep,
        ) == seq![head] + split_by(tail, sep),
        first_match(head + sep, sep) != Some(head.len() as int) ==> split_by(
            head + sep + tail,
            sep,
        )[0].len() < head.len(),
{
    let whole = head + sep + tail;
    let n = head.len() as int;
    lemma_first_separator(head, sep, tail);
    lemma_first_match_is_least(whole, sep);
    let at = first_match(whole, sep)->Some_0;
    lemma_split_by_pieces(whole.skip(at + sep.len()), sep);
    if at == n {
        assert(whole.take(n) =~= head);
        assert(whole.skip(n + sep.len()) =~= tail);
    }
}

/// `cuts_back` of two pieces or more says the same of the first piece and of
/// the pieces behind it.
proof fn lemma_cuts_back_step(parts: Seq<Seq<char>>, sep: Seq<char>)
    requires
        parts.len() >= 2,
    ensures
        cuts_back(parts, sep) <==> first_match(parts[0] + sep, sep) == Some(parts[0].len() as int)
            && cuts_back(parts.drop_first(), sep),
{
    let rest = parts.drop_first();
    if first_match(parts[0] + sep, sep) == Some(parts[0].len() as int) && cuts_back(rest, sep) {
        assert forall|i: int| 0 <= i < parts.len() - 1 implies first_match(
            (#[trigger] parts[i]) + sep,
            sep,
        ) == Some(parts[i].len() as int) by {
            if i > 0 {
                assert(parts[i] == rest[i - 1]);
            }
        }
    }
}

/// Cutting what was joined by a separator that is not empty gives the
/// pieces back, one for one and in their order, exactly where `cuts_back`
/// holds of them.
pub proof fn lemma_join_split_by(parts: Seq<Seq<char>>, sep: Seq<char>)
    requires
        sep.len() > 0,
    ensures
        split_by(join(parts, sep), sep) == parts <==> cuts_back(parts, sep),
    decreases parts.len(),
{
    let whole = join(parts, sep);
    if parts.len() == 0 {
        lemma_split_by_pieces(whole, sep);
    } else if parts.len() == 1 {
        lemma_first_match_is_least(whole, sep);
        match first_match(whole, sep) {
            None => {
                assert(split_by(whole, sep) =~= parts);
            },
            Some(at) => {
                lemma_split_by_pieces(whole.skip(at + sep.len()), sep);
            },
        }
    } else {
        let head = parts[0];
        let rest = parts.drop_first();
        let tail = join(rest, sep);
        lemma_split_by_step(head, sep, tail);
        lemma_cuts_back_step(parts, sep);
        lemma_join_split_by(rest, sep);
        if first_match(head + sep, sep) == Some(head.len() as int) {
            let cut = seq![head] + split_by(tail, sep);
            assert(cut.drop_first() =~= split_by(tail, sep));
            if split_by(tail, sep) == rest {
                assert(cut =~= parts);
            }
        }
    }
}

/// Cutting at a separator of one character is splitting at that character.
pub proof fn lemma_split_by_char(s: Seq<char>, d: char)
    ensures
        split_by(s, seq![d]) == split(s, d),
    decreases s.len(),
{
    let n = first_index(s, d);
    lemma_first_index_bounds(s, d);
    lemma_first_match_is_least(s, seq![d]);
    if n < s.len() {
        assert(s.subrange(n, n + 1) =~= seq![d]);
        assert forall|j: int| 0 <= j < n implies !matches_at(s, seq![d], j) by {
            if matches_at(s, seq![d], j) {
                assert(s.subrange(j, j + 1)[0] == d);
            }
        }
        lemma_first_match(s, seq![d], n);
        lemma_split_by_char(s.skip(n + 1), d);
    } else if first_match(s, seq![d]) is Some {
        let at = first_match(s, seq![d])->Some_0;
        assert(s.subrange(at, at + 1)[0] == d);
    }
}

/// With a separator that is not empty, what `join` makes is empty only of
/// no pieces at all or of a single empty piece.
pub proof fn lemma_join_is_empty(parts: Seq<Seq<char>>, sep: Seq<char>)
    requires
        sep.len() > 0,
    ensures
        join(parts, sep).len() == 0 <==> parts.len() == 0 || (parts.len() == 1 && parts[0].len()
            == 0),
{
}

/// Where the piece with index `i` starts in what `join` makes of `parts`:
/// behind the pieces before it and one separator for each of them.
pub open spec fn part_start(parts: Seq<Seq<char>>, sep: Seq<char>, i: int) -> int
    decreases i,
{
    if i <= 0 || parts.len() == 0 {
        0
    } else {
        parts[0].len() + sep.len() + part_start(parts.drop_first(), sep, i - 1)
    }
}

/// Joining keeps the order of the pieces: piece `i` stands in the result at
/// `part_start(parts, sep, i)`, and the next piece starts behind it and
/// one separator.
pub proof fn lemma_join_keeps_order(parts: Seq<Seq<char>>, sep: Seq<char>, i: int)
    requires
        0 <= i < parts.len(),
    ensures
        matches_at(join(parts, sep), parts[i], part_start(parts, sep, i)),
        part_start(parts, sep, i + 1) == part_start(parts, sep, i) + parts[i].len() + sep.len(),
    decreases i,
{
    let whole = join(parts, sep);
    if i == 0 {
        assert(whole.subrange(0, parts[0].len() as int) =~= parts[0]);
        assert(part_start(parts.drop_first(), sep, 0) == 0);
    } else {
        let rest = parts.drop_first();
        lemma_join_keeps_order(rest, sep, i - 1);
        let shift = parts[0].len() + sep.len();
        let at = part_start(rest, sep, i - 1);
        assert(whole.subrange(shift + at, shift + at + parts[i].len()) =~= join(rest, sep).subrange(
            at,
            at + parts[i].len(),
        ));
    }
}

/// The pieces of `v` between the occurrences of `d`.
pub fn split_chars(v: &Vec<char>, d: char) -> (r: Vec<Vec<char>>)
    ensures
        r.deep_view() == split(v@, d),
{
    let mut r: Vec<Vec<char>> = Vec::new();
    let mut start: usize = 0;
    assert(v@.skip(0) =~= v@);
    loop
        invariant
            start <= v.len(),
            split(v@, d) == r.deep_view() + split(v@.skip(start as int), d),
        decreases v.len() - start,
    {
        let end = find_char(v, start, d);
        let piece = copy_range(v, start, end);
        proof {
            let rest = v@.skip(start as int);
            assert(rest.take(end - start) =~= v@.subrange(start as int, end as int));
            if end < v.len() {
                assert(rest.skip(end - start + 1) =~= v@.skip(end + 1));
            }
            assert(piece.deep_view() =~= piece@);
        }
        r.push(piece);
        if end == v.len() {
            return r;
        }
        start = end + 1;
    }
}

/// The strings of `parts`, with `sep` between each two neighbours.
pub fn join_strings(parts: &Vec<String>, sep: &str) -> (r: String)
    ensures
        r@ == join(parts.deep_view(), sep@),
{
    let mut r = String::new();
    let mut i: usize = 0;
    while i < parts.len()
        invariant
            i <= parts.len(),
            r@ == join(parts.deep_view().take(i as int), sep@),
        decreases parts.len() - i,
    {
        proof {
            let done = parts.deep_view().take(i as int);
            assert(parts.deep_view().take(i + 1) =~= done.push(parts@[i as int]@));
            if i > 0 {
                lemma_join_push(done, sep@, parts@[i as int]@);
            }
        }
        if i > 0 {
            r.append(sep);
        }
        r.append(parts[i].as_str());
        i += 1;
    }
    assert(parts.deep_view().take(parts.len() as int) =~= parts.deep_view());
    r
}

// ---------------------------------------------------------------------------
// Lines
// ---------------------------------------------------------------------------

/// `line` without one carriage return at its end.
pub open spec fn strip_cr(line: Seq<char>) -> Seq<char> {
    if line.len() > 0 && line.last() == '\r' {
        line.drop_last()
    } else {
        line
    }
}

/// The lines of `s`. A line ends at a line feed; the line feed, and a carriage
/// return right before it, are not part of the line. What follows the last
/// line feed is a line of its own unless it is empty.
pub open spec fn lines(s: Seq<char>) -> Seq<Seq<char>>
    decreases s.len(),
{
    let n = first_index(s, '\n');
    if s.len() == 0 {
        Seq::empty()
    } else if 0 <= n < s.len() {
        seq![strip_cr(s.take(n))] + lines(s.skip(n + 1))
    } else {
        seq![s]
    }
}

/// The lines of `v`.
pub fn split_lines(v: &Vec<char>) -> (r: Vec<Vec<char>>)
    ensures
        r.deep_view() == lines(v@),
{
    let mut r: Vec<Vec<char>> = Vec::new();
    let mut start: usize = 0;
    assert(v@.skip(0) =~= v@);
    while start < v.len()
        invariant
            start <= v.len(),
            lines(v@) == r.deep_view() + lines(v@.skip(start as int)),
        decreases v.len() - start,
    {
        let end = find_char(v, start, '\n');
        let stop = if end < v.len() && end > start && v[end - 1] == '\r' {
            end - 1
        } else {
            end
        };
        let piece = copy_range(v, start, stop);
        proof {
            let rest = v@.skip(start as int);
            if end < v.len() {
                assert(rest.skip(end - start + 1) =~= v@.skip(end + 1));
                assert(piece@ =~= strip_cr(rest.take(end - start)));
            }
            assert(piece.deep_view() =~= piece@);
        }
        r.push(piece);
        if end == v.len() {
            return r;
        }
        start = end + 1;
    }
    r
}

} // verus!
