//! What this build is, and whether a release is newer than it.
//!
//! One version for everyone: the client, the server and the updater all read
//! it from here, so they cannot disagree.

use vstd::prelude::*;
use crate::text::{
    chars_of, find, find_char, is_space, lemma_find, lemma_find_unique, lemma_trim_plain, parse_u32,
    parse_unsigned, slice_chars, split, split_chars, trim, trimmed, views,
};

verus! {

broadcast use vstd::string::group_string_axioms;

/// The package version. It is also what the updater compares a release tag with.
pub const VERSION: &'static str = "0.2.0";

/// The commit the library itself carries: a dash. A program stamps its own
/// build with `signature`, from what its build environment knows.
pub const COMMIT: &'static str = "-";

/// The build date the library itself carries: a dash, for the same reason.
pub const BUILD_DATE: &'static str = "-";

/// The full signature of a build: the version, then the commit and the
/// build date in brackets.
pub open spec fn signature_spec(commit: Seq<char>, date: Seq<char>) -> Seq<char> {
    VERSION@ + " ("@ + commit + ", "@ + date + ")"@
}

/// The full signature with the stamps this library was built with.
pub open spec fn full_spec() -> Seq<char> {
    signature_spec(COMMIT@, BUILD_DATE@)
}

/// The short signature: the version after a `v`.
pub open spec fn short_spec() -> Seq<char> {
    "v"@ + VERSION@
}

/// The full signature with the library's own stamps, which are dashes:
/// always `0.2.0 (-, -)`. A program that knows its commit and build date
/// signs itself with `signature` instead.
pub fn full() -> (s: String)
    ensures
        s@ == full_spec(),
{
    signature(COMMIT, BUILD_DATE)
}

/// The full signature for a commit and a build date stamped by whoever
/// builds the program: `0.2.0 (82403ac, 2026-09-01)`.
pub fn signature(commit: &str, date: &str) -> (s: String)
    ensures
        s@ == signature_spec(commit@, date@),
{
    let mut s = String::new();
    s.append(VERSION);
    s.append(" (");
    s.append(commit);
    s.append(", ");
    s.append(date);
    s.append(")");
    assert(s@ =~= signature_spec(commit@, date@));
    s
}

/// The short signature: `v0.2.0`.
pub fn short() -> (s: String)
    ensures
        s@ == short_spec(),
{
    let mut s = String::new();
    s.append("v");
    s.append(VERSION);
    assert(s@ =~= "v"@ + VERSION@);
    s
}

/// A tag without its leading `v`s (any number of them, either case).
pub open spec fn strip_v(s: Seq<char>) -> Seq<char>
    decreases s.len(),
{
    if s.len() > 0 && (s[0] == 'v' || s[0] == 'V') {
        strip_v(s.drop_first())
    } else {
        s
    }
}

/// The release number without a pre-release or build suffix: everything
/// before the first `-` or `+`.
pub open spec fn release_part(s: Seq<char>) -> Seq<char> {
    let minus = find(s, '-');
    let plus = find(s, '+');
    s.take(if minus <= plus { minus } else { plus })
}

/// Field `k` of a dotted number; a missing or unreadable field counts as zero.
pub open spec fn version_field(head: Seq<char>, k: int) -> u32 {
    let pieces = split(head, '.');
    if k < pieces.len() {
        match parse_unsigned(pieces[k], u32::MAX as nat) {
            Some(n) => n as u32,
            None => 0,
        }
    } else {
        0
    }
}

/// The three numbers a version string stands for.
pub open spec fn version_numbers(version: Seq<char>) -> (u32, u32, u32) {
    let head = release_part(strip_v(trim(version)));
    (version_field(head, 0), version_field(head, 1), version_field(head, 2))
}

/// Lexicographic order on version triples.
pub open spec fn triple_greater(a: (u32, u32, u32), b: (u32, u32, u32)) -> bool {
    ||| a.0 > b.0
    ||| a.0 == b.0 && a.1 > b.1
    ||| a.0 == b.0 && a.1 == b.1 && a.2 > b.2
}

/// Whether `candidate` is a strictly newer version than `current`.
pub open spec fn newer(candidate: Seq<char>, current: Seq<char>) -> bool {
    triple_greater(version_numbers(candidate), version_numbers(current))
}

/// Compares versions by their numbers, not as strings.
///
/// As strings `"0.10.0" < "0.9.0"`, and a player on 0.10.0 would be offered to
/// "update" to 0.9.0. A leading `v` in a release tag is dropped, and whatever
/// follows the number (`-rc1`, `+build`) is ignored: pre-releases simply do not
/// exist for this check.
pub fn is_newer(candidate: &str, current: &str) -> (r: bool)
    ensures
        r == newer(candidate@, current@),
{
    let a = numbers(candidate);
    let b = numbers(current);
    a[0] > b[0] || (a[0] == b[0] && a[1] > b[1]) || (a[0] == b[0] && a[1] == b[1] && a[2] > b[2])
}

fn field_of(pieces: &Vec<Vec<char>>, k: usize) -> (n: u32)
    ensures
        n == (if k < views(pieces@).len() {
            match parse_unsigned(views(pieces@)[k as int], u32::MAX as nat) {
                Some(n) => n as u32,
                None => 0,
            }
        } else {
            0
        }),
{
    if k < pieces.len() {
        match parse_u32(&pieces[k]) {
            Some(n) => n,
            None => 0,
        }
    } else {
        0
    }
}

/// The three numbers of a version string.
pub fn numbers(version: &str) -> (r: [u32; 3])
    ensures
        r@ == seq![version_numbers(version@).0, version_numbers(version@).1, version_numbers(version@).2],
{
    let chars = chars_of(version);
    let cleaned = trimmed(&chars);
    let mut start: usize = 0;
    assert(cleaned@.skip(0) =~= cleaned@);
    while start < cleaned.len() && (cleaned[start] == 'v' || cleaned[start] == 'V')
        invariant
            start <= cleaned@.len(),
            strip_v(cleaned@) == strip_v(cleaned@.skip(start as int)),
        decreases cleaned@.len() - start,
    {
        assert(cleaned@.skip(start as int).drop_first() =~= cleaned@.skip(start + 1));
        start += 1;
    }
    let stripped = slice_chars(&cleaned, start, cleaned.len());
    assert(stripped@ =~= cleaned@.skip(start as int));
    assert(strip_v(stripped@) == stripped@);
    let minus = find_char(&stripped, '-');
    let plus = find_char(&stripped, '+');
    proof {
        lemma_find(stripped@, '-');
        lemma_find(stripped@, '+');
    }
    let end = if minus <= plus {
        minus
    } else {
        plus
    };
    let head = slice_chars(&stripped, 0, end);
    assert(head@ =~= release_part(stripped@));
    let pieces = split_chars(&head, '.');
    let r = [field_of(&pieces, 0), field_of(&pieces, 1), field_of(&pieces, 2)];
    assert(r@ =~= seq![
        version_numbers(version@).0,
        version_numbers(version@).1,
        version_numbers(version@).2,
    ]);
    r
}

/// No version is newer than itself.
pub proof fn lemma_not_newer_than_itself(v: Seq<char>)
    ensures
        !newer(v, v),
{
}

/// Of two versions, at most one is newer than the other.
pub proof fn lemma_newer_asymmetric(a: Seq<char>, b: Seq<char>)
    requires
        newer(a, b),
    ensures
        !newer(b, a),
{
}

/// Newer-than is transitive: it is an order, so the updater can never be
/// talked into going round in circles.
pub proof fn lemma_newer_transitive(a: Seq<char>, b: Seq<char>, c: Seq<char>)
    requires
        newer(a, b),
        newer(b, c),
    ensures
        newer(a, c),
{
}

/// Any two versions compare: when their numbers differ, exactly one of them
/// is the newer; when their numbers are the same, neither is. So a release
/// that differs only in its patch number is still offered or refused.
pub proof fn lemma_newer_total(a: Seq<char>, b: Seq<char>)
    ensures
        version_numbers(a) != version_numbers(b) ==> (newer(a, b) || newer(b, a)),
        version_numbers(a) == version_numbers(b) ==> !newer(a, b),
        !(newer(a, b) && newer(b, a)),
{
}

/// The first number in which two versions differ decides which is newer:
/// the major number first, then the minor, then the patch.
pub proof fn lemma_first_difference_decides(a: Seq<char>, b: Seq<char>)
    ensures
        version_numbers(a).0 > version_numbers(b).0 ==> newer(a, b),
        version_numbers(a).0 < version_numbers(b).0 ==> !newer(a, b),
        version_numbers(a).0 == version_numbers(b).0 && version_numbers(a).1 > version_numbers(b).1
            ==> newer(a, b),
        version_numbers(a).0 == version_numbers(b).0 && version_numbers(a).1 < version_numbers(b).1
            ==> !newer(a, b),
        version_numbers(a).0 == version_numbers(b).0 && version_numbers(a).1 == version_numbers(b).1
            && version_numbers(a).2 > version_numbers(b).2 ==> newer(a, b),
        version_numbers(a).0 == version_numbers(b).0 && version_numbers(a).1 == version_numbers(b).1
            && version_numbers(a).2 <= version_numbers(b).2 ==> !newer(a, b),
{
}

/// A leading `v` on a tag changes nothing: `v0.2.0` is the version `0.2.0`.
pub proof fn lemma_leading_v_ignored(s: Seq<char>)
    requires
        s.len() > 0,
        !is_space(s[0]),
        !is_space(s.last()),
    ensures
        version_numbers(seq!['v'] + s) == version_numbers(s),
{
    let t = seq!['v'] + s;
    assert(t.last() == s.last());
    lemma_trim_plain(s);
    lemma_trim_plain(t);
    assert(t.drop_first() =~= s);
}

proof fn lemma_strip_v_before(s: Seq<char>, t: Seq<char>)
    requires
        t.len() > 0,
        t[0] != 'v' && t[0] != 'V',
    ensures
        strip_v(s + t) == strip_v(s) + t,
    decreases s.len(),
{
    if s.len() == 0 {
        assert(s + t =~= t);
        assert(strip_v(s) + t =~= t);
    } else if s[0] == 'v' || s[0] == 'V' {
        assert((s + t).drop_first() =~= s.drop_first() + t);
        lemma_strip_v_before(s.drop_first(), t);
    }
}

proof fn lemma_strip_v_suffix(s: Seq<char>)
    ensures
        strip_v(s).len() <= s.len(),
        strip_v(s) == s.skip(s.len() - strip_v(s).len()),
    decreases s.len(),
{
    if s.len() > 0 && (s[0] == 'v' || s[0] == 'V') {
        lemma_strip_v_suffix(s.drop_first());
        assert(s.drop_first().skip(s.drop_first().len() - strip_v(s.drop_first()).len()) =~= s.skip(
            s.len() - strip_v(s).len(),
        ));
    } else {
        assert(s.skip(0) =~= s);
    }
}

proof fn lemma_release_part_cut(u: Seq<char>, mark: char, suffix: Seq<char>)
    requires
        mark == '-' || mark == '+',
        forall|i: int| 0 <= i < u.len() ==> #[trigger] u[i] != '-' && u[i] != '+',
    ensures
        release_part(u + seq![mark] + suffix) == u,
        release_part(u) == u,
{
    let t = u + seq![mark] + suffix;
    let n = u.len() as int;
    assert forall|j: int| 0 <= j < n implies t[j] != '-' && t[j] != '+' by {
        assert(t[j] == u[j]);
    }
    lemma_find(t, '-');
    lemma_find(t, '+');
    lemma_find_unique(t, mark, n);
    assert(find(t, '-') >= n);
    assert(find(t, '+') >= n);
    assert(t.take(n) =~= u);
    lemma_find_unique(u, '-', n);
    lemma_find_unique(u, '+', n);
    assert(u.take(n) =~= u);
}

/// What follows the number is ignored: a pre-release (`-rc1`) or a build
/// tag (`+build.7`) reads as the release it is attached to, so a
/// pre-release is never newer than its release.
pub proof fn lemma_suffix_ignored(s: Seq<char>, suffix: Seq<char>)
    requires
        s.len() > 0,
        !is_space(s[0]),
        !is_space(s.last()),
        forall|i: int| 0 <= i < s.len() ==> #[trigger] s[i] != '-' && s[i] != '+',
        suffix.len() == 0 || !is_space(suffix.last()),
    ensures
        version_numbers(s + seq!['-'] + suffix) == version_numbers(s),
        version_numbers(s + seq!['+'] + suffix) == version_numbers(s),
        !newer(s + seq!['-'] + suffix, s),
{
    lemma_trim_plain(s);
    let u = strip_v(s);
    lemma_strip_v_suffix(s);
    assert forall|i: int| 0 <= i < u.len() implies #[trigger] u[i] != '-' && u[i] != '+' by {
        assert(u[i] == s[s.len() - u.len() + i]);
    }
    lemma_release_part_cut(u, '-', suffix);
    lemma_release_part_cut(u, '+', suffix);
    let minus = s + seq!['-'] + suffix;
    let plus = s + seq!['+'] + suffix;
    assert(minus[0] == s[0]);
    assert(plus[0] == s[0]);
    if suffix.len() > 0 {
        assert(minus.last() == suffix.last());
        assert(plus.last() == suffix.last());
    }
    lemma_trim_plain(minus);
    lemma_trim_plain(plus);
    assert(minus =~= s + (seq!['-'] + suffix));
    assert(plus =~= s + (seq!['+'] + suffix));
    lemma_strip_v_before(s, seq!['-'] + suffix);
    lemma_strip_v_before(s, seq!['+'] + suffix);
    assert(strip_v(minus) =~= u + seq!['-'] + suffix);
    assert(strip_v(plus) =~= u + seq!['+'] + suffix);
}

} // verus!
