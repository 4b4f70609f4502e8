//! Text primitives with exact contracts.
//!
//! Every file format and message of the game is plain text: `key = value`
//! lines, `|`-separated replies, dotted version numbers. They all reduce to a
//! handful of operations on characters — trimming, splitting, reading and
//! writing decimal numbers — and those are stated here once, over `Seq<char>`,
//! with the meaning the standard library documents for `str`.

use vstd::prelude::*;

verus! {

broadcast use vstd::string::group_string_axioms;

// ─────────────────────────────────────────────
// Conversions between strings and characters
// ─────────────────────────────────────────────

/// The characters of a string, in order.
pub fn chars_of(s: &str) -> (v: Vec<char>)
    ensures
        v@ == s@,
{
    let mut v: Vec<char> = Vec::new();
    for c in it: s.chars()
        invariant
            v@ == it.seq().take(it.index() as int),
    {
        v.push(c);
    }
    v
}

/// `String::push`: appends one character.
#[verifier::external_body]
fn push_char(s: &mut String, c: char)
    ensures
        final(s)@ == old(s)@.push(c),
{
    s.push(c)
}

/// A string made of exactly these characters.
pub fn string_of(v: &[char]) -> (s: String)
    ensures
        s@ == v@,
{
    let mut s = String::new();
    let mut i: usize = 0;
    while i < v.len()
        invariant
            i <= v@.len(),
            s@ == v@.take(i as int),
        decreases v@.len() - i,
    {
        push_char(&mut s, v[i]);
        assert(v@.take(i + 1) =~= v@.take(i as int).push(v@[i as int]));
        i += 1;
    }
    assert(v@.take(v@.len() as int) =~= v@);
    s
}

/// Appends `tail` to `v`.
pub fn append_chars(v: &mut Vec<char>, tail: &[char])
    ensures
        final(v)@ == old(v)@ + tail@,
{
    let mut i: usize = 0;
    while i < tail.len()
        invariant
            i <= tail@.len(),
            v@ == old(v)@ + tail@.take(i as int),
        decreases tail@.len() - i,
    {
        v.push(tail[i]);
        assert(tail@.take(i + 1) =~= tail@.take(i as int).push(tail@[i as int]));
        i += 1;
    }
    assert(tail@.take(tail@.len() as int) =~= tail@);
}

/// Characters `from..to` of `s`, copied.
pub fn slice_chars(s: &[char], from: usize, to: usize) -> (v: Vec<char>)
    requires
        from <= to <= s@.len(),
    ensures
        v@ == s@.subrange(from as int, to as int),
{
    let mut v: Vec<char> = Vec::new();
    let mut i = from;
    while i < to
        invariant
            from <= i <= to <= s@.len(),
            v@ == s@.subrange(from as int, i as int),
        decreases to - i,
    {
        v.push(s[i]);
        assert(s@.subrange(from as int, i + 1) =~= s@.subrange(from as int, i as int).push(
            s@[i as int],
        ));
        i += 1;
    }
    v
}

/// Whether two character sequences are equal.
pub fn chars_eq(a: &[char], b: &[char]) -> (r: bool)
    ensures
        r == (a@ == b@),
{
    if a.len() != b.len() {
        return false;
    }
    let mut i: usize = 0;
    while i < a.len()
        invariant
            a@.len() == b@.len(),
            i <= a@.len(),
            forall|j: int| 0 <= j < i ==> a@[j] == b@[j],
        decreases a@.len() - i,
    {
        if a[i] != b[i] {
            return false;
        }
        i += 1;
    }
    assert(a@ =~= b@);
    true
}

/// Whether `prefix` begins `s`.
pub open spec fn starts_with(s: Seq<char>, prefix: Seq<char>) -> bool {
    prefix.len() <= s.len() && s.take(prefix.len() as int) == prefix
}

pub fn has_prefix(s: &[char], prefix: &[char]) -> (r: bool)
    ensures
        r == starts_with(s@, prefix@),
{
    if prefix.len() > s.len() {
        return false;
    }
    let mut i: usize = 0;
    while i < prefix.len()
        invariant
            prefix@.len() <= s@.len(),
            i <= prefix@.len(),
            forall|j: int| 0 <= j < i ==> s@[j] == prefix@[j],
        decreases prefix@.len() - i,
    {
        if s[i] != prefix[i] {
            assert(s@.take(prefix@.len() as int)[i as int] != prefix@[i as int]);
            return false;
        }
        i += 1;
    }
    assert(s@.take(prefix@.len() as int) =~= prefix@);
    true
}

// ─────────────────────────────────────────────
// White space and trimming
// ─────────────────────────────────────────────

/// Unicode `White_Space`: exactly the characters `char::is_whitespace` accepts.
pub open spec fn is_space(c: char) -> bool {
    let u = c as u32;
    ||| 0x09 <= u <= 0x0D
    ||| u == 0x20
    ||| u == 0x85
    ||| u == 0xA0
    ||| u == 0x1680
    ||| 0x2000 <= u <= 0x200A
    ||| u == 0x2028
    ||| u == 0x2029
    ||| u == 0x202F
    ||| u == 0x205F
    ||| u == 0x3000
}

pub fn is_space_char(c: char) -> (r: bool)
    ensures
        r == is_space(c),
{
    let u = c as u32;
    (0x09 <= u && u <= 0x0D) || u == 0x20 || u == 0x85 || u == 0xA0 || u == 0x1680 || (0x2000
        <= u && u <= 0x200A) || u == 0x2028 || u == 0x2029 || u == 0x202F || u == 0x205F || u
        == 0x3000
}

/// `str::trim_start`.
pub open spec fn trim_start(s: Seq<char>) -> Seq<char>
    decreases s.len(),
{
    if s.len() > 0 && is_space(s[0]) {
        trim_start(s.drop_first())
    } else {
        s
    }
}

/// `str::trim_end`.
pub open spec fn trim_end(s: Seq<char>) -> Seq<char>
    decreases s.len(),
{
    if s.len() > 0 && is_space(s.last()) {
        trim_end(s.drop_last())
    } else {
        s
    }
}

/// `str::trim`: white space removed from both ends.
pub open spec fn trim(s: Seq<char>) -> Seq<char> {
    trim_end(trim_start(s))
}

/// Text that begins and ends with something other than white space is its own trim.
pub proof fn lemma_trim_plain(s: Seq<char>)
    requires
        s.len() > 0,
        !is_space(s[0]),
        !is_space(s.last()),
    ensures
        trim(s) == s,
{
}

pub fn trimmed(s: &[char]) -> (r: Vec<char>)
    ensures
        r@ == trim(s@),
{
    let mut i: usize = 0;
    assert(s@.skip(0) =~= s@);
    while i < s.len() && is_space_char(s[i])
        invariant
            i <= s@.len(),
            trim_start(s@) == trim_start(s@.skip(i as int)),
        decreases s@.len() - i,
    {
        assert(s@.skip(i as int).drop_first() =~= s@.skip(i + 1));
        i += 1;
    }
    assert(trim_start(s@) == s@.skip(i as int));
    let mut j: usize = s.len();
    while j > i && is_space_char(s[j - 1])
        invariant
            i <= j <= s@.len(),
            trim_end(s@.skip(i as int)) == trim_end(s@.subrange(i as int, j as int)),
        decreases j,
    {
        assert(s@.subrange(i as int, j as int).drop_last() =~= s@.subrange(i as int, j - 1));
        j -= 1;
    }
    assert(trim_end(s@.subrange(i as int, j as int)) == s@.subrange(i as int, j as int));
    slice_chars(s, i, j)
}

// ─────────────────────────────────────────────
// Searching and splitting
// ─────────────────────────────────────────────

/// Index of the first `c` in `s`, or `s.len()` when there is none.
pub open spec fn find(s: Seq<char>, c: char) -> int
    decreases s.len(),
{
    if s.len() == 0 {
        0
    } else if s[0] == c {
        0
    } else {
        1 + find(s.drop_first(), c)
    }
}

/// What `find` is: the first occurrence, or the end.
pub proof fn lemma_find(s: Seq<char>, c: char)
    ensures
        0 <= find(s, c) <= s.len(),
        forall|j: int| 0 <= j < find(s, c) ==> s[j] != c,
        find(s, c) < s.len() ==> s[find(s, c)] == c,
    decreases s.len(),
{
    if s.len() > 0 && s[0] != c {
        lemma_find(s.drop_first(), c);
        assert forall|j: int| 0 <= j < find(s, c) implies s[j] != c by {
            if j > 0 {
                assert(s[j] == s.drop_first()[j - 1]);
            }
        }
    }
}

/// Any index with the properties of `find` is `find`.
pub proof fn lemma_find_unique(s: Seq<char>, c: char, i: int)
    requires
        0 <= i <= s.len(),
        forall|j: int| 0 <= j < i ==> s[j] != c,
        i < s.len() ==> s[i] == c,
    ensures
        find(s, c) == i,
{
    lemma_find(s, c);
    if find(s, c) < i {
        assert(s[find(s, c)] != c);
    } else if find(s, c) > i {
        assert(s[i] != c);
    }
}

pub fn find_char(s: &[char], c: char) -> (i: usize)
    ensures
        i == find(s@, c),
{
    let mut i: usize = 0;
    while i < s.len() && s[i] != c
        invariant
            i <= s@.len(),
            forall|j: int| 0 <= j < i ==> s@[j] != c,
        decreases s@.len() - i,
    {
        i += 1;
    }
    proof {
        lemma_find_unique(s@, c, i as int);
    }
    i
}

/// `str::split(c)`: the pieces between occurrences of `c`; never empty.
pub open spec fn split(s: Seq<char>, sep: char) -> Seq<Seq<char>>
    decreases s.len(),
{
    let i = find(s, sep);
    if 0 <= i < s.len() {
        seq![s.take(i)] + split(s.skip(i + 1), sep)
    } else {
        seq![s]
    }
}

/// `str::split_once(c)`: the text before and after the first `c`.
pub open spec fn split_once(s: Seq<char>, sep: char) -> Option<(Seq<char>, Seq<char>)> {
    let i = find(s, sep);
    if 0 <= i < s.len() {
        Some((s.take(i), s.skip(i + 1)))
    } else {
        None
    }
}

/// The views of a vector of character vectors.
pub open spec fn views(v: Seq<Vec<char>>) -> Seq<Seq<char>> {
    v.map_values(|x: Vec<char>| x@)
}

pub proof fn lemma_split_nonempty(s: Seq<char>, sep: char)
    ensures
        split(s, sep).len() >= 1,
    decreases s.len(),
{
    lemma_find(s, sep);
}

pub fn split_chars(s: &[char], sep: char) -> (pieces: Vec<Vec<char>>)
    ensures
        views(pieces@) == split(s@, sep),
{
    let mut pieces: Vec<Vec<char>> = Vec::new();
    let mut start: usize = 0;
    assert(s@.skip(0) =~= s@);
    assert(views(pieces@) =~= Seq::<Seq<char>>::empty());
    loop
        invariant
            start <= s@.len(),
            views(pieces@) + split(s@.skip(start as int), sep) == split(s@, sep),
        decreases s@.len() - start,
    {
        let rest = slice_chars(s, start, s.len());
        assert(rest@ =~= s@.skip(start as int));
        let i = find_char(&rest, sep);
        proof {
            lemma_find(rest@, sep);
        }
        if i < rest.len() {
            let piece = slice_chars(&rest, 0, i);
            assert(piece@ =~= rest@.take(i as int));
            assert(rest@.skip(i + 1) =~= s@.skip(start + i + 1));
            let ghost before = views(pieces@);
            pieces.push(piece);
            assert(views(pieces@) =~= before.push(piece@));
            assert(split(rest@, sep) == seq![rest@.take(i as int)] + split(rest@.skip(i + 1), sep));
            assert(views(pieces@) + split(s@.skip(start + i + 1), sep) =~= before + split(
                rest@,
                sep,
            ));
            start = start + i + 1;
        } else {
            let ghost before = views(pieces@);
            pieces.push(rest);
            assert(views(pieces@) =~= before.push(rest@));
            assert(split(rest@, sep) == seq![rest@]);
            assert(views(pieces@) =~= before + split(rest@, sep));
            return pieces;
        }
    }
}

/// The text before and after the first `sep`, if there is one.
pub fn split_once_chars(s: &[char], sep: char) -> (r: Option<(Vec<char>, Vec<char>)>)
    ensures
        match r {
            Some((a, b)) => split_once(s@, sep) == Some((a@, b@)),
            None => split_once(s@, sep) is None,
        },
{
    let i = find_char(s, sep);
    proof {
        lemma_find(s@, sep);
    }
    if i < s.len() {
        let a = slice_chars(s, 0, i);
        let b = slice_chars(s, i + 1, s.len());
        assert(a@ =~= s@.take(i as int));
        assert(b@ =~= s@.skip(i + 1));
        Some((a, b))
    } else {
        None
    }
}

/// The part of `s` before the first `#`: a comment runs to the end of the line.
pub open spec fn before_comment(s: Seq<char>) -> Seq<char> {
    s.take(find(s, '#'))
}

pub fn strip_comment(s: &[char]) -> (r: Vec<char>)
    ensures
        r@ == before_comment(s@),
{
    let i = find_char(s, '#');
    proof {
        lemma_find(s@, '#');
    }
    slice_chars(s, 0, i)
}

pub proof fn lemma_find_concat(a: Seq<char>, b: Seq<char>, c: char)
    ensures
        find(a + b, c) == (if find(a, c) < a.len() {
            find(a, c)
        } else {
            a.len() + find(b, c)
        }),
{
    lemma_find(a, c);
    lemma_find(b, c);
    let s = a + b;
    if find(a, c) < a.len() {
        lemma_find_unique(s, c, find(a, c));
    } else {
        assert forall|j: int| 0 <= j < a.len() + find(b, c) implies s[j] != c by {
            if j >= a.len() {
                assert(s[j] == b[j - a.len()]);
            }
        }
        lemma_find_unique(s, c, a.len() + find(b, c));
    }
}

/// Splitting text that was joined with the separator gives the pieces of
/// both halves.
pub proof fn lemma_split_concat(a: Seq<char>, b: Seq<char>, sep: char)
    ensures
        split(a + seq![sep] + b, sep) == split(a, sep) + split(b, sep),
    decreases a.len(),
{
    let s = a + seq![sep] + b;
    lemma_find(a, sep);
    lemma_find_concat(a, seq![sep] + b, sep);
    assert(s =~= a + (seq![sep] + b));
    let i = find(a, sep);
    if i < a.len() {
        assert(s.take(i) =~= a.take(i));
        assert(s.skip(i + 1) =~= a.skip(i + 1) + seq![sep] + b);
        lemma_split_concat(a.skip(i + 1), b, sep);
    } else {
        assert(find(seq![sep] + b, sep) == 0);
        assert(s.take(i) =~= a);
        assert(s.skip(i + 1) =~= b);
    }
}

// ─────────────────────────────────────────────
// Lines
// ─────────────────────────────────────────────

/// A line without the `\r` of a `\r\n` ending.
pub open spec fn strip_cr(s: Seq<char>) -> Seq<char> {
    if s.len() > 0 && s.last() == '\r' {
        s.drop_last()
    } else {
        s
    }
}

/// `str::lines`: split at `\n` (a `\r` right before it is dropped too); a
/// final line ending adds no empty line, and an empty text has no lines.
pub open spec fn lines(s: Seq<char>) -> Seq<Seq<char>>
    decreases s.len(),
{
    if s.len() == 0 {
        seq![]
    } else {
        let i = find(s, '\n');
        if 0 <= i < s.len() {
            seq![strip_cr(s.take(i))] + lines(s.skip(i + 1))
        } else {
            seq![s]
        }
    }
}

pub fn lines_of(s: &[char]) -> (r: Vec<Vec<char>>)
    ensures
        views(r@) == lines(s@),
{
    let mut r: Vec<Vec<char>> = Vec::new();
    let mut start: usize = 0;
    assert(s@.skip(0) =~= s@);
    assert(views(r@) =~= Seq::<Seq<char>>::empty());
    while start < s.len()
        invariant
            start <= s@.len(),
            views(r@) + lines(s@.skip(start as int)) == lines(s@),
        decreases s@.len() - start,
    {
        let rest = slice_chars(s, start, s.len());
        assert(rest@ =~= s@.skip(start as int));
        let i = find_char(&rest, '\n');
        proof {
            lemma_find(rest@, '\n');
        }
        let ghost before = views(r@);
        if i < rest.len() {
            let mut line = slice_chars(&rest, 0, i);
            if line.len() > 0 && line[line.len() - 1] == '\r' {
                line.pop();
            }
            assert(line@ =~= strip_cr(rest@.take(i as int)));
            assert(rest@.skip(i + 1) =~= s@.skip(start + i + 1));
            r.push(line);
            assert(views(r@) =~= before.push(strip_cr(rest@.take(i as int))));
            assert(views(r@) + lines(s@.skip(start + i + 1)) =~= before + lines(rest@));
            start = start + i + 1;
        } else {
            r.push(rest);
            assert(views(r@) =~= before + lines(rest@));
            assert(s@.skip(s@.len() as int) =~= Seq::<char>::empty());
            assert(views(r@) + lines(s@.skip(s@.len() as int)) =~= views(r@));
            start = s.len();
        }
    }
    assert(s@.skip(start as int) =~= Seq::<char>::empty());
    assert(views(r@) + lines(s@.skip(start as int)) =~= views(r@));
    r
}

// ─────────────────────────────────────────────
// Decimal numbers
// ─────────────────────────────────────────────

pub open spec fn is_digit(c: char) -> bool {
    0x30 <= c as u32 <= 0x39
}

pub open spec fn digit_value(c: char) -> nat {
    (c as u32 - 0x30) as nat
}

pub open spec fn all_digits(s: Seq<char>) -> bool {
    forall|i: int| 0 <= i < s.len() ==> is_digit(s[i])
}

/// The number that a run of decimal digits spells.
pub open spec fn digits_value(s: Seq<char>) -> nat
    decreases s.len(),
{
    if s.len() == 0 {
        0
    } else {
        10 * digits_value(s.drop_last()) + digit_value(s.last())
    }
}

/// The digits of an unsigned number as `FromStr` reads them: an optional `+`
/// and at least one decimal digit, nothing else.
pub open spec fn unsigned_digits(s: Seq<char>) -> Seq<char> {
    if s.len() > 0 && s[0] == '+' {
        s.drop_first()
    } else {
        s
    }
}

/// `s.parse::<uN>()` where `max` is `uN::MAX`: `None` for anything that is
/// not a number or does not fit.
pub open spec fn parse_unsigned(s: Seq<char>, max: nat) -> Option<nat> {
    let d = unsigned_digits(s);
    if d.len() > 0 && all_digits(d) && digits_value(d) <= max {
        Some(digits_value(d))
    } else {
        None
    }
}

proof fn lemma_saturate(a: nat, d: nat, m: nat)
    requires
        d < 10,
    ensures
        (if 10 * (if a <= m + 1 { a } else { m + 1 }) + d <= m + 1 {
            10 * (if a <= m + 1 { a } else { m + 1 }) + d
        } else {
            m + 1
        }) == (if 10 * a + d <= m + 1 {
            10 * a + d
        } else {
            m + 1
        }),
{
}

#[verifier::spinoff_prover]
#[verifier::rlimit(40)]
fn parse_bounded(s: &[char], max: u64) -> (r: Option<u64>)
    ensures
        match r {
            Some(n) => parse_unsigned(s@, max as nat) == Some(n as nat),
            None => parse_unsigned(s@, max as nat) is None,
        },
{
    let start: usize = if s.len() > 0 && s[0] == '+' {
        1
    } else {
        0
    };
    let ghost d = unsigned_digits(s@);
    assert(d =~= s@.skip(start as int));
    if start >= s.len() {
        return None;
    }
    // Saturating at `max + 1`: past that the exact value no longer matters.
    let cap: u128 = max as u128 + 1;
    let mut value: u128 = 0;
    let mut i = start;
    assert(d.take(0) =~= Seq::<char>::empty());
    while i < s.len()
        invariant
            start <= i <= s@.len(),
            d == unsigned_digits(s@),
            d =~= s@.skip(start as int),
            cap == max + 1,
            value <= cap,
            all_digits(d.take(i - start)),
            value == (if digits_value(d.take(i - start)) <= max + 1 {
                digits_value(d.take(i - start))
            } else {
                max as nat + 1
            }),
        decreases s@.len() - i,
    {
        let c = s[i];
        let code = c as u32;
        if !(0x30 <= code && code <= 0x39) {
            assert(d[i - start] == c);
            assert(!is_digit(d[i - start]));
            assert(!all_digits(d));
            return None;
        }
        let digit = (code - 0x30) as u128;
        let ghost prefix = d.take(i - start);
        let ghost next = d.take(i - start + 1);
        assert(next.drop_last() =~= prefix);
        assert(next.last() == c);
        proof {
            lemma_saturate(digits_value(prefix), digit as nat, max as nat);
        }
        let grown = value * 10 + digit;
        value = if grown <= cap {
            grown
        } else {
            cap
        };
        assert(all_digits(next)) by {
            assert forall|k: int| 0 <= k < next.len() implies is_digit(next[k]) by {
                if k < prefix.len() {
                    assert(next[k] == prefix[k]);
                }
            }
        }
        i += 1;
    }
    assert(d.take(s@.len() - start) =~= d);
    if value > max as u128 {
        None
    } else {
        Some(value as u64)
    }
}

pub fn parse_u16(s: &[char]) -> (r: Option<u16>)
    ensures
        match r {
            Some(n) => parse_unsigned(s@, u16::MAX as nat) == Some(n as nat),
            None => parse_unsigned(s@, u16::MAX as nat) is None,
        },
{
    match parse_bounded(s, 0xFFFF) {
        Some(n) => Some(n as u16),
        None => None,
    }
}

pub fn parse_usize(s: &[char]) -> (r: Option<usize>)
    ensures
        match r {
            Some(n) => parse_unsigned(s@, usize::MAX as nat) == Some(n as nat),
            None => parse_unsigned(s@, usize::MAX as nat) is None,
        },
{
    match parse_bounded(s, usize::MAX as u64) {
        Some(n) => Some(n as usize),
        None => None,
    }
}

pub fn parse_u32(s: &[char]) -> (r: Option<u32>)
    ensures
        match r {
            Some(n) => parse_unsigned(s@, u32::MAX as nat) == Some(n as nat),
            None => parse_unsigned(s@, u32::MAX as nat) is None,
        },
{
    match parse_bounded(s, 0xFFFF_FFFF) {
        Some(n) => Some(n as u32),
        None => None,
    }
}

/// The decimal digits of `n`, most significant first, no leading zeros.
pub open spec fn decimal(n: nat) -> Seq<char>
    decreases n,
{
    if n < 10 {
        seq![char_of_digit_spec(n)]
    } else {
        decimal(n / 10).push(char_of_digit_spec(n % 10))
    }
}

/// Appends the decimal digits of `n`.
pub fn push_decimal(out: &mut Vec<char>, n: u64)
    ensures
        final(out)@ == old(out)@ + decimal(n as nat),
    decreases n,
{
    if n < 10 {
        out.push(char_of_digit(n));
        assert(old(out)@ + decimal(n as nat) =~= old(out)@.push(char_of_digit_spec(n as nat)));
    } else {
        push_decimal(out, n / 10);
        out.push(char_of_digit(n % 10));
        assert(decimal(n as nat) == decimal((n / 10) as nat).push(char_of_digit_spec((n % 10) as nat)));
    }
}

/// The character of a decimal digit.
pub open spec fn char_of_digit_spec(d: nat) -> char {
    if d == 0 {
        '0'
    } else if d == 1 {
        '1'
    } else if d == 2 {
        '2'
    } else if d == 3 {
        '3'
    } else if d == 4 {
        '4'
    } else if d == 5 {
        '5'
    } else if d == 6 {
        '6'
    } else if d == 7 {
        '7'
    } else if d == 8 {
        '8'
    } else {
        '9'
    }
}

proof fn lemma_digit_char(d: nat)
    requires
        d < 10,
    ensures
        is_digit(char_of_digit_spec(d)),
        digit_value(char_of_digit_spec(d)) == d,
        char_of_digit_spec(d) != '+',
{
}

fn char_of_digit(d: u64) -> (c: char)
    requires
        d < 10,
    ensures
        c == char_of_digit_spec(d as nat),
{
    if d == 0 {
        '0'
    } else if d == 1 {
        '1'
    } else if d == 2 {
        '2'
    } else if d == 3 {
        '3'
    } else if d == 4 {
        '4'
    } else if d == 5 {
        '5'
    } else if d == 6 {
        '6'
    } else if d == 7 {
        '7'
    } else if d == 8 {
        '8'
    } else {
        '9'
    }
}

/// Reading back what `decimal` wrote gives the number.
pub proof fn lemma_decimal_reads_back(n: nat)
    ensures
        decimal(n).len() > 0,
        all_digits(decimal(n)),
        digits_value(decimal(n)) == n,
        decimal(n)[0] != '+',
        find(decimal(n), '|') == decimal(n).len(),
        find(decimal(n), ':') == decimal(n).len(),
        find(decimal(n), ',') == decimal(n).len(),
        find(decimal(n), '.') == decimal(n).len(),
    decreases n,
{
    let d = decimal(n);
    lemma_digit_char(n % 10);
    if n < 10 {
        assert(d.drop_last() =~= Seq::<char>::empty());
        assert(digits_value(d.drop_last()) == 0);
    }
    if n >= 10 {
        lemma_decimal_reads_back(n / 10);
        assert(d.drop_last() =~= decimal(n / 10));
        assert(d[0] == decimal(n / 10)[0]);
    }
    assert(all_digits(d)) by {
        assert forall|i: int| 0 <= i < d.len() implies is_digit(d[i]) by {
            if n >= 10 && i < d.len() - 1 {
                assert(d[i] == decimal(n / 10)[i]);
            }
        }
    }
    assert forall|i: int| 0 <= i < d.len() implies d[i] != '|' && d[i] != ':' && d[i] != ','
        && d[i] != '.' by {
        assert(is_digit(d[i]));
    }
    lemma_find_unique(d, '|', d.len() as int);
    lemma_find_unique(d, ':', d.len() as int);
    lemma_find_unique(d, ',', d.len() as int);
    lemma_find_unique(d, '.', d.len() as int);
}

/// Lines written one after another, each ended by `\n`.
pub open spec fn joined(ls: Seq<Seq<char>>) -> Seq<char>
    decreases ls.len(),
{
    if ls.len() == 0 {
        seq![]
    } else {
        ls[0] + seq!['\n'] + joined(ls.drop_first())
    }
}

pub proof fn lemma_joined_push(ls: Seq<Seq<char>>, x: Seq<char>)
    ensures
        joined(ls.push(x)) == joined(ls) + x + seq!['\n'],
    decreases ls.len(),
{
    if ls.len() == 0 {
        assert(ls.push(x).drop_first() =~= Seq::<Seq<char>>::empty());
        assert(ls.push(x)[0] == x);
        assert(joined(ls.push(x).drop_first()) == Seq::<char>::empty());
        assert(joined(ls) == Seq::<char>::empty());
        assert(joined(ls.push(x)) =~= joined(ls) + x + seq!['\n']);
    } else {
        assert(ls.push(x).drop_first() =~= ls.drop_first().push(x));
        lemma_joined_push(ls.drop_first(), x);
        assert(ls.push(x)[0] == ls[0]);
        assert(joined(ls.push(x)) == ls[0] + seq!['\n'] + joined(ls.drop_first().push(x)));
        assert(joined(ls) == ls[0] + seq!['\n'] + joined(ls.drop_first()));
        assert(joined(ls.push(x)) =~= joined(ls) + x + seq!['\n']);
    }
}

pub(crate) fn push_line(v: &mut Vec<char>, line: &str, ls: Ghost<Seq<Seq<char>>>)
    requires
        old(v)@ == joined(ls@),
    ensures
        final(v)@ == joined(ls@.push(line@)),
{
    let l = chars_of(line);
    append_chars(v, &l);
    v.push('\n');
    proof {
        lemma_joined_push(ls@, line@);
    }
    assert(final(v)@ =~= joined(ls@.push(line@)));
}

/// A line the file reader keeps whole: no line break inside, no `\r` at its end.
pub open spec fn one_line(l: Seq<char>) -> bool {
    &&& forall|i: int| 0 <= i < l.len() ==> #[trigger] l[i] != '\n'
    &&& (l.len() == 0 || l.last() != '\r')
}

pub proof fn lemma_lines_joined(ls: Seq<Seq<char>>)
    requires
        forall|i: int| 0 <= i < ls.len() ==> one_line(#[trigger] ls[i]),
    ensures
        lines(joined(ls)) == ls,
    decreases ls.len(),
{
    if ls.len() > 0 {
        let rest = ls.drop_first();
        assert forall|i: int| 0 <= i < rest.len() implies one_line(#[trigger] rest[i]) by {
            assert(rest[i] == ls[i + 1]);
        }
        lemma_lines_joined(rest);
        let s = joined(ls);
        let first = ls[0];
        assert(one_line(ls[0]));
        assert forall|j: int| 0 <= j < first.len() implies s[j] != '\n' by {
            assert(s[j] == first[j]);
        }
        assert(s[first.len() as int] == '\n');
        lemma_find_unique(s, '\n', first.len() as int);
        assert(s.take(first.len() as int) =~= first);
        assert(s.skip(first.len() as int + 1) =~= joined(rest));
        assert(ls =~= seq![first] + rest);
    }
}

pub proof fn lemma_trimmed_ends(n: Seq<char>)
    requires
        trim(n) == n,
        n.len() > 0,
    ensures
        !is_space(n[0]),
        !is_space(n.last()),
{
    if is_space(n[0]) {
        assert(trim_start(n) == trim_start(n.drop_first()));
        lemma_trim_start_shorter(n.drop_first());
        lemma_trim_end_shorter(trim_start(n));
    }
    if is_space(n.last()) {
        lemma_trim_start_shorter(n);
        let t = trim_start(n);
        if t.len() > 0 {
            lemma_trim_start_suffix(n);
            assert(t.last() == n.last());
            assert(trim_end(t) == trim_end(t.drop_last()));
            lemma_trim_end_shorter(t.drop_last());
        }
    }
}

proof fn lemma_trim_start_shorter(s: Seq<char>)
    ensures
        trim_start(s).len() <= s.len(),
    decreases s.len(),
{
    if s.len() > 0 && is_space(s[0]) {
        lemma_trim_start_shorter(s.drop_first());
    }
}

proof fn lemma_trim_end_shorter(s: Seq<char>)
    ensures
        trim_end(s).len() <= s.len(),
    decreases s.len(),
{
    if s.len() > 0 && is_space(s.last()) {
        lemma_trim_end_shorter(s.drop_last());
    }
}

proof fn lemma_trim_start_suffix(s: Seq<char>)
    ensures
        trim_start(s) == s.skip(s.len() - trim_start(s).len()),
    decreases s.len(),
{
    lemma_trim_start_shorter(s);
    if s.len() > 0 && is_space(s[0]) {
        lemma_trim_start_suffix(s.drop_first());
        lemma_trim_start_shorter(s.drop_first());
        assert(s.drop_first().skip(s.drop_first().len() - trim_start(s.drop_first()).len())
            =~= s.skip(s.len() - trim_start(s).len()));
    } else {
        assert(s.skip(0) =~= s);
    }
}

} // verus!
