//! Lineage crests.
//!
//! A lineage is the main unit of this game: it is inherited, it decides who
//! fights whom, a dead player returns into it. Its crest is **derived from the
//! lineage number, not stored**: the number is the same on the server and on
//! every client, so one cell wears one crest everywhere and nothing has to be
//! sent over the network. The crest is a hue out of twelve and a sign out of
//! eight; turning the hue into a colour is the renderer's business.

use vstd::prelude::*;
use crate::text::{append_chars, chars_of, decimal, push_decimal, string_of};

verus! {

broadcast use vstd::string::group_string_axioms;

/// How many hues the crest palette has.
pub const CREST_COLORS: u64 = 12;

/// How many signs there are.
pub const CREST_SHAPE_COUNT: u64 = 8;

/// The lineage number with its bits stirred, so that neighbouring lineages —
/// bots born in one batch are numbered in a row — get unrelated crests.
pub open spec fn mixed(lineage: u64) -> u64 {
    let a = lineage.wrapping_mul(0x9E37_79B9_7F4A_7C15u64);
    let rotated = (a << 31u64) | (a >> 33u64);
    rotated.wrapping_mul(0xBF58_476D_1CE4_E5B9u64)
}

/// The sign at this position of the sign list.
pub open spec fn shape_at(i: int) -> Seq<char> {
    if i == 0 {
        "◆"@
    } else if i == 1 {
        "●"@
    } else if i == 2 {
        "▲"@
    } else if i == 3 {
        "■"@
    } else if i == 4 {
        "✦"@
    } else if i == 5 {
        "✚"@
    } else if i == 6 {
        "▼"@
    } else {
        "◗"@
    }
}

fn shape_text(i: u64) -> (s: &'static str)
    requires
        i < 8,
    ensures
        s@ == shape_at(i as int),
{
    if i == 0 {
        "◆"
    } else if i == 1 {
        "●"
    } else if i == 2 {
        "▲"
    } else if i == 3 {
        "■"
    } else if i == 4 {
        "✦"
    } else if i == 5 {
        "✚"
    } else if i == 6 {
        "▼"
    } else {
        "◗"
    }
}

/// A lineage's crest: a hue and a sign derived from its number.
#[derive(Debug, Clone, Copy)]
pub struct Crest {
    /// Which of the twelve hues of the palette, 0..12.
    pub hue: u64,
    /// Which of the eight signs, 0..8.
    pub shape_slot: u64,
    pub shape: &'static str,
}

/// An uppercase hexadecimal digit.
pub open spec fn hex_digit(d: nat) -> char {
    if d < 10 {
        crate::text::char_of_digit_spec(d)
    } else if d == 10 {
        'A'
    } else if d == 11 {
        'B'
    } else if d == 12 {
        'C'
    } else if d == 13 {
        'D'
    } else if d == 14 {
        'E'
    } else {
        'F'
    }
}

/// A 16-bit number as four uppercase hexadecimal digits, zero padded.
pub open spec fn hex4(n: nat) -> Seq<char> {
    seq![hex_digit((n / 4096) % 16), hex_digit((n / 256) % 16), hex_digit((n / 16) % 16), hex_digit(n % 16)]
}

fn hex_char(d: u64) -> (c: char)
    requires
        d < 16,
    ensures
        c == hex_digit(d as nat),
{
    if d == 0 {
        '0'
    } else if d == 1 {
        '1'
    } else if d == 2 {
        '2'
    } else if d == 3 {
        '3'
    } else if d == 4 {
        '4'
    } else if d == 5 {
        '5'
    } else if d == 6 {
        '6'
    } else if d == 7 {
        '7'
    } else if d == 8 {
        '8'
    } else if d == 9 {
        '9'
    } else if d == 10 {
        'A'
    } else if d == 11 {
        'B'
    } else if d == 12 {
        'C'
    } else if d == 13 {
        'D'
    } else if d == 14 {
        'E'
    } else {
        'F'
    }
}

impl Crest {
    /// The crest of a lineage.
    pub fn of(lineage: u64) -> (c: Crest)
        ensures
            c.hue == mixed(lineage) % CREST_COLORS,
            c.shape_slot == (mixed(lineage) >> 20u64) % CREST_SHAPE_COUNT,
            c.shape@ == shape_at(c.shape_slot as int),
    {
        let a = lineage.wrapping_mul(0x9E37_79B9_7F4A_7C15);
        let rotated = (a << 31) | (a >> 33);
        let m = rotated.wrapping_mul(0xBF58_476D_1CE4_E5B9);
        let slot = (m >> 20) % CREST_SHAPE_COUNT;
        Crest { hue: m % CREST_COLORS, shape_slot: slot, shape: shape_text(slot) }
    }

    /// The position of the sign: the marker drawn over a body in the world
    /// is chosen by it.
    pub fn shape_index(&self) -> (i: u64)
        ensures
            i == self.shape_slot,
    {
        self.shape_slot
    }

    /// The sign with the top of the lineage number, for the lineage table,
    /// where lineages with the same sign must still be told apart.
    pub fn label(&self, lineage: u64) -> (s: String)
        ensures
            s@ == self.shape@ + seq![' '] + hex4((lineage >> 48u64) as nat),
    {
        let mut v = chars_of(self.shape);
        v.push(' ');
        let top = lineage >> 48;
        v.push(hex_char((top / 4096) % 16));
        v.push(hex_char((top / 256) % 16));
        v.push(hex_char((top / 16) % 16));
        v.push(hex_char(top % 16));
        assert(v@ =~= self.shape@ + seq![' '] + hex4((lineage >> 48u64) as nat));
        string_of(&v)
    }
}

// ─────────────────────────────────────────────
// The lineage table
// ─────────────────────────────────────────────

/// A row of the lineage table.
#[derive(Debug, Clone, Copy, PartialEq, Eq, Structural)]
pub struct Line {
    pub lineage: u64,
    /// How many bodies of the lineage are alive.
    pub count: usize,
    /// The most developed member: it shows where the lineage is going.
    pub best_parts: usize,
    pub best_generation: u16,
    pub is_mine: bool,
}

/// How many of the first `n` organisms belong to lineage `l`. An organism is
/// seen as its lineage, its number of parts and its generation.
pub open spec fn members(s: Seq<(u64, usize, u16)>, l: u64, n: int) -> nat
    decreases n,
{
    if n <= 0 {
        0
    } else {
        members(s, l, n - 1) + if s[n - 1].0 == l {
            1nat
        } else {
            0nat
        }
    }
}

/// The most parts among the first `n` organisms of lineage `l`, 0 if none.
pub open spec fn most_parts(s: Seq<(u64, usize, u16)>, l: u64, n: int) -> nat
    decreases n,
{
    if n <= 0 {
        0
    } else {
        let p = most_parts(s, l, n - 1);
        if s[n - 1].0 == l && s[n - 1].1 > p {
            s[n - 1].1 as nat
        } else {
            p
        }
    }
}

/// The latest generation among the first `n` organisms of lineage `l`, 0 if none.
pub open spec fn latest_generation(s: Seq<(u64, usize, u16)>, l: u64, n: int) -> nat
    decreases n,
{
    if n <= 0 {
        0
    } else {
        let g = latest_generation(s, l, n - 1);
        if s[n - 1].0 == l && s[n - 1].2 > g {
            s[n - 1].2 as nat
        } else {
            g
        }
    }
}

/// Where lineage `l` first appears from position `i` on; the length if nowhere.
pub open spec fn first_seen(s: Seq<(u64, usize, u16)>, l: u64, i: nat) -> nat
    decreases s.len() - i,
{
    if i >= s.len() {
        s.len()
    } else if s[i as int].0 == l {
        i
    } else {
        first_seen(s, l, i + 1)
    }
}

/// The row of lineage `l` over the first `n` organisms.
pub open spec fn line_upto(s: Seq<(u64, usize, u16)>, mine: Option<u64>, l: u64, n: int) -> Line {
    Line {
        lineage: l,
        count: members(s, l, n) as usize,
        best_parts: most_parts(s, l, n) as usize,
        best_generation: latest_generation(s, l, n) as u16,
        is_mine: mine == Some(l),
    }
}

/// The row of lineage `l`.
pub open spec fn line_of(s: Seq<(u64, usize, u16)>, mine: Option<u64>, l: u64) -> Line {
    line_upto(s, mine, l, s.len() as int)
}

/// The order of rows given where each lineage first appeared: more bodies
/// first, then the more developed, then the one seen first.
pub open spec fn above(a: Line, fa: int, b: Line, fb: int) -> bool {
    ||| a.count > b.count
    ||| a.count == b.count && a.best_parts > b.best_parts
    ||| a.count == b.count && a.best_parts == b.best_parts && fa < fb
}

/// Whether the table has a row for lineage `l`.
pub open spec fn has_row(lines: Seq<Line>, l: u64) -> bool {
    exists|i: int| 0 <= i < lines.len() && #[trigger] lines[i].lineage == l
}

/// Whether row `a` stands above row `b` in the table.
pub open spec fn ranks_above(s: Seq<(u64, usize, u16)>, a: Line, b: Line) -> bool {
    above(a, first_seen(s, a.lineage, 0) as int, b, first_seen(s, b.lineage, 0) as int)
}

proof fn lemma_counts_bounded(s: Seq<(u64, usize, u16)>, l: u64, n: int)
    requires
        0 <= n <= s.len(),
    ensures
        members(s, l, n) <= n,
        most_parts(s, l, n) <= usize::MAX,
        latest_generation(s, l, n) <= u16::MAX,
    decreases n,
{
    if n > 0 {
        lemma_counts_bounded(s, l, n - 1);
    }
}

proof fn lemma_absent(s: Seq<(u64, usize, u16)>, l: u64, n: int)
    requires
        0 <= n <= s.len(),
        forall|m: int| 0 <= m < n ==> s[m].0 != l,
    ensures
        members(s, l, n) == 0,
        most_parts(s, l, n) == 0,
        latest_generation(s, l, n) == 0,
    decreases n,
{
    if n > 0 {
        lemma_absent(s, l, n - 1);
    }
}

proof fn lemma_first_seen(s: Seq<(u64, usize, u16)>, l: u64, f: int, i: int)
    requires
        0 <= i <= f < s.len(),
        s[f].0 == l,
        forall|m: int| 0 <= m < f ==> s[m].0 != l,
    ensures
        first_seen(s, l, i as nat) == f,
    decreases f - i,
{
    if i < f {
        lemma_first_seen(s, l, f, i + 1);
    }
}

proof fn lemma_extremes_upto(s: Seq<(u64, usize, u16)>, l: u64, n: int)
    requires
        0 <= n <= s.len(),
    ensures
        forall|m: int| 0 <= m < n && #[trigger] s[m].0 == l ==> s[m].2 <= latest_generation(s, l, n)
            && s[m].1 <= most_parts(s, l, n),
        (exists|m: int| 0 <= m < n && #[trigger] s[m].0 == l) ==> (exists|m: int|
            0 <= m < n && #[trigger] s[m].0 == l && s[m].2 == latest_generation(s, l, n)) && (exists|m: int|
            0 <= m < n && #[trigger] s[m].0 == l && s[m].1 == most_parts(s, l, n)),
    decreases n,
{
    if n > 0 {
        lemma_extremes_upto(s, l, n - 1);
        if exists|m: int| 0 <= m < n && #[trigger] s[m].0 == l {
            if s[n - 1].0 == l {
                if s[n - 1].2 > latest_generation(s, l, n - 1) {
                    assert(s[n - 1].0 == l && s[n - 1].2 == latest_generation(s, l, n));
                } else {
                    if exists|m: int| 0 <= m < n - 1 && #[trigger] s[m].0 == l {
                        let w = choose|m: int|
                            0 <= m < n - 1 && #[trigger] s[m].0 == l && s[m].2 == latest_generation(s, l, n - 1);
                        assert(s[w].0 == l && s[w].2 == latest_generation(s, l, n));
                    } else {
                        assert(latest_generation(s, l, n - 1) == 0) by {
                            lemma_absent(s, l, n - 1);
                        }
                        assert(s[n - 1].2 == latest_generation(s, l, n));
                    }
                }
                if s[n - 1].1 > most_parts(s, l, n - 1) {
                    assert(s[n - 1].0 == l && s[n - 1].1 == most_parts(s, l, n));
                } else {
                    if exists|m: int| 0 <= m < n - 1 && #[trigger] s[m].0 == l {
                        let w = choose|m: int|
                            0 <= m < n - 1 && #[trigger] s[m].0 == l && s[m].1 == most_parts(s, l, n - 1);
                        assert(s[w].0 == l && s[w].1 == most_parts(s, l, n));
                    } else {
                        assert(most_parts(s, l, n - 1) == 0) by {
                            lemma_absent(s, l, n - 1);
                        }
                        assert(s[n - 1].1 == most_parts(s, l, n));
                    }
                }
            } else {
                let m0 = choose|m: int| 0 <= m < n && #[trigger] s[m].0 == l;
                assert(0 <= m0 < n - 1 && s[m0].0 == l);
                let w = choose|m: int|
                    0 <= m < n - 1 && #[trigger] s[m].0 == l && s[m].2 == latest_generation(s, l, n - 1);
                assert(s[w].0 == l && s[w].2 == latest_generation(s, l, n));
                let v = choose|m: int|
                    0 <= m < n - 1 && #[trigger] s[m].0 == l && s[m].1 == most_parts(s, l, n - 1);
                assert(s[v].0 == l && s[v].1 == most_parts(s, l, n));
            }
        }
    }
}

/// A row shows its lineage at its best: no body of the lineage is of a later
/// generation than the row's, or has more organs than the row's, and both
/// figures belong to a body of the lineage that is actually there.
pub proof fn lemma_row_shows_the_lineage_at_its_best(s: Seq<(u64, usize, u16)>, mine: Option<u64>, l: u64)
    ensures
        forall|m: int| 0 <= m < s.len() && #[trigger] s[m].0 == l ==> s[m].2 <= line_of(s, mine, l).best_generation
            && s[m].1 <= line_of(s, mine, l).best_parts,
        (exists|m: int| 0 <= m < s.len() && #[trigger] s[m].0 == l) ==> (exists|m: int|
            0 <= m < s.len() && #[trigger] s[m].0 == l && s[m].2 == line_of(s, mine, l).best_generation) && (exists|
            m: int,
        | 0 <= m < s.len() && #[trigger] s[m].0 == l && s[m].1 == line_of(s, mine, l).best_parts),
{
    lemma_counts_bounded(s, l, s.len() as int);
    lemma_extremes_upto(s, l, s.len() as int);
}

/// How many bodies the rows count together.
pub open spec fn total_count(lines: Seq<Line>) -> nat
    decreases lines.len(),
{
    if lines.len() == 0 {
        0
    } else {
        total_count(lines.drop_last()) + lines.last().count as nat
    }
}

proof fn lemma_total_update(lines: Seq<Line>, j: int, x: Line)
    requires
        0 <= j < lines.len(),
    ensures
        total_count(lines.update(j, x)) + lines[j].count == total_count(lines) + x.count,
    decreases lines.len(),
{
    if j < lines.len() - 1 {
        assert(lines.update(j, x).drop_last() =~= lines.drop_last().update(j, x));
        lemma_total_update(lines.drop_last(), j, x);
    } else {
        assert(lines.update(j, x).drop_last() =~= lines.drop_last());
    }
}

proof fn lemma_total_insert(lines: Seq<Line>, pos: int, x: Line)
    requires
        0 <= pos <= lines.len(),
    ensures
        total_count(lines.insert(pos, x)) == total_count(lines) + x.count,
    decreases lines.len(),
{
    if pos == lines.len() {
        assert(lines.insert(pos, x) =~= lines.push(x));
        assert(lines.push(x).drop_last() =~= lines);
    } else {
        assert(lines.insert(pos, x).drop_last() =~= lines.drop_last().insert(pos, x));
        lemma_total_insert(lines.drop_last(), pos, x);
        assert(lines.insert(pos, x).last() == lines.last());
    }
}

fn above_exec(a: &Line, fa: usize, b: &Line, fb: usize) -> (r: bool)
    ensures
        r == above(*a, fa as int, *b, fb as int),
{
    a.count > b.count || (a.count == b.count && a.best_parts > b.best_parts) || (a.count == b.count
        && a.best_parts == b.best_parts && fa < fb)
}

/// Gathers the lineage table from what the client already sees: one row per
/// lineage, the strongest first — more bodies, then the more developed.
/// Rows that tie stay in the order their lineages first appear.
pub fn tally(organisms: &[(u64, usize, u16)], mine: Option<u64>) -> (lines: Vec<Line>)
    ensures
        forall|i: int|
            0 <= i < lines@.len() ==> lines@[i] == line_of(organisms@, mine, #[trigger] lines@[i].lineage)
                && first_seen(organisms@, lines@[i].lineage, 0) < organisms@.len(),
        forall|m: int| 0 <= m < organisms@.len() ==> has_row(lines@, #[trigger] organisms@[m].0),
        forall|i: int, j: int|
            0 <= i < j < lines@.len() ==> ranks_above(organisms@, #[trigger] lines@[i], #[trigger] lines@[j]),
        forall|i: int, j: int|
            0 <= i < j < lines@.len() ==> #[trigger] lines@[i].lineage != #[trigger] lines@[j].lineage,
        total_count(lines@) == organisms@.len(),
{
    let ghost s = organisms@;
    // Rows in the order their lineages first appear, with where that was.
    let mut rows: Vec<Line> = Vec::new();
    let mut firsts: Vec<usize> = Vec::new();
    let ghost mut row_of: Seq<int> = seq![];
    let mut i: usize = 0;
    while i < organisms.len()
        invariant
            s == organisms@,
            i <= s.len(),
            rows@.len() == firsts@.len(),
            row_of.len() == i,
            forall|k: int|
                0 <= k < rows@.len() ==> #[trigger] firsts@[k] < i && s[firsts@[k] as int].0 == rows@[k].lineage
                    && (forall|m: int| 0 <= m < firsts@[k] ==> s[m].0 != rows@[k].lineage),
            forall|k1: int, k2: int| 0 <= k1 < k2 < rows@.len() ==> firsts@[k1] < firsts@[k2],
            forall|k: int|
                0 <= k < rows@.len() ==> #[trigger] rows@[k] == line_upto(s, mine, rows@[k].lineage, i as int),
            forall|m: int|
                0 <= m < i ==> 0 <= #[trigger] row_of[m] < rows@.len() && rows@[row_of[m]].lineage == s[m].0,
            total_count(rows@) == i,
        decreases s.len() - i,
    {
        let (l, parts, generation) = organisms[i];
        let mut j: usize = 0;
        while j < rows.len() && rows[j].lineage != l
            invariant
                j <= rows@.len(),
                forall|q: int| 0 <= q < j ==> rows@[q].lineage != l,
            decreases rows@.len() - j,
        {
            j += 1;
        }
        proof {
            lemma_counts_bounded(s, l, i as int);
            assert forall|k: int| 0 <= k < rows@.len() && rows@[k].lineage != l implies
                line_upto(s, mine, rows@[k].lineage, i + 1) == line_upto(s, mine, rows@[k].lineage, i as int) by {
            }
        }
        if j < rows.len() {
            proof {
                assert forall|q: int| 0 <= q < rows@.len() && q != j implies rows@[q].lineage != l by {
                    if q > j {
                        assert(firsts@[j as int] < firsts@[q]);
                        assert(s[firsts@[j as int] as int].0 == l);
                    }
                }
            }
            let mut row = rows[j];
            row.count = row.count + 1;
            if parts > row.best_parts {
                row.best_parts = parts;
            }
            if generation > row.best_generation {
                row.best_generation = generation;
            }
            assert(row == line_upto(s, mine, l, i + 1));
            proof {
                lemma_total_update(rows@, j as int, row);
            }
            rows.set(j, row);
            proof {
                row_of = row_of.push(j as int);
            }
        } else {
            proof {
                assert forall|m: int| 0 <= m < i implies s[m].0 != l by {
                    assert(rows@[row_of[m]].lineage == s[m].0);
                }
                lemma_absent(s, l, i as int);
            }
            let row = Line {
                lineage: l,
                count: 1,
                best_parts: parts,
                best_generation: generation,
                is_mine: match mine {
                    Some(x) => x == l,
                    None => false,
                },
            };
            assert(row == line_upto(s, mine, l, i + 1));
            let ghost before_rows = rows@;
            rows.push(row);
            assert(rows@.drop_last() =~= before_rows);
            firsts.push(i);
            proof {
                row_of = row_of.push(j as int);
            }
        }
        i += 1;
    }
    proof {
        assert forall|k: int| 0 <= k < rows@.len() implies first_seen(s, #[trigger] rows@[k].lineage, 0)
            == firsts@[k] by {
            lemma_first_seen(s, rows@[k].lineage, firsts@[k] as int, 0);
        }
    }
    // Insertion into a table kept in order.
    let mut lines: Vec<Line> = Vec::new();
    let mut line_firsts: Vec<usize> = Vec::new();
    let ghost mut at: Seq<int> = seq![];
    assert(rows@.take(0) =~= Seq::<Line>::empty());
    let mut k: usize = 0;
    while k < rows.len()
        invariant
            s == organisms@,
            k <= rows@.len(),
            rows@.len() == firsts@.len(),
            lines@.len() == line_firsts@.len() == k,
            at.len() == k,
            forall|k1: int, k2: int| 0 <= k1 < k2 < rows@.len() ==> firsts@[k1] < firsts@[k2],
            forall|q: int|
                0 <= q < rows@.len() ==> #[trigger] rows@[q] == line_of(s, mine, rows@[q].lineage)
                    && first_seen(s, rows@[q].lineage, 0) == firsts@[q] && firsts@[q] < s.len(),
            forall|p: int|
                0 <= p < lines@.len() ==> #[trigger] lines@[p] == line_of(s, mine, lines@[p].lineage)
                    && first_seen(s, lines@[p].lineage, 0) == line_firsts@[p] && line_firsts@[p] < s.len(),
            forall|p: int, t: int|
                0 <= p < lines@.len() && k <= t < rows@.len() ==> #[trigger] line_firsts@[p] < #[trigger] firsts@[t],
            forall|p: int, q: int|
                0 <= p < q < lines@.len() ==> above(#[trigger] lines@[p], line_firsts@[p] as int, #[trigger] lines@[q], line_firsts@[q] as int),
            forall|t: int|
                0 <= t < k ==> 0 <= #[trigger] at[t] < lines@.len() && lines@[at[t]].lineage == rows@[t].lineage,
            row_of.len() == s.len(),
            forall|m: int|
                0 <= m < s.len() ==> 0 <= #[trigger] row_of[m] < rows@.len() && rows@[row_of[m]].lineage == s[m].0,
            total_count(rows@) == s.len(),
            total_count(lines@) == total_count(rows@.take(k as int)),
        decreases rows@.len() - k,
    {
        let row = rows[k];
        let f = firsts[k];
        let mut pos: usize = 0;
        while pos < lines.len() && above_exec(&lines[pos], line_firsts[pos], &row, f)
            invariant
                pos <= lines@.len(),
                lines@.len() == line_firsts@.len(),
                forall|q: int| 0 <= q < pos ==> above(#[trigger] lines@[q], line_firsts@[q] as int, row, f as int),
            decreases lines@.len() - pos,
        {
            pos += 1;
        }
        let ghost before = lines@;
        let ghost before_firsts = line_firsts@;
        proof {
            if pos < before.len() {
                assert(before_firsts[pos as int] < f);
                assert(above(row, f as int, before[pos as int], before_firsts[pos as int] as int));
                assert forall|q: int| pos <= q < before.len() implies above(row, f as int, #[trigger] before[q], before_firsts[q] as int) by {
                    if q > pos {
                        assert(above(before[pos as int], before_firsts[pos as int] as int, before[q], before_firsts[q] as int));
                    }
                }
            }
            before.insert_ensures(pos as int, row);
            before_firsts.insert_ensures(pos as int, f);
        }
        proof {
            lemma_total_insert(before, pos as int, row);
            assert(rows@.take(k + 1).drop_last() =~= rows@.take(k as int));
            assert(rows@.take(k + 1).last() == row);
        }
        lines.insert(pos, row);
        line_firsts.insert(pos, f);
        proof {
            assert forall|p: int, q: int| 0 <= p < q < lines@.len() implies above(#[trigger] lines@[p], line_firsts@[p] as int, #[trigger] lines@[q], line_firsts@[q] as int) by {
                if q < pos {
                } else if q == pos {
                } else if p < pos {
                    assert(lines@[q] == before[q - 1]);
                } else if p == pos {
                    assert(lines@[q] == before[q - 1]);
                } else {
                    assert(lines@[q] == before[q - 1]);
                    assert(lines@[p] == before[p - 1]);
                }
            }
            assert forall|p: int| 0 <= p < lines@.len() implies #[trigger] lines@[p] == line_of(s, mine, lines@[p].lineage)
                && first_seen(s, lines@[p].lineage, 0) == line_firsts@[p] && line_firsts@[p] < s.len() by {
                if p > pos {
                    assert(lines@[p] == before[p - 1]);
                }
            }
            assert forall|p: int, t: int| 0 <= p < lines@.len() && k + 1 <= t < rows@.len() implies #[trigger] line_firsts@[p] < #[trigger] firsts@[t] by {
                if p > pos {
                    assert(line_firsts@[p] == before_firsts[p - 1]);
                } else if p == pos {
                    assert(firsts@[k as int] < firsts@[t]);
                }
            }
            let old_at = at;
            at = Seq::new((k + 1) as nat, |t: int| if t == k { pos as int } else if old_at[t] >= pos { old_at[t] + 1 } else { old_at[t] });
            assert forall|t: int| 0 <= t < k + 1 implies 0 <= #[trigger] at[t] < lines@.len() && lines@[at[t]].lineage == rows@[t].lineage by {
                if t < k {
                    if old_at[t] >= pos {
                        assert(lines@[old_at[t] + 1] == before[old_at[t]]);
                    }
                }
            }
        }
        k += 1;
    }
    proof {
        assert forall|m: int| 0 <= m < organisms@.len() implies has_row(lines@, #[trigger] organisms@[m].0) by {
            let t = row_of[m];
            assert(0 <= t < rows@.len());
            assert(0 <= at[t] < lines@.len());
            assert(lines@[at[t]].lineage == organisms@[m].0);
        }
        assert forall|i: int, j: int| 0 <= i < j < lines@.len() implies ranks_above(s, #[trigger] lines@[i], #[trigger] lines@[j]) by {
            assert(above(lines@[i], line_firsts@[i] as int, lines@[j], line_firsts@[j] as int));
        }
        assert forall|i: int, j: int| 0 <= i < j < lines@.len() implies #[trigger] lines@[i].lineage
            != #[trigger] lines@[j].lineage by {
            assert(above(lines@[i], line_firsts@[i] as int, lines@[j], line_firsts@[j] as int));
        }
    }
    assert(rows@.take(rows@.len() as int) =~= rows@);
    lines
}

/// The crest label of a lineage, as `Crest::label` writes it.
pub open spec fn label_of(lineage: u64) -> Seq<char> {
    shape_at(((mixed(lineage) >> 20u64) % CREST_SHAPE_COUNT) as int) + seq![' '] + hex4(
        (lineage >> 48u64) as nat,
    )
}

/// A row of the small board: place, crest, bodies and the most parts.
pub open spec fn row_body(place: nat, line: Line) -> Seq<char> {
    decimal(place + 1) + ". "@ + label_of(line.lineage) + "  ×"@ + decimal(line.count as nat)
        + "  до "@ + decimal(line.best_parts as nat) + " частей"@
}

/// The first `n` rows of the small board, one's own marked with an arrow.
pub open spec fn board_rows(lines: Seq<Line>, n: int) -> Seq<char>
    decreases n,
{
    if n <= 0 {
        seq![]
    } else {
        board_rows(lines, n - 1) + row_body((n - 1) as nat, lines[n - 1]) + (if lines[n - 1].is_mine {
            "  ←"@
        } else {
            Seq::<char>::empty()
        }) + seq!['\n']
    }
}

/// Where lineage `l` stands in the table from row `i` on; the length if nowhere.
pub open spec fn place_from(lines: Seq<Line>, l: u64, i: nat) -> nat
    decreases lines.len() - i,
{
    if i >= lines.len() {
        lines.len()
    } else if lines[i as int].lineage == l {
        i
    } else {
        place_from(lines, l, i + 1)
    }
}

/// The small board in the corner: the three strongest lineages, and one's
/// own below them when it is not among the three.
pub open spec fn top_board_spec(lines: Seq<Line>, mine: Option<u64>) -> Seq<char> {
    "СИЛЬНЕЙШИЕ РОДА       L — все"@ + seq!['\n'] + board_rows(
        lines,
        if lines.len() < 3 { lines.len() as int } else { 3 },
    ) + match mine {
        Some(l) => {
            let p = place_from(lines, l, 0);
            if 3 <= p < lines.len() {
                seq!['…', '\n'] + row_body(p, lines[p as int]) + "  ←"@ + seq!['\n']
            } else {
                Seq::<char>::empty()
            }
        },
        None => Seq::<char>::empty(),
    }
}

fn push_row(v: &mut Vec<char>, place: usize, line: &Line)
    requires
        place < usize::MAX,
    ensures
        final(v)@ == old(v)@ + row_body(place as nat, *line),
{
    push_decimal(v, (place + 1) as u64);
    let dot = chars_of(". ");
    append_chars(v, &dot);
    let label = Crest::of(line.lineage).label(line.lineage);
    let lv = chars_of(label.as_str());
    append_chars(v, &lv);
    let times = chars_of("  ×");
    append_chars(v, &times);
    push_decimal(v, line.count as u64);
    let upto = chars_of("  до ");
    append_chars(v, &upto);
    push_decimal(v, line.best_parts as u64);
    let parts = chars_of(" частей");
    append_chars(v, &parts);
    assert(final(v)@ =~= old(v)@ + row_body(place as nat, *line));
}

/// The text of the small board.
pub fn top_board_text(lines: &Vec<Line>, mine: Option<u64>) -> (s: String)
    ensures
        s@ == top_board_spec(lines@, mine),
{
    let mut v = chars_of("СИЛЬНЕЙШИЕ РОДА       L — все");
    v.push('\n');
    let ghost head = v@;
    let shown: usize = if lines.len() < 3 {
        lines.len()
    } else {
        3
    };
    let mut k: usize = 0;
    while k < shown
        invariant
            k <= shown <= lines@.len(),
            shown <= 3,
            v@ == head + board_rows(lines@, k as int),
        decreases shown - k,
    {
        push_row(&mut v, k, &lines[k]);
        if lines[k].is_mine {
            let arrow = chars_of("  ←");
            append_chars(&mut v, &arrow);
        }
        v.push('\n');
        assert(v@ =~= head + board_rows(lines@, k + 1));
        k += 1;
    }
    let ghost body = v@;
    if let Some(l) = mine {
        let mut p: usize = 0;
        while p < lines.len() && lines[p].lineage != l
            invariant
                p <= lines@.len(),
                place_from(lines@, l, 0) == place_from(lines@, l, p as nat),
            decreases lines@.len() - p,
        {
            p += 1;
        }
        if 3 <= p && p < lines.len() {
            v.push('…');
            v.push('\n');
            push_row(&mut v, p, &lines[p]);
            let arrow = chars_of("  ←");
            append_chars(&mut v, &arrow);
            v.push('\n');
        }
    }
    assert(v@ =~= top_board_spec(lines@, mine));
    string_of(&v)
}

} // verus!
