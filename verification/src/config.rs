//! Server settings that can be changed without recompiling: a plain
//! `key = value` file next to the binary.
//!
//! Both directions of that file are stated here: how a line becomes an entry,
//! what every whole-number setting does with its value, and how the file is
//! written so that it reads back as written. Anything the client also computes
//! stays a compile-time constant; only what the server alone decides is
//! configurable.

use vstd::prelude::*;
use crate::genome::{MAX_PARTS, AGGRESSION_THRESHOLD, KIN_SPLIT_THRESHOLD};
use crate::network::SERVER_PORT;
use crate::text::{
    before_comment, chars_eq, chars_of, decimal, is_digit, is_space, lemma_decimal_reads_back,
    lemma_find_unique, lemma_trim_plain, lines, lines_of, parse_u16, parse_u32, parse_unsigned, parse_usize,
    push_decimal, split_once, split_once_chars, string_of, strip_comment, trim, trim_end,
    trim_start, trimmed, unsigned_digits, views, lemma_trimmed_ends, joined, lemma_lines_joined,
    one_line, push_line, append_chars,
};

verus! {

broadcast use vstd::string::group_string_axioms;

/// The file the server reads its settings from.
pub const CONFIG_NAME: &'static str = "cellborn-server.cfg";

// ─────────────────────────────────────────────
// Lines and entries
// ─────────────────────────────────────────────

/// What one line of a settings file says: the text before `#`, trimmed, split
/// at the first `=`, both halves trimmed. A line without `=` says nothing.
pub open spec fn entry_of_line(line: Seq<char>) -> Option<(Seq<char>, Seq<char>)> {
    match split_once(trim(before_comment(line)), '=') {
        Some((key, value)) => Some((trim(key), trim(value))),
        None => None,
    }
}

/// The entries of a settings file, in order.
pub open spec fn entries_of_lines(ls: Seq<Seq<char>>) -> Seq<(Seq<char>, Seq<char>)>
    decreases ls.len(),
{
    if ls.len() == 0 {
        seq![]
    } else {
        entries_of_lines(ls.drop_last()) + match entry_of_line(ls.last()) {
            Some(e) => seq![e],
            None => seq![],
        }
    }
}

/// One `key = value` entry.
pub struct Entry {
    pub key: Vec<char>,
    pub value: Vec<char>,
}

pub open spec fn entry_view(e: Entry) -> (Seq<char>, Seq<char>) {
    (e.key@, e.value@)
}

/// Reads one line.
pub fn entry_of(line: &[char]) -> (r: Option<Entry>)
    ensures
        match r {
            Some(e) => entry_of_line(line@) == Some((e.key@, e.value@)),
            None => entry_of_line(line@) is None,
        },
{
    let bare = strip_comment(line);
    let l = trimmed(&bare);
    match split_once_chars(&l, '=') {
        Some((key, value)) => Some(Entry { key: trimmed(&key), value: trimmed(&value) }),
        None => None,
    }
}

/// Every entry of a settings file, in the order written. Comments, blank
/// lines and lines without `=` are skipped.
pub fn config_entries(text: &str) -> (r: Vec<Entry>)
    ensures
        r@.map_values(|e: Entry| entry_view(e)) == entries_of_lines(lines(text@)),
{
    let chars = chars_of(text);
    let ls = lines_of(&chars);
    let mut r: Vec<Entry> = Vec::new();
    let mut i: usize = 0;
    while i < ls.len()
        invariant
            i <= ls@.len(),
            views(ls@) == lines(text@),
            r@.map_values(|e: Entry| entry_view(e)) == entries_of_lines(views(ls@).take(i as int)),
        decreases ls@.len() - i,
    {
        let ghost before = views(ls@).take(i as int);
        let ghost after = views(ls@).take(i + 1);
        assert(after.drop_last() =~= before);
        assert(after.last() == ls@[i as int]@);
        let ghost old_r = r@;
        match entry_of(&ls[i]) {
            Some(e) => {
                r.push(e);
                assert(r@.map_values(|e: Entry| entry_view(e)) =~= old_r.map_values(
                    |e: Entry| entry_view(e),
                ).push(entry_of_line(after.last())->0));
            },
            None => {},
        }
        assert(r@.map_values(|e: Entry| entry_view(e)) =~= entries_of_lines(after));
        i += 1;
    }
    assert(views(ls@).take(ls@.len() as int) =~= views(ls@));
    r
}

// ─────────────────────────────────────────────
// Whole-number settings
// ─────────────────────────────────────────────

/// The server's whole-number settings: network, world size, economy counts,
/// kinship thresholds and bots. The fractional ones — rates, shares and
/// durations — are read beside them from the same entries.
#[derive(Debug, Clone, Copy, PartialEq, Eq, Structural)]
pub struct ServerLimits {
    pub port: u16,
    pub max_organisms: usize,
    pub max_colony_size: usize,
    pub max_parts: usize,
    pub food_target: usize,
    pub corpse_nutrients: usize,
    pub points_per_kill: u16,
    pub aggression_threshold: u32,
    pub kin_split_threshold: u32,
    pub points_per_season: u16,
    pub wild_target: usize,
    pub wild_max_parts: usize,
}

/// What applying one entry did.
#[derive(Debug, Clone, Copy, PartialEq, Eq, Structural)]
pub enum Applied {
    /// The setting took the new value.
    Taken,
    /// The value was not a number of the right kind; the previous value stays.
    Unreadable,
    /// No whole-number setting has this name.
    Unknown,
}

/// Which whole-number setting a key names, by position, or 255.
pub open spec fn limit_key(key: Seq<char>) -> u8 {
    if key == "port"@ {
        0u8
    }
    else if key == "max_organisms"@ {
        1u8
    }
    else if key == "max_colony_size"@ {
        2u8
    }
    else if key == "max_parts"@ {
        3u8
    }
    else if key == "food_target"@ {
        4u8
    }
    else if key == "corpse_nutrients"@ {
        5u8
    }
    else if key == "points_per_kill"@ {
        6u8
    }
    else if key == "aggression_threshold"@ {
        7u8
    }
    else if key == "kin_split_threshold"@ {
        8u8
    }
    else if key == "points_per_season"@ {
        9u8
    }
    else if key == "wild_target"@ {
        10u8
    }
    else if key == "wild_max_parts"@ {
        11u8
    } else {
        255u8
    }
}

/// What an entry does to the settings.
pub open spec fn apply_spec(limits: ServerLimits, key: Seq<char>, value: Seq<char>) -> (ServerLimits, Applied) {
    match limit_key(key) {
        0 => match parse_unsigned(value, u16::MAX as nat) {
            Some(n) => (ServerLimits { port: n as u16, ..limits }, Applied::Taken),
            None => (limits, Applied::Unreadable),
        },
        1 => match parse_unsigned(value, usize::MAX as nat) {
            Some(n) => (ServerLimits { max_organisms: n as usize, ..limits }, Applied::Taken),
            None => (limits, Applied::Unreadable),
        },
        2 => match parse_unsigned(value, usize::MAX as nat) {
            Some(n) => (ServerLimits { max_colony_size: n as usize, ..limits }, Applied::Taken),
            None => (limits, Applied::Unreadable),
        },
        3 => match parse_unsigned(value, usize::MAX as nat) {
            Some(n) => (ServerLimits { max_parts: n as usize, ..limits }, Applied::Taken),
            None => (limits, Applied::Unreadable),
        },
        4 => match parse_unsigned(value, usize::MAX as nat) {
            Some(n) => (ServerLimits { food_target: n as usize, ..limits }, Applied::Taken),
            None => (limits, Applied::Unreadable),
        },
        5 => match parse_unsigned(value, usize::MAX as nat) {
            Some(n) => (ServerLimits { corpse_nutrients: n as usize, ..limits }, Applied::Taken),
            None => (limits, Applied::Unreadable),
        },
        6 => match parse_unsigned(value, u16::MAX as nat) {
            Some(n) => (ServerLimits { points_per_kill: n as u16, ..limits }, Applied::Taken),
            None => (limits, Applied::Unreadable),
        },
        7 => match parse_unsigned(value, u32::MAX as nat) {
            Some(n) => (ServerLimits { aggression_threshold: n as u32, ..limits }, Applied::Taken),
            None => (limits, Applied::Unreadable),
        },
        8 => match parse_unsigned(value, u32::MAX as nat) {
            Some(n) => (ServerLimits { kin_split_threshold: n as u32, ..limits }, Applied::Taken),
            None => (limits, Applied::Unreadable),
        },
        9 => match parse_unsigned(value, u16::MAX as nat) {
            Some(n) => (ServerLimits { points_per_season: n as u16, ..limits }, Applied::Taken),
            None => (limits, Applied::Unreadable),
        },
        10 => match parse_unsigned(value, usize::MAX as nat) {
            Some(n) => (ServerLimits { wild_target: n as usize, ..limits }, Applied::Taken),
            None => (limits, Applied::Unreadable),
        },
        11 => match parse_unsigned(value, usize::MAX as nat) {
            Some(n) => (ServerLimits { wild_max_parts: n as usize, ..limits }, Applied::Taken),
            None => (limits, Applied::Unreadable),
        },
        _ => (limits, Applied::Unknown),
    }
}

/// The settings after applying every entry in order.
pub open spec fn applied_all(l: ServerLimits, es: Seq<(Seq<char>, Seq<char>)>) -> ServerLimits
    decreases es.len(),
{
    if es.len() == 0 {
        l
    } else {
        apply_spec(applied_all(l, es.drop_last()), es.last().0, es.last().1).0
    }
}

/// The positions of the entries whose key names no whole-number setting.
pub open spec fn unknown_keys(es: Seq<(Seq<char>, Seq<char>)>) -> Seq<usize>
    decreases es.len(),
{
    if es.len() == 0 {
        seq![]
    } else {
        unknown_keys(es.drop_last()) + if limit_key(es.last().0) == 255 {
            seq![(es.len() - 1) as usize]
        } else {
            seq![]
        }
    }
}

/// The settings after the sanitising pass.
pub open spec fn sanitized(l: ServerLimits) -> ServerLimits {
    let max_parts = if l.max_parts < 3 {
        3
    } else if l.max_parts > MAX_PARTS {
        MAX_PARTS
    } else {
        l.max_parts
    };
    ServerLimits {
        max_organisms: if l.max_organisms < 1 { 1 } else { l.max_organisms },
        max_colony_size: if l.max_colony_size < 1 { 1 } else { l.max_colony_size },
        max_parts,
        wild_max_parts: if l.wild_max_parts < 3 {
            3
        } else if l.wild_max_parts > max_parts {
            max_parts
        } else {
            l.wild_max_parts
        },
        ..l
    }
}

impl ServerLimits {
    /// The values a fresh server starts with.
    pub fn defaults() -> (l: ServerLimits)
        ensures
            l.port == SERVER_PORT,
            l.max_organisms == 70,
            l.max_colony_size == 35,
            l.max_parts == MAX_PARTS,
            l.food_target == 900,
            l.corpse_nutrients == 6,
            l.points_per_kill == 3,
            l.aggression_threshold == AGGRESSION_THRESHOLD,
            l.kin_split_threshold == KIN_SPLIT_THRESHOLD,
            l.points_per_season == 2,
            l.wild_target == 9,
            l.wild_max_parts == MAX_PARTS,
    {
        ServerLimits {
            port: SERVER_PORT,
            max_organisms: 70,
            max_colony_size: 35,
            max_parts: MAX_PARTS,
            food_target: 900,
            corpse_nutrients: 6,
            points_per_kill: 3,
            aggression_threshold: AGGRESSION_THRESHOLD,
            kin_split_threshold: KIN_SPLIT_THRESHOLD,
            points_per_season: 2,
            wild_target: 9,
            wild_max_parts: MAX_PARTS,
        }
    }

    /// Applies one `key = value` entry. A value that does not read keeps the
    /// previous one: a broken line must not silently reset the world.
    pub fn apply(&mut self, key: &[char], value: &[char]) -> (r: Applied)
        ensures
            (*final(self), r) == apply_spec(*old(self), key@, value@),
    {
        if chars_eq(key, &chars_of("port")) {
            match parse_u16(value) {
                Some(n) => {
                    self.port = n;
                    Applied::Taken
                },
                None => Applied::Unreadable,
            }
        } else if chars_eq(key, &chars_of("max_organisms")) {
            match parse_usize(value) {
                Some(n) => {
                    self.max_organisms = n;
                    Applied::Taken
                },
                None => Applied::Unreadable,
            }
        } else if chars_eq(key, &chars_of("max_colony_size")) {
            match parse_usize(value) {
                Some(n) => {
                    self.max_colony_size = n;
                    Applied::Taken
                },
                None => Applied::Unreadable,
            }
        } else if chars_eq(key, &chars_of("max_parts")) {
            match parse_usize(value) {
                Some(n) => {
                    self.max_parts = n;
                    Applied::Taken
                },
                None => Applied::Unreadable,
            }
        } else if chars_eq(key, &chars_of("food_target")) {
            match parse_usize(value) {
                Some(n) => {
                    self.food_target = n;
                    Applied::Taken
                },
                None => Applied::Unreadable,
            }
        } else if chars_eq(key, &chars_of("corpse_nutrients")) {
            match parse_usize(value) {
                Some(n) => {
                    self.corpse_nutrients = n;
                    Applied::Taken
                },
                None => Applied::Unreadable,
            }
        } else if chars_eq(key, &chars_of("points_per_kill")) {
            match parse_u16(value) {
                Some(n) => {
                    self.points_per_kill = n;
                    Applied::Taken
                },
                None => Applied::Unreadable,
            }
        } else if chars_eq(key, &chars_of("aggression_threshold")) {
            match parse_u32(value) {
                Some(n) => {
                    self.aggression_threshold = n;
                    Applied::Taken
                },
                None => Applied::Unreadable,
            }
        } else if chars_eq(key, &chars_of("kin_split_threshold")) {
            match parse_u32(value) {
                Some(n) => {
                    self.kin_split_threshold = n;
                    Applied::Taken
                },
                None => Applied::Unreadable,
            }
        } else if chars_eq(key, &chars_of("points_per_season")) {
            match parse_u16(value) {
                Some(n) => {
                    self.points_per_season = n;
                    Applied::Taken
                },
                None => Applied::Unreadable,
            }
        } else if chars_eq(key, &chars_of("wild_target")) {
            match parse_usize(value) {
                Some(n) => {
                    self.wild_target = n;
                    Applied::Taken
                },
                None => Applied::Unreadable,
            }
        } else if chars_eq(key, &chars_of("wild_max_parts")) {
            match parse_usize(value) {
                Some(n) => {
                    self.wild_max_parts = n;
                    Applied::Taken
                },
                None => Applied::Unreadable,
            }
        } else {
            Applied::Unknown
        }
    }

    /// Applies every entry of a settings file in order, and says which keys
    /// it did not know.
    pub fn apply_all(&mut self, entries: &Vec<Entry>) -> (unknown: Vec<usize>)
        ensures
            *final(self) == applied_all(*old(self), entries@.map_values(|e: Entry| entry_view(e))),
            unknown@ == unknown_keys(entries@.map_values(|e: Entry| entry_view(e))),
    {
        let ghost es = entries@.map_values(|e: Entry| entry_view(e));
        let ghost start = *self;
        let mut unknown: Vec<usize> = Vec::new();
        let mut i: usize = 0;
        while i < entries.len()
            invariant
                i <= entries@.len(),
                es == entries@.map_values(|e: Entry| entry_view(e)),
                *self == applied_all(start, es.take(i as int)),
                unknown@ == unknown_keys(es.take(i as int)),
            decreases entries@.len() - i,
        {
            assert(es.take(i + 1).drop_last() =~= es.take(i as int));
            assert(es.take(i + 1).last() == entry_view(entries@[i as int]));
            if self.apply(&entries[i].key, &entries[i].value) == Applied::Unknown {
                unknown.push(i);
                assert(unknown@ =~= unknown_keys(es.take(i + 1)));
            } else {
                assert(unknown@ =~= unknown_keys(es.take(i + 1)));
            }
            i += 1;
        }
        assert(es.take(entries@.len() as int) =~= es);
        unknown
    }

    /// Keeps a hand-edited file from producing an unplayable world. The part
    /// limit may be lowered but never raised past the ceiling the client
    /// draws against, and bots never get more than everyone.
    pub fn sanitize(&mut self)
        ensures
            *final(self) == sanitized(*old(self)),
    {
        if self.max_organisms < 1 {
            self.max_organisms = 1;
        }
        if self.max_colony_size < 1 {
            self.max_colony_size = 1;
        }
        if self.max_parts < 3 {
            self.max_parts = 3;
        } else if self.max_parts > MAX_PARTS {
            self.max_parts = MAX_PARTS;
        }
        if self.wild_max_parts < 3 {
            self.wild_max_parts = 3;
        } else if self.wild_max_parts > self.max_parts {
            self.wild_max_parts = self.max_parts;
        }
    }
}

/// Whatever the file said, a sanitised world is playable: at least one
/// organism and one member per colony, between 3 and the ceiling of parts,
/// and bots within the common limit.
pub proof fn lemma_sanitized_is_playable(l: ServerLimits)
    ensures
        sanitized(l).max_organisms >= 1,
        sanitized(l).max_colony_size >= 1,
        3 <= sanitized(l).wild_max_parts <= sanitized(l).max_parts <= MAX_PARTS,
{
}

/// Sanitising twice is sanitising once, and settings already in range are
/// left alone.
pub proof fn lemma_sanitize_idempotent(l: ServerLimits)
    ensures
        sanitized(sanitized(l)) == sanitized(l),
        (l.max_organisms >= 1 && l.max_colony_size >= 1 && 3 <= l.wild_max_parts <= l.max_parts
            <= MAX_PARTS) ==> sanitized(l) == l,
{
}

/// A value that does not read leaves every setting as it was.
pub proof fn lemma_garbage_keeps_previous(l: ServerLimits, key: Seq<char>, value: Seq<char>)
    requires
        apply_spec(l, key, value).1 != Applied::Taken,
    ensures
        apply_spec(l, key, value).0 == l,
{
}

// ─────────────────────────────────────────────
// Writing the whole-number settings
// ─────────────────────────────────────────────

/// The name of whole-number setting `k`, in the order the file lists them.
pub open spec fn limit_name(k: int) -> Seq<char> {
    if k == 0 {
        "port"@
    } else if k == 1 {
        "max_organisms"@
    } else if k == 2 {
        "max_colony_size"@
    } else if k == 3 {
        "max_parts"@
    } else if k == 4 {
        "food_target"@
    } else if k == 5 {
        "corpse_nutrients"@
    } else if k == 6 {
        "points_per_kill"@
    } else if k == 7 {
        "aggression_threshold"@
    } else if k == 8 {
        "kin_split_threshold"@
    } else if k == 9 {
        "points_per_season"@
    } else if k == 10 {
        "wild_target"@
    } else {
        "wild_max_parts"@
    }
}

/// The value of whole-number setting `k`.
pub open spec fn limit_value(l: ServerLimits, k: int) -> nat {
    if k == 0 {
        l.port as nat
    } else if k == 1 {
        l.max_organisms as nat
    } else if k == 2 {
        l.max_colony_size as nat
    } else if k == 3 {
        l.max_parts as nat
    } else if k == 4 {
        l.food_target as nat
    } else if k == 5 {
        l.corpse_nutrients as nat
    } else if k == 6 {
        l.points_per_kill as nat
    } else if k == 7 {
        l.aggression_threshold as nat
    } else if k == 8 {
        l.kin_split_threshold as nat
    } else if k == 9 {
        l.points_per_season as nat
    } else if k == 10 {
        l.wild_target as nat
    } else {
        l.wild_max_parts as nat
    }
}

/// The line that writes whole-number setting `k`: `name = value`.
pub open spec fn limit_line_spec(l: ServerLimits, k: int) -> Seq<char> {
    limit_name(k) + seq![' ', '=', ' '] + decimal(limit_value(l, k))
}

/// The lines that write every whole-number setting, in order.
pub open spec fn limit_lines_spec(l: ServerLimits) -> Seq<Seq<char>> {
    Seq::new(12, |k: int| limit_line_spec(l, k))
}

fn limit_name_text(k: usize) -> (s: &'static str)
    requires
        k < 12,
    ensures
        s@ == limit_name(k as int),
{
    if k == 0 {
        "port"
    } else if k == 1 {
        "max_organisms"
    } else if k == 2 {
        "max_colony_size"
    } else if k == 3 {
        "max_parts"
    } else if k == 4 {
        "food_target"
    } else if k == 5 {
        "corpse_nutrients"
    } else if k == 6 {
        "points_per_kill"
    } else if k == 7 {
        "aggression_threshold"
    } else if k == 8 {
        "kin_split_threshold"
    } else if k == 9 {
        "points_per_season"
    } else if k == 10 {
        "wild_target"
    } else {
        "wild_max_parts"
    }
}

fn limit_value_of(l: &ServerLimits, k: usize) -> (v: u64)
    requires
        k < 12,
    ensures
        v as nat == limit_value(*l, k as int),
{
    if k == 0 {
        l.port as u64
    } else if k == 1 {
        l.max_organisms as u64
    } else if k == 2 {
        l.max_colony_size as u64
    } else if k == 3 {
        l.max_parts as u64
    } else if k == 4 {
        l.food_target as u64
    } else if k == 5 {
        l.corpse_nutrients as u64
    } else if k == 6 {
        l.points_per_kill as u64
    } else if k == 7 {
        l.aggression_threshold as u64
    } else if k == 8 {
        l.kin_split_threshold as u64
    } else if k == 9 {
        l.points_per_season as u64
    } else if k == 10 {
        l.wild_target as u64
    } else {
        l.wild_max_parts as u64
    }
}

/// The lines of the settings file that hold the whole-number settings, in
/// the order the file lists them: `port = 5555` and so on.
pub fn limit_lines(l: &ServerLimits) -> (r: Vec<String>)
    ensures
        r@.map_values(|s: String| s@) == limit_lines_spec(*l),
{
    let mut r: Vec<String> = Vec::new();
    let mut k: usize = 0;
    while k < 12
        invariant
            k <= 12,
            r@.len() == k,
            forall|j: int| 0 <= j < k ==> #[trigger] r@[j]@ == limit_line_spec(*l, j),
        decreases 12 - k,
    {
        let mut v = chars_of(limit_name_text(k));
        v.push(' ');
        v.push('=');
        v.push(' ');
        push_decimal(&mut v, limit_value_of(l, k));
        assert(v@ =~= limit_line_spec(*l, k as int));
        r.push(string_of(&v));
        k += 1;
    }
    assert(r@.map_values(|s: String| s@) =~= limit_lines_spec(*l));
    r
}

/// A character a setting's name is made of.
pub open spec fn name_char(c: char) -> bool {
    ('a' <= c && c <= 'z') || c == '_'
}

proof fn lemma_limit_name(k: int)
    requires
        0 <= k < 12,
    ensures
        limit_name(k).len() > 0,
        forall|j: int| 0 <= j < limit_name(k).len() ==> name_char(#[trigger] limit_name(k)[j]),
        limit_key(limit_name(k)) == k,
{
    reveal_strlit("port");
    reveal_strlit("max_organisms");
    reveal_strlit("max_colony_size");
    reveal_strlit("max_parts");
    reveal_strlit("food_target");
    reveal_strlit("corpse_nutrients");
    reveal_strlit("points_per_kill");
    reveal_strlit("aggression_threshold");
    reveal_strlit("kin_split_threshold");
    reveal_strlit("points_per_season");
    reveal_strlit("wild_target");
    reveal_strlit("wild_max_parts");
    let names = seq![
        "port"@, "max_organisms"@, "max_colony_size"@, "max_parts"@, "food_target"@,
        "corpse_nutrients"@, "points_per_kill"@, "aggression_threshold"@, "kin_split_threshold"@,
        "points_per_season"@, "wild_target"@, "wild_max_parts"@,
    ];
    assert(limit_name(k) == names[k]);
    assert forall|a: int, b: int| 0 <= a < b < 12 implies #[trigger] names[a] != #[trigger] names[b] by {
        if names[a].len() == names[b].len() {
            assert(names[a][0] != names[b][0] || names[a][1] != names[b][1]);
        }
    }
    assert(forall|j: int| 0 <= j < k ==> names[j] != names[k]);
}

/// The line written for a setting reads back as that setting's entry.
proof fn lemma_limit_entry(l: ServerLimits, k: int)
    requires
        0 <= k < 12,
    ensures
        entry_of_line(limit_line_spec(l, k)) == Some((limit_name(k), decimal(limit_value(l, k)))),
{
    let name = limit_name(k);
    let d = decimal(limit_value(l, k));
    let line = limit_line_spec(l, k);
    lemma_limit_name(k);
    lemma_decimal_reads_back(limit_value(l, k));
    let n = name.len() as int;
    assert(line.len() == n + 3 + d.len());
    assert forall|j: int| 0 <= j < line.len() implies line[j] != '#' && (j != n + 1 ==> line[j] != '=') by {
        if j < n {
            assert(line[j] == name[j]);
            assert(name_char(name[j]));
        } else if j >= n + 3 {
            assert(line[j] == d[j - n - 3]);
            assert(is_digit(d[j - n - 3]));
        }
    }
    lemma_find_unique(line, '#', line.len() as int);
    assert(before_comment(line) =~= line);
    assert(line[0] == name[0]);
    assert(name_char(name[0]));
    assert(line.last() == d.last());
    assert(is_digit(d[d.len() - 1]));
    lemma_trim_plain(line);
    lemma_find_unique(line, '=', n + 1);
    let key = line.take(n + 1);
    let value = line.skip(n + 2);
    assert(key.drop_last() =~= name);
    assert(name_char(name[n - 1]));
    assert(trim_start(key) == key);
    assert(trim_end(key) == trim_end(name));
    lemma_trim_plain(name);
    assert(trim(key) == name);
    assert(value.drop_first() =~= d);
    assert(is_digit(d[0]));
    assert(trim_start(value) == trim_start(d));
    lemma_trim_plain(d);
    assert(trim_end(d) == d);
    assert(trim(value) == d);
}

/// The settings `m` with setting `k` taken from `l`.
pub open spec fn with_limit(m: ServerLimits, l: ServerLimits, k: int) -> ServerLimits {
    if k == 0 {
        ServerLimits { port: l.port, ..m }
    } else if k == 1 {
        ServerLimits { max_organisms: l.max_organisms, ..m }
    } else if k == 2 {
        ServerLimits { max_colony_size: l.max_colony_size, ..m }
    } else if k == 3 {
        ServerLimits { max_parts: l.max_parts, ..m }
    } else if k == 4 {
        ServerLimits { food_target: l.food_target, ..m }
    } else if k == 5 {
        ServerLimits { corpse_nutrients: l.corpse_nutrients, ..m }
    } else if k == 6 {
        ServerLimits { points_per_kill: l.points_per_kill, ..m }
    } else if k == 7 {
        ServerLimits { aggression_threshold: l.aggression_threshold, ..m }
    } else if k == 8 {
        ServerLimits { kin_split_threshold: l.kin_split_threshold, ..m }
    } else if k == 9 {
        ServerLimits { points_per_season: l.points_per_season, ..m }
    } else if k == 10 {
        ServerLimits { wild_target: l.wild_target, ..m }
    } else {
        ServerLimits { wild_max_parts: l.wild_max_parts, ..m }
    }
}

/// Reading the written value of a setting takes exactly that setting over.
proof fn lemma_limit_apply(l: ServerLimits, m: ServerLimits, k: int)
    requires
        0 <= k < 12,
    ensures
        apply_spec(m, limit_name(k), decimal(limit_value(l, k))) == (with_limit(m, l, k), Applied::Taken),
{
    lemma_limit_name(k);
    let v = limit_value(l, k);
    lemma_decimal_reads_back(v);
    assert(unsigned_digits(decimal(v)) == decimal(v));
}

/// The first `n` settings from `l`, the rest from `m`.
pub open spec fn merged(m: ServerLimits, l: ServerLimits, n: int) -> ServerLimits {
    ServerLimits {
        port: if 0 < n { l.port } else { m.port },
        max_organisms: if 1 < n { l.max_organisms } else { m.max_organisms },
        max_colony_size: if 2 < n { l.max_colony_size } else { m.max_colony_size },
        max_parts: if 3 < n { l.max_parts } else { m.max_parts },
        food_target: if 4 < n { l.food_target } else { m.food_target },
        corpse_nutrients: if 5 < n { l.corpse_nutrients } else { m.corpse_nutrients },
        points_per_kill: if 6 < n { l.points_per_kill } else { m.points_per_kill },
        aggression_threshold: if 7 < n { l.aggression_threshold } else { m.aggression_threshold },
        kin_split_threshold: if 8 < n { l.kin_split_threshold } else { m.kin_split_threshold },
        points_per_season: if 9 < n { l.points_per_season } else { m.points_per_season },
        wild_target: if 10 < n { l.wild_target } else { m.wild_target },
        wild_max_parts: if 11 < n { l.wild_max_parts } else { m.wild_max_parts },
    }
}

proof fn lemma_limit_lines_prefix(l: ServerLimits, m: ServerLimits, n: int)
    requires
        0 <= n <= 12,
    ensures
        entries_of_lines(limit_lines_spec(l).take(n)) == Seq::new(
            n as nat,
            |k: int| (limit_name(k), decimal(limit_value(l, k))),
        ),
        applied_all(m, entries_of_lines(limit_lines_spec(l).take(n))) == merged(m, l, n),
    decreases n,
{
    let ls = limit_lines_spec(l).take(n);
    if n == 0 {
        assert(ls =~= Seq::<Seq<char>>::empty());
        assert(merged(m, l, 0) == m);
    } else {
        lemma_limit_lines_prefix(l, m, n - 1);
        assert(ls.drop_last() =~= limit_lines_spec(l).take(n - 1));
        lemma_limit_entry(l, n - 1);
        lemma_limit_apply(l, merged(m, l, n - 1), n - 1);
        let es = entries_of_lines(ls);
        assert(es =~= Seq::new(n as nat, |k: int| (limit_name(k), decimal(limit_value(l, k)))));
        assert(es.drop_last() =~= entries_of_lines(limit_lines_spec(l).take(n - 1)));
        assert(with_limit(merged(m, l, n - 1), l, n - 1) == merged(m, l, n));
    }
}

/// Every whole-number setting survives a write and a read: reading the
/// written lines onto any settings whatever gives back exactly the settings
/// that were written.
pub proof fn lemma_written_limits_read_back(l: ServerLimits, m: ServerLimits)
    ensures
        applied_all(m, entries_of_lines(limit_lines_spec(l))) == l,
        unknown_keys(entries_of_lines(limit_lines_spec(l))).len() == 0,
{
    lemma_limit_lines_prefix(l, m, 12);
    assert(limit_lines_spec(l).take(12) =~= limit_lines_spec(l));
    assert(merged(m, l, 12) == l);
    let es = entries_of_lines(limit_lines_spec(l));
    assert forall|n: int| 0 <= n <= 12 implies unknown_keys(#[trigger] es.take(n)).len() == 0 by {
        lemma_no_unknown(l, es, n);
    }
    assert(es.take(12) =~= es);
}

proof fn lemma_no_unknown(l: ServerLimits, es: Seq<(Seq<char>, Seq<char>)>, n: int)
    requires
        es == Seq::new(12, |k: int| (limit_name(k), decimal(limit_value(l, k)))),
        0 <= n <= 12,
    ensures
        unknown_keys(es.take(n)).len() == 0,
    decreases n,
{
    if n > 0 {
        lemma_no_unknown(l, es, n - 1);
        assert(es.take(n).drop_last() =~= es.take(n - 1));
        lemma_limit_name(n - 1);
    }
}

/// A value that can be written after `key = ` and read back as it is.
pub open spec fn plain_value(v: Seq<char>) -> bool {
    &&& trim(v) == v
    &&& forall|i: int| 0 <= i < v.len() ==> #[trigger] v[i] != '#' && v[i] != '\n'
}

/// A key that can be written before ` = ` and read back as it is.
pub open spec fn plain_key(k: Seq<char>) -> bool {
    &&& k.len() > 0
    &&& forall|i: int| 0 <= i < k.len() ==> !is_space(#[trigger] k[i]) && k[i] != '#' && k[i] != '='
}

pub proof fn lemma_entry_line(key: Seq<char>, v: Seq<char>)
    requires
        plain_key(key),
        plain_value(v),
    ensures
        entry_of_line(key + seq![' ', '=', ' '] + v) == Some((key, v)),
{
    let line = key + seq![' ', '=', ' '] + v;
    let n = key.len() as int;
    assert forall|j: int| 0 <= j < line.len() implies line[j] != '#' && (j < n + 1 ==> line[j] != '=') by {
        if j < n {
            assert(line[j] == key[j]);
        } else if j >= n + 3 {
            assert(line[j] == v[j - n - 3]);
        }
    }
    lemma_find_unique(line, '#', line.len() as int);
    assert(before_comment(line) =~= line);
    assert(line[0] == key[0]);
    let body = if v.len() == 0 {
        key + seq![' ', '=']
    } else {
        line
    };
    if v.len() > 0 {
        lemma_trimmed_ends(v);
        assert(line.last() == v.last());
        lemma_trim_plain(line);
    } else {
        assert(line.drop_last() =~= body);
        assert(trim_start(line) == line);
        assert(trim_end(line) == trim_end(body));
        lemma_trim_plain(body);
        assert(trim_start(body) == body);
    }
    assert(trim(before_comment(line)) == body);
    assert forall|j: int| 0 <= j < n + 1 implies body[j] != '=' by {
        if j < n {
            assert(body[j] == key[j]);
        }
    }
    lemma_find_unique(body, '=', n + 1);
    let k = body.take(n + 1);
    assert(k =~= key + seq![' ']);
    assert(k.drop_last() =~= key);
    assert(trim_start(k) == k);
    lemma_trim_plain(key);
    assert(trim(k) == key);
    let value = body.skip(n + 2);
    if v.len() > 0 {
        assert(value =~= seq![' '] + v);
        assert(value.drop_first() =~= v);
        assert(trim_start(value) == trim_start(v));
        assert(trim(value) == trim(v));
    } else {
        assert(value =~= Seq::<char>::empty());
        assert(trim(value) =~= Seq::<char>::empty());
        assert(v =~= Seq::<char>::empty());
    }
}

// ─────────────────────────────────────────────
// The whole settings file
// ─────────────────────────────────────────────

/// One piece of the settings file, in the order the file is written.
pub enum ConfigItem {
    /// A section title: `# --- <title> ---`.
    Section(String),
    /// Whole-number setting `k`, after a comment describing it.
    Whole(usize, String),
    /// A fractional setting: its key and value as written, after a comment
    /// describing it.
    Fraction(String, String, String),
}

/// The comment the settings file begins with, line by line.
pub open spec fn config_header() -> Seq<Seq<char>> {
    seq![
        "# Настройки сервера Cellborn."@,
        "# Меняются без пересборки: правь файл и перезапусти сервер."@,
        "# Любое значение перекрывается переменной окружения:"@,
        "#   CELLBORN_MAX_ORGANISMS=120 ./cellborn-server"@,
        "#"@,
        "# Здесь только то, что решает сервер. Скорость, размер арены,"@,
        "# тикрейт и цены мутаций остаются в коде: их считает и клиент,"@,
        "# и расхождение сломало бы предсказание движения."@,
    ]
}

/// The lines an item is written as.
pub open spec fn item_lines(l: ServerLimits, item: ConfigItem) -> Seq<Seq<char>> {
    match item {
        ConfigItem::Section(title) => seq![Seq::<char>::empty(), "# --- "@ + title@ + " ---"@],
        ConfigItem::Whole(k, doc) => seq![Seq::<char>::empty(), "# "@ + doc@, limit_line_spec(l, k as int)],
        ConfigItem::Fraction(key, value, doc) => seq![
            Seq::<char>::empty(),
            "# "@ + doc@,
            key@ + seq![' ', '=', ' '] + value@,
        ],
    }
}

/// The lines of the first `n` items.
pub open spec fn items_lines(l: ServerLimits, items: Seq<ConfigItem>, n: int) -> Seq<Seq<char>>
    decreases n,
{
    if n <= 0 {
        seq![]
    } else {
        items_lines(l, items, n - 1) + item_lines(l, items[n - 1])
    }
}

/// Every line of the settings file.
pub open spec fn config_lines(l: ServerLimits, items: Seq<ConfigItem>) -> Seq<Seq<char>> {
    config_header() + items_lines(l, items, items.len() as int)
}

/// The entries an item holds: none for a title, one for a setting.
pub open spec fn item_entries(l: ServerLimits, item: ConfigItem) -> Seq<(Seq<char>, Seq<char>)> {
    match item {
        ConfigItem::Section(_) => seq![],
        ConfigItem::Whole(k, _) => seq![(limit_name(k as int), decimal(limit_value(l, k as int)))],
        ConfigItem::Fraction(key, value, _) => seq![(key@, value@)],
    }
}

/// The entries of the first `n` items, in order.
pub open spec fn items_entries(l: ServerLimits, items: Seq<ConfigItem>, n: int) -> Seq<(Seq<char>, Seq<char>)>
    decreases n,
{
    if n <= 0 {
        seq![]
    } else {
        items_entries(l, items, n - 1) + item_entries(l, items[n - 1])
    }
}

/// An item that can be written and read back: descriptions and titles on
/// one line, whole-number settings that exist, fractional settings with a
/// plain key that names no whole-number setting and a plain value.
pub open spec fn writable_item(item: ConfigItem) -> bool {
    match item {
        ConfigItem::Section(title) => one_line(title@) && (title@.len() == 0 || title@.last() != '\r'),
        ConfigItem::Whole(k, doc) => k < 12 && one_line(doc@),
        ConfigItem::Fraction(key, value, doc) => plain_key(key@) && plain_value(value@) && one_line(doc@)
            && limit_key(key@) == 255,
    }
}

fn doc_line(doc: &String) -> (s: String)
    ensures
        s@ == "# "@ + doc@,
{
    let mut v = chars_of("# ");
    let d = chars_of(doc.as_str());
    append_chars(&mut v, &d);
    string_of(&v)
}

/// Writes the settings file: the header comment, then the items in order.
pub fn config_file_text(limits: &ServerLimits, items: &Vec<ConfigItem>) -> (s: String)
    requires
        forall|i: int| 0 <= i < items@.len() ==> (#[trigger] items@[i] matches ConfigItem::Whole(k, _) ==> k < 12),
    ensures
        s@ == joined(config_lines(*limits, items@)),
{
    let ghost all = config_lines(*limits, items@);
    let ghost h = config_header();
    let mut v: Vec<char> = Vec::new();
    let h0 = "# Настройки сервера Cellborn.";
    let h1 = "# Меняются без пересборки: правь файл и перезапусти сервер.";
    let h2 = "# Любое значение перекрывается переменной окружения:";
    let h3 = "#   CELLBORN_MAX_ORGANISMS=120 ./cellborn-server";
    let h4 = "#";
    let h5 = "# Здесь только то, что решает сервер. Скорость, размер арены,";
    let h6 = "# тикрейт и цены мутаций остаются в коде: их считает и клиент,";
    let h7 = "# и расхождение сломало бы предсказание движения.";
    let ghost done: Seq<Seq<char>> = seq![];
    assert(h.take(0) =~= done);
    proof {
        assert forall|k: int| 0 <= k < 8 implies h.take(k).push(h[k]) =~= #[trigger] h.take(k + 1) by {}
    }
    push_line(&mut v, h0, Ghost(h.take(0)));
    push_line(&mut v, h1, Ghost(h.take(1)));
    push_line(&mut v, h2, Ghost(h.take(2)));
    push_line(&mut v, h3, Ghost(h.take(3)));
    push_line(&mut v, h4, Ghost(h.take(4)));
    push_line(&mut v, h5, Ghost(h.take(5)));
    push_line(&mut v, h6, Ghost(h.take(6)));
    push_line(&mut v, h7, Ghost(h.take(7)));
    assert(h.take(8) =~= h);
    let mut i: usize = 0;
    while i < items.len()
        invariant
            i <= items@.len(),
            forall|j: int| 0 <= j < items@.len() ==> (#[trigger] items@[j] matches ConfigItem::Whole(k, _) ==> k < 12),
            v@ == joined(config_header() + items_lines(*limits, items@, i as int)),
        decreases items@.len() - i,
    {
        let ghost before = config_header() + items_lines(*limits, items@, i as int);
        assert(config_header() + items_lines(*limits, items@, i + 1) =~= before + item_lines(
            *limits,
            items@[i as int],
        ));
        proof {
            reveal_strlit("");
        }
        match &items[i] {
            ConfigItem::Section(title) => {
                let mut t = chars_of("# --- ");
                let tv = chars_of(title.as_str());
                append_chars(&mut t, &tv);
                let tail = chars_of(" ---");
                append_chars(&mut t, &tail);
                let line = string_of(&t);
                assert(""@ =~= Seq::<char>::empty());
                push_line(&mut v, "", Ghost(before));
                push_line(&mut v, line.as_str(), Ghost(before.push(Seq::<char>::empty())));
                assert(before.push(Seq::<char>::empty()).push(line@) =~= before + item_lines(
                    *limits,
                    items@[i as int],
                ));
            },
            ConfigItem::Whole(k, doc) => {
                let d = doc_line(doc);
                let mut lv = chars_of(limit_name_text(*k));
                lv.push(' ');
                lv.push('=');
                lv.push(' ');
                push_decimal(&mut lv, limit_value_of(limits, *k));
                assert(lv@ =~= limit_line_spec(*limits, *k as int));
                let line = string_of(&lv);
                assert(""@ =~= Seq::<char>::empty());
                push_line(&mut v, "", Ghost(before));
                push_line(&mut v, d.as_str(), Ghost(before.push(Seq::<char>::empty())));
                push_line(&mut v, line.as_str(), Ghost(before.push(Seq::<char>::empty()).push(d@)));
                assert(before.push(Seq::<char>::empty()).push(d@).push(line@) =~= before + item_lines(
                    *limits,
                    items@[i as int],
                ));
            },
            ConfigItem::Fraction(key, value, doc) => {
                let d = doc_line(doc);
                let mut lv = chars_of(key.as_str());
                lv.push(' ');
                lv.push('=');
                lv.push(' ');
                let vv = chars_of(value.as_str());
                append_chars(&mut lv, &vv);
                assert(lv@ =~= key@ + seq![' ', '=', ' '] + value@);
                let line = string_of(&lv);
                assert(""@ =~= Seq::<char>::empty());
                push_line(&mut v, "", Ghost(before));
                push_line(&mut v, d.as_str(), Ghost(before.push(Seq::<char>::empty())));
                push_line(&mut v, line.as_str(), Ghost(before.push(Seq::<char>::empty()).push(d@)));
                assert(before.push(Seq::<char>::empty()).push(d@).push(line@) =~= before + item_lines(
                    *limits,
                    items@[i as int],
                ));
            },
        }
        i += 1;
    }
    string_of(&v)
}

proof fn lemma_entries_concat(x: Seq<Seq<char>>, y: Seq<Seq<char>>)
    ensures
        entries_of_lines(x + y) == entries_of_lines(x) + entries_of_lines(y),
    decreases y.len(),
{
    if y.len() == 0 {
        assert(x + y =~= x);
        assert(entries_of_lines(x) + entries_of_lines(y) =~= entries_of_lines(x));
    } else {
        assert((x + y).drop_last() =~= x + y.drop_last());
        lemma_entries_concat(x, y.drop_last());
        assert(entries_of_lines(x + y) =~= entries_of_lines(x) + entries_of_lines(y));
    }
}

proof fn lemma_entries_single(l: Seq<char>)
    ensures
        entries_of_lines(seq![l]) == (match entry_of_line(l) {
            Some(e) => seq![e],
            None => Seq::<(Seq<char>, Seq<char>)>::empty(),
        }),
{
    assert(seq![l].drop_last() =~= Seq::<Seq<char>>::empty());
    assert(seq![l].last() == l);
    assert(entries_of_lines(Seq::<Seq<char>>::empty()) == Seq::<(Seq<char>, Seq<char>)>::empty());
    assert(entries_of_lines(seq![l]) =~= (match entry_of_line(l) {
        Some(e) => seq![e],
        None => Seq::<(Seq<char>, Seq<char>)>::empty(),
    }));
}

proof fn lemma_comment_line(l: Seq<char>)
    requires
        l.len() == 0 || l[0] == '#',
    ensures
        entry_of_line(l) is None,
{
    lemma_find_unique(l, '#', 0);
    assert(before_comment(l) =~= Seq::<char>::empty());
    assert(trim(Seq::<char>::empty()) =~= Seq::<char>::empty());
    lemma_find_unique(Seq::<char>::empty(), '=', 0);
}

proof fn lemma_silent_lines(ls: Seq<Seq<char>>)
    requires
        forall|i: int| 0 <= i < ls.len() ==> (#[trigger] ls[i]).len() == 0 || ls[i][0] == '#',
    ensures
        entries_of_lines(ls) == Seq::<(Seq<char>, Seq<char>)>::empty(),
    decreases ls.len(),
{
    if ls.len() > 0 {
        let front = ls.drop_last();
        assert forall|i: int| 0 <= i < front.len() implies (#[trigger] front[i]).len() == 0 || front[i][0] == '#' by {
            assert(front[i] == ls[i]);
        }
        lemma_silent_lines(front);
        assert(ls[ls.len() - 1].len() == 0 || ls[ls.len() - 1][0] == '#');
        lemma_comment_line(ls.last());
    }
}

proof fn lemma_item_reads_back(l: ServerLimits, item: ConfigItem)
    requires
        writable_item(item),
    ensures
        entries_of_lines(item_lines(l, item)) == item_entries(l, item),
        forall|i: int| 0 <= i < item_lines(l, item).len() ==> one_line(#[trigger] item_lines(l, item)[i]),
{
    reveal_strlit("# ");
    reveal_strlit("# --- ");
    reveal_strlit(" ---");
    let lines_ = item_lines(l, item);
    let blank = Seq::<char>::empty();
    lemma_comment_line(blank);
    match item {
        ConfigItem::Section(title) => {
            let t = "# --- "@ + title@ + " ---"@;
            lemma_comment_line(t);
            assert(lines_ =~= seq![blank] + seq![t]);
            lemma_entries_single(blank);
            lemma_entries_single(t);
            lemma_entries_concat(seq![blank], seq![t]);
            assert forall|j: int| 0 <= j < t.len() implies t[j] != '\n' by {
                if 6 <= j < 6 + title@.len() {
                    assert(t[j] == title@[j - 6]);
                }
            }
            assert(one_line(t));
        },
        ConfigItem::Whole(k, doc) => {
            let d = "# "@ + doc@;
            let w = limit_line_spec(l, k as int);
            lemma_comment_line(d);
            lemma_limit_entry(l, k as int);
            assert(lines_ =~= seq![blank] + seq![d] + seq![w]);
            lemma_entries_single(blank);
            lemma_entries_single(d);
            lemma_entries_single(w);
            lemma_entries_concat(seq![blank], seq![d]);
            lemma_entries_concat(seq![blank] + seq![d], seq![w]);
            assert forall|j: int| 0 <= j < d.len() implies d[j] != '\n' by {
                if j >= 2 {
                    assert(d[j] == doc@[j - 2]);
                }
            }
            if doc@.len() > 0 {
                assert(d.last() == doc@.last());
            }
            lemma_limit_name(k as int);
            lemma_decimal_reads_back(limit_value(l, k as int));
            let name = limit_name(k as int);
            let dd = decimal(limit_value(l, k as int));
            assert forall|j: int| 0 <= j < w.len() implies w[j] != '\n' by {
                if j < name.len() {
                    assert(w[j] == name[j]);
                    assert(name_char(name[j]));
                } else if j >= name.len() + 3 {
                    assert(w[j] == dd[j - name.len() - 3]);
                    assert(is_digit(dd[j - name.len() - 3]));
                }
            }
            assert(w.last() == dd.last());
            assert(is_digit(dd[dd.len() - 1]));
        },
        ConfigItem::Fraction(key, value, doc) => {
            let d = "# "@ + doc@;
            let w = key@ + seq![' ', '=', ' '] + value@;
            lemma_comment_line(d);
            lemma_entry_line(key@, value@);
            assert(lines_ =~= seq![blank] + seq![d] + seq![w]);
            lemma_entries_single(blank);
            lemma_entries_single(d);
            lemma_entries_single(w);
            lemma_entries_concat(seq![blank], seq![d]);
            lemma_entries_concat(seq![blank] + seq![d], seq![w]);
            assert forall|j: int| 0 <= j < d.len() implies d[j] != '\n' by {
                if j >= 2 {
                    assert(d[j] == doc@[j - 2]);
                }
            }
            if doc@.len() > 0 {
                assert(d.last() == doc@.last());
            }
            assert forall|j: int| 0 <= j < w.len() implies w[j] != '\n' by {
                if j < key@.len() {
                    assert(w[j] == key@[j]);
                } else if j >= key@.len() + 3 {
                    assert(w[j] == value@[j - key@.len() - 3]);
                }
            }
            if value@.len() > 0 {
                lemma_trimmed_ends(value@);
                assert(w.last() == value@.last());
            }
        },
    }
}

proof fn lemma_items_read_back(l: ServerLimits, items: Seq<ConfigItem>, n: int)
    requires
        0 <= n <= items.len(),
        forall|i: int| 0 <= i < items.len() ==> writable_item(#[trigger] items[i]),
    ensures
        entries_of_lines(items_lines(l, items, n)) == items_entries(l, items, n),
        forall|i: int| 0 <= i < items_lines(l, items, n).len() ==> one_line(#[trigger] items_lines(l, items, n)[i]),
    decreases n,
{
    if n > 0 {
        lemma_items_read_back(l, items, n - 1);
        assert(writable_item(items[n - 1]));
        lemma_item_reads_back(l, items[n - 1]);
        let a = items_lines(l, items, n - 1);
        let b = item_lines(l, items[n - 1]);
        lemma_entries_concat(a, b);
        assert forall|i: int| 0 <= i < (a + b).len() implies one_line(#[trigger] (a + b)[i]) by {
            if i < a.len() {
                assert((a + b)[i] == a[i]);
            } else {
                assert((a + b)[i] == b[i - a.len()]);
            }
        }
    }
}

/// The settings file reads back as exactly the entries written, in order:
/// every whole-number setting with its value, every fractional one with
/// its value as written; titles and descriptions say nothing.
pub proof fn lemma_config_file_reads_back(l: ServerLimits, items: Seq<ConfigItem>)
    requires
        forall|i: int| 0 <= i < items.len() ==> writable_item(#[trigger] items[i]),
    ensures
        entries_of_lines(lines(joined(config_lines(l, items)))) == items_entries(l, items, items.len() as int),
{
    reveal_strlit("# Настройки сервера Cellborn.");
    reveal_strlit("# Меняются без пересборки: правь файл и перезапусти сервер.");
    reveal_strlit("# Любое значение перекрывается переменной окружения:");
    reveal_strlit("#   CELLBORN_MAX_ORGANISMS=120 ./cellborn-server");
    reveal_strlit("#");
    reveal_strlit("# Здесь только то, что решает сервер. Скорость, размер арены,");
    reveal_strlit("# тикрейт и цены мутаций остаются в коде: их считает и клиент,");
    reveal_strlit("# и расхождение сломало бы предсказание движения.");
    let h = config_header();
    let body = items_lines(l, items, items.len() as int);
    lemma_items_read_back(l, items, items.len() as int);
    assert forall|i: int| 0 <= i < h.len() implies (#[trigger] h[i]).len() == 0 || h[i][0] == '#' by {}
    let all = h + body;
    assert forall|i: int| 0 <= i < all.len() implies one_line(#[trigger] all[i]) by {
        if i < h.len() {
            assert(all[i] == h[i]);
        } else {
            assert(all[i] == body[i - h.len()]);
        }
    }
    lemma_lines_joined(all);
    lemma_silent_lines(h);
    lemma_entries_concat(h, body);
    assert(entries_of_lines(h) + items_entries(l, items, items.len() as int) =~= items_entries(
        l,
        items,
        items.len() as int,
    ));
}

/// Whether one of the first `n` items writes whole-number setting `k`.
pub open spec fn writes_whole(items: Seq<ConfigItem>, n: int, k: int) -> bool
    decreases n,
{
    if n <= 0 {
        false
    } else {
        writes_whole(items, n - 1, k) || (items[n - 1] matches ConfigItem::Whole(j, _) && j == k)
    }
}

/// The settings `m` with every setting written by the first `n` items taken from `l`.
pub open spec fn picked(m: ServerLimits, l: ServerLimits, items: Seq<ConfigItem>, n: int) -> ServerLimits {
    ServerLimits {
        port: if writes_whole(items, n, 0) { l.port } else { m.port },
        max_organisms: if writes_whole(items, n, 1) { l.max_organisms } else { m.max_organisms },
        max_colony_size: if writes_whole(items, n, 2) { l.max_colony_size } else { m.max_colony_size },
        max_parts: if writes_whole(items, n, 3) { l.max_parts } else { m.max_parts },
        food_target: if writes_whole(items, n, 4) { l.food_target } else { m.food_target },
        corpse_nutrients: if writes_whole(items, n, 5) { l.corpse_nutrients } else { m.corpse_nutrients },
        points_per_kill: if writes_whole(items, n, 6) { l.points_per_kill } else { m.points_per_kill },
        aggression_threshold: if writes_whole(items, n, 7) {
            l.aggression_threshold
        } else {
            m.aggression_threshold
        },
        kin_split_threshold: if writes_whole(items, n, 8) {
            l.kin_split_threshold
        } else {
            m.kin_split_threshold
        },
        points_per_season: if writes_whole(items, n, 9) { l.points_per_season } else { m.points_per_season },
        wild_target: if writes_whole(items, n, 10) { l.wild_target } else { m.wild_target },
        wild_max_parts: if writes_whole(items, n, 11) { l.wild_max_parts } else { m.wild_max_parts },
    }
}

proof fn lemma_applied_concat(m: ServerLimits, x: Seq<(Seq<char>, Seq<char>)>, y: Seq<(Seq<char>, Seq<char>)>)
    ensures
        applied_all(m, x + y) == applied_all(applied_all(m, x), y),
    decreases y.len(),
{
    if y.len() == 0 {
        assert(x + y =~= x);
    } else {
        assert((x + y).drop_last() =~= x + y.drop_last());
        lemma_applied_concat(m, x, y.drop_last());
        assert((x + y).last() == y.last());
    }
}

proof fn lemma_picked_whole(m: ServerLimits, l: ServerLimits, items: Seq<ConfigItem>, n: int, k: int)
    requires
        1 <= n <= items.len(),
        0 <= k < 12,
        items[n - 1] matches ConfigItem::Whole(j, _) && j == k,
    ensures
        with_limit(picked(m, l, items, n - 1), l, k) == picked(m, l, items, n),
{
    assert forall|j: int| #[trigger] writes_whole(items, n, j) == (writes_whole(items, n - 1, j) || j == k) by {}
}

proof fn lemma_picked_same(m: ServerLimits, l: ServerLimits, items: Seq<ConfigItem>, n: int)
    requires
        1 <= n <= items.len(),
        !(items[n - 1] is Whole),
    ensures
        picked(m, l, items, n - 1) == picked(m, l, items, n),
{
    assert forall|j: int| #[trigger] writes_whole(items, n, j) == writes_whole(items, n - 1, j) by {}
}

#[verifier::spinoff_prover]
proof fn lemma_items_applied(m: ServerLimits, l: ServerLimits, items: Seq<ConfigItem>, n: int)
    requires
        0 <= n <= items.len(),
        forall|i: int| 0 <= i < items.len() ==> writable_item(#[trigger] items[i]),
    ensures
        applied_all(m, items_entries(l, items, n)) == picked(m, l, items, n),
    decreases n,
{
    if n == 0 {
        assert(items_entries(l, items, 0) =~= Seq::<(Seq<char>, Seq<char>)>::empty());
        assert(picked(m, l, items, 0) == m);
    } else {
        lemma_items_applied(m, l, items, n - 1);
        let prev = picked(m, l, items, n - 1);
        let item = items[n - 1];
        assert(writable_item(item));
        lemma_applied_concat(m, items_entries(l, items, n - 1), item_entries(l, item));
        let es = item_entries(l, item);
        assert(items_entries(l, items, n) == items_entries(l, items, n - 1) + es);
        assert(applied_all(m, items_entries(l, items, n)) == applied_all(prev, es));
        let empty = Seq::<(Seq<char>, Seq<char>)>::empty();
        assert(applied_all(prev, empty) == prev);
        match item {
            ConfigItem::Section(_) => {
                assert(es =~= empty);
                lemma_picked_same(m, l, items, n);
            },
            ConfigItem::Whole(k, _) => {
                assert(es.drop_last() =~= empty);
                assert(applied_all(prev, es) == apply_spec(prev, es.last().0, es.last().1).0);
                lemma_limit_apply(l, prev, k as int);
                lemma_picked_whole(m, l, items, n, k as int);
            },
            ConfigItem::Fraction(key, value, _) => {
                assert(es.drop_last() =~= empty);
                assert(applied_all(prev, es) == apply_spec(prev, es.last().0, es.last().1).0);
                assert(apply_spec(prev, key@, value@).0 == prev);
                lemma_picked_same(m, l, items, n);
            },
        }
    }
}

/// The settings file survives a write and a read: when every whole-number
/// setting is written, reading the file onto any settings whatever gives
/// back exactly the settings that were written, and the fractional entries
/// come back as written, in order, for their own reader.
pub proof fn lemma_config_file_round_trip(l: ServerLimits, m: ServerLimits, items: Seq<ConfigItem>)
    requires
        forall|i: int| 0 <= i < items.len() ==> writable_item(#[trigger] items[i]),
        forall|k: int| 0 <= k < 12 ==> writes_whole(items, items.len() as int, k),
    ensures
        applied_all(m, entries_of_lines(lines(joined(config_lines(l, items))))) == l,
{
    lemma_config_file_reads_back(l, items);
    lemma_items_applied(m, l, items, items.len() as int);
    assert(writes_whole(items, items.len() as int, 0));
    assert(writes_whole(items, items.len() as int, 11));
    assert(picked(m, l, items, items.len() as int) == l);
}

} // verus!
