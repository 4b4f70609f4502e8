//! The server's hereditary memory: wild bots learn between sessions.
//!
//! The server remembers which bodies lived longest. A new wild bot is usually
//! built from one of those ancestors with a single random edit — a genetic
//! algorithm in which the game itself does the selecting. How long a body
//! lived is a measured duration and is ranked next to the server's clock;
//! what stands here is how a body is proposed from the ranked ancestors, and
//! the memory file in which they are written down and read back.

use vstd::prelude::*;
use crate::genome::{grown_part, random_part, random_part_spec, starter_parts, BodyPart, Genome, MAX_PARTS};
use crate::parts::{family_at, lemma_family_slots, level_at, PartFamily, PartKind, PartLevel, FAMILY_COUNT, LEVEL_COUNT};
use crate::text::{
    all_digits, before_comment, chars_of, decimal, digits_value, find, find_char, is_space,
    lemma_decimal_reads_back, lemma_find, lemma_find_unique, lines, lines_of, parse_unsigned, lemma_find_concat, lemma_split_concat,
    parse_usize, push_decimal, slice_chars, split, split_chars, split_once, split_once_chars,
    starts_with, has_prefix, strip_comment, string_of, trim, trim_end, trim_start, trimmed,
    unsigned_digits, views, append_chars, is_digit, lemma_trim_plain, joined, lemma_lines_joined,
    one_line, push_line,
};

verus! {

/// How many successful bodies the memory keeps: a pool of different answers,
/// not an archive.
pub const KEEP_BEST: usize = 24;

// ─────────────────────────────────────────────
// Proposing a new body
// ─────────────────────────────────────────────

/// The organs grown in order while the body has room.
pub open spec fn grow_all(parts: Seq<BodyPart>, kinds: Seq<PartKind>) -> Seq<BodyPart>
    decreases kinds.len(),
{
    if kinds.len() == 0 || parts.len() >= MAX_PARTS {
        parts
    } else {
        grow_all(parts.push(grown_part(parts, kinds[0])), kinds.drop_first())
    }
}

/// The roll for the `i`-th random organ of a body built from scratch.
pub open spec fn scratch_roll(roll: u64, i: nat) -> u64 {
    roll.wrapping_add((i * 7919) as u64)
}

/// Random organs `i..n` grown in order.
pub open spec fn grow_random(parts: Seq<BodyPart>, roll: u64, i: nat, n: nat) -> Seq<BodyPart>
    decreases n - i,
{
    if i >= n {
        parts
    } else {
        grow_random(parts.push(grown_part(parts, random_part_spec(scratch_roll(roll, i)))), roll, i + 1, n)
    }
}

/// The single edit an inherited body receives: one organ more, one organ a
/// level higher, or one organ less (never one of the starting three).
pub open spec fn edit(parts: Seq<BodyPart>, roll: u64) -> Seq<BodyPart> {
    let choice = (roll >> 40u64) % 3;
    if choice == 0 {
        parts.push(grown_part(parts, random_part_spec(roll)))
    } else if choice == 1 {
        if parts.len() == 0 {
            parts
        } else {
            let i = ((roll >> 48u64) as usize) as int % (parts.len() as int);
            match parts[i].kind.upgraded_spec() {
                Some(better) => parts.update(i, BodyPart { kind: better, slot: parts[i].slot, level: parts[i].level }),
                None => parts,
            }
        }
    } else {
        if parts.len() > 3 {
            parts.remove(3 + ((roll >> 52u64) as usize) as int % (parts.len() - 3))
        } else {
            parts
        }
    }
}

/// Which remembered body an inherited bot is built from: of two picks, the
/// better ranked, so the top of the list is taken most often.
pub open spec fn ancestor_pick(count: nat, roll: u64) -> int {
    let a = ((roll >> 8u64) as usize) as int % (count as int);
    let b = ((roll >> 24u64) as usize) as int % (count as int);
    if a <= b {
        a
    } else {
        b
    }
}

/// The choice of ancestor leans to the best: of the two places rolled in the
/// ranking (from bits 8 and 24 of the roll), the body is bred from the better
/// ranked, so never from one ranked below both picks, and the top of the
/// list whenever either pick lands on it.
pub proof fn lemma_pick_is_the_better_of_two(count: nat, roll: u64)
    requires
        count > 0,
    ensures
        0 <= ancestor_pick(count, roll) < count,
        ancestor_pick(count, roll) <= ((roll >> 8u64) as usize) as int % (count as int),
        ancestor_pick(count, roll) <= ((roll >> 24u64) as usize) as int % (count as int),
        ancestor_pick(count, roll) == ((roll >> 8u64) as usize) as int % (count as int)
            || ancestor_pick(count, roll) == ((roll >> 24u64) as usize) as int % (count as int),
{
}

/// An inheriting body is the starter body grown with the organs of the
/// better ranked of the two picked ancestors, then edited once.
pub proof fn lemma_inherits_from_the_better_pick(ancestors: Seq<Seq<PartKind>>, roll: u64, k: int)
    requires
        ancestors.len() > 0,
        roll % 100 >= 25,
        0 <= k < ancestors.len(),
        k <= ((roll >> 8u64) as usize) as int % (ancestors.len() as int),
        k <= ((roll >> 24u64) as usize) as int % (ancestors.len() as int),
        k == ((roll >> 8u64) as usize) as int % (ancestors.len() as int)
            || k == ((roll >> 24u64) as usize) as int % (ancestors.len() as int),
    ensures
        proposed_parts(ancestors, roll) == edit(grow_all(starter_parts(), ancestors[k]), roll),
{
    lemma_pick_is_the_better_of_two(ancestors.len(), roll);
}

/// The organs of a proposed body.
pub open spec fn proposed_parts(ancestors: Seq<Seq<PartKind>>, roll: u64) -> Seq<BodyPart> {
    if ancestors.len() == 0 || roll % 100 < 25 {
        grow_random(starter_parts(), roll, 0, (roll % 3) as nat)
    } else {
        edit(grow_all(starter_parts(), ancestors[ancestor_pick(ancestors.len(), roll)]), roll)
    }
}

/// The organ lists of ranked ancestors, best first.
pub open spec fn kinds_of(ancestors: Seq<Vec<PartKind>>) -> Seq<Seq<PartKind>> {
    ancestors.map_values(|a: Vec<PartKind>| a@)
}

/// Proposes a genome for a new wild bot from the remembered ancestors, best
/// first.
///
/// Sometimes pure chance, more often the offspring of a successful ancestor
/// with one edit. Chance is kept on purpose: without it the pool collapses to
/// one blueprint and evolution stops at the first local optimum.
pub fn propose(ancestors: &Vec<Vec<PartKind>>, lineage: u64, roll: u64) -> (g: Genome)
    ensures
        g.parts@ == proposed_parts(kinds_of(ancestors@), roll),
        g.lineage == lineage,
        g.mutation_points == 0,
        g.generation == 0,
{
    let mut genome = Genome::starter_of(lineage);
    if ancestors.len() == 0 || roll % 100 < 25 {
        let n = roll % 3;
        let mut i: u64 = 0;
        while i < n
            invariant
                n < 3,
                i <= n,
                grow_random(genome.parts@, roll, i as nat, n as nat) == grow_random(starter_parts(), roll, 0, n as nat),
                genome.lineage == lineage,
                genome.mutation_points == 0,
                genome.generation == 0,
            decreases n - i,
        {
            genome.push_part(random_part(roll.wrapping_add(i * 7919)));
            i += 1;
        }
        return genome;
    }
    let span = ancestors.len();
    let a = ((roll >> 8) as usize) % span;
    let b = ((roll >> 24) as usize) % span;
    let pick = if a <= b {
        a
    } else {
        b
    };
    let ancestor = &ancestors[pick];
    assert(kinds_of(ancestors@)[pick as int] == ancestor@);
    let mut j: usize = 0;
    assert(ancestor@.skip(0) =~= ancestor@);
    while j < ancestor.len() && genome.parts.len() < MAX_PARTS
        invariant
            j <= ancestor@.len(),
            grow_all(genome.parts@, ancestor@.skip(j as int)) == grow_all(starter_parts(), ancestor@),
            genome.lineage == lineage,
            genome.mutation_points == 0,
            genome.generation == 0,
        decreases ancestor@.len() - j,
    {
        assert(ancestor@.skip(j as int).drop_first() =~= ancestor@.skip(j + 1));
        genome.push_part(ancestor[j]);
        j += 1;
    }
    assert(genome.parts@ == grow_all(starter_parts(), ancestor@)) by {
        if j >= ancestor@.len() {
            assert(ancestor@.skip(j as int).len() == 0);
        }
    }
    let choice = (roll >> 40) % 3;
    if choice == 0 {
        genome.push_part(random_part(roll));
    } else if choice == 1 {
        if genome.parts.len() > 0 {
            let index = ((roll >> 48) as usize) % genome.parts.len();
            let part = genome.parts[index];
            match part.kind.upgraded() {
                Some(better) => {
                    genome.parts.set(index, BodyPart { kind: better, slot: part.slot, level: part.level });
                },
                None => {},
            }
        }
    } else {
        if genome.parts.len() > 3 {
            let index = 3 + ((roll >> 52) as usize) % (genome.parts.len() - 3);
            genome.parts.remove(index);
        }
    }
    genome
}

// ─────────────────────────────────────────────
// The memory file
// ─────────────────────────────────────────────

/// One organ as the memory file writes it: `<family slot>:<level step>`.
pub open spec fn entry_text(kind: PartKind) -> Seq<char> {
    decimal(kind.family.slot_spec() as nat) + seq![':'] + decimal(kind.level.step_spec() as nat)
}

/// A list of organs as the memory file writes it: entries joined by `,`.
pub open spec fn parts_text_spec(kinds: Seq<PartKind>) -> Seq<char>
    decreases kinds.len(),
{
    if kinds.len() == 0 {
        seq![]
    } else if kinds.len() == 1 {
        entry_text(kinds[0])
    } else {
        parts_text_spec(kinds.drop_last()) + seq![','] + entry_text(kinds.last())
    }
}

/// One entry read back: a family slot and a level step, both in range, or
/// nothing at all.
pub open spec fn parse_entry(entry: Seq<char>) -> Option<PartKind> {
    match split_once(trim(entry), ':') {
        Some((f, l)) => match (
            parse_unsigned(trim(f), usize::MAX as nat),
            parse_unsigned(trim(l), usize::MAX as nat),
        ) {
            (Some(fi), Some(li)) => if fi < FAMILY_COUNT && li < LEVEL_COUNT {
                Some(PartKind { family: family_at(fi as int), level: level_at(li as int) })
            } else {
                None
            },
            _ => None,
        },
        None => None,
    }
}

/// The organs read from a list of entries; unreadable entries are skipped.
pub open spec fn parse_entries(entries: Seq<Seq<char>>) -> Seq<PartKind>
    decreases entries.len(),
{
    if entries.len() == 0 {
        seq![]
    } else {
        parse_entries(entries.drop_last()) + match parse_entry(entries.last()) {
            Some(k) => seq![k],
            None => seq![],
        }
    }
}

/// The organs of a written list.
pub open spec fn parse_parts_spec(text: Seq<char>) -> Seq<PartKind> {
    parse_entries(split(text, ','))
}

fn push_entry(out: &mut Vec<char>, kind: PartKind)
    ensures
        final(out)@ == old(out)@ + entry_text(kind),
{
    push_decimal(out, kind.family.slot() as u64);
    out.push(':');
    push_decimal(out, kind.level.step() as u64);
    assert(final(out)@ =~= old(out)@ + entry_text(kind));
}

/// Writes the organs of a body for the memory file.
pub fn parts_text(kinds: &[PartKind]) -> (s: String)
    ensures
        s@ == parts_text_spec(kinds@),
{
    let mut out: Vec<char> = Vec::new();
    let mut i: usize = 0;
    while i < kinds.len()
        invariant
            i <= kinds@.len(),
            out@ == parts_text_spec(kinds@.take(i as int)),
        decreases kinds@.len() - i,
    {
        let ghost before = kinds@.take(i as int);
        let ghost after = kinds@.take(i + 1);
        assert(after.drop_last() =~= before);
        if i > 0 {
            out.push(',');
        }
        push_entry(&mut out, kinds[i]);
        proof {
            if i == 0 {
                assert(out@ =~= parts_text_spec(after));
            } else {
                assert(out@ =~= parts_text_spec(before) + seq![','] + entry_text(after.last()));
            }
        }
        i += 1;
    }
    assert(kinds@.take(kinds@.len() as int) =~= kinds@);
    string_of(&out)
}

fn parse_entry_chars(entry: &[char]) -> (r: Option<PartKind>)
    ensures
        r == parse_entry(entry@),
{
    let t = trimmed(entry);
    match split_once_chars(&t, ':') {
        Some((f, l)) => {
            let f = trimmed(&f);
            let l = trimmed(&l);
            match (parse_usize(&f), parse_usize(&l)) {
                (Some(fi), Some(li)) => {
                    if fi < FAMILY_COUNT && li < LEVEL_COUNT {
                        Some(PartKind::new(PartFamily::from_slot(fi), PartLevel::from_step(li)))
                    } else {
                        None
                    }
                },
                _ => None,
            }
        },
        None => None,
    }
}

/// Reads a written list of organs; entries that do not name an organ are
/// skipped.
pub fn parse_parts(text: &[char]) -> (kinds: Vec<PartKind>)
    ensures
        kinds@ == parse_parts_spec(text@),
{
    let entries = split_chars(text, ',');
    let mut kinds: Vec<PartKind> = Vec::new();
    let mut i: usize = 0;
    while i < entries.len()
        invariant
            i <= entries@.len(),
            views(entries@) == split(text@, ','),
            kinds@ == parse_entries(views(entries@).take(i as int)),
        decreases entries@.len() - i,
    {
        let ghost before = views(entries@).take(i as int);
        let ghost after = views(entries@).take(i + 1);
        assert(after.drop_last() =~= before);
        assert(after.last() == entries@[i as int]@);
        match parse_entry_chars(&entries[i]) {
            Some(k) => {
                kinds.push(k);
            },
            None => {},
        }
        assert(kinds@ =~= parse_entries(after));
        i += 1;
    }
    assert(views(entries@).take(entries@.len() as int) =~= views(entries@));
    kinds
}

/// One remembered body as the memory file holds it: the text of its lifetime
/// and its organs.
pub struct MemoryLine {
    /// `<seconds>` as written, trimmed.
    pub lifetime: String,
    pub parts: Vec<PartKind>,
}

pub open spec fn lifetime_word() -> Seq<char> {
    seq!['l', 'i', 'f', 'e', 't', 'i', 'm', 'e']
}

/// A line of the memory file: `lifetime = <seconds> | <organs>`, comments
/// allowed after `#`. Lines that are not of that shape, or that name no
/// readable organ, are ignored.
pub open spec fn memory_line_spec(line: Seq<char>) -> Option<(Seq<char>, Seq<PartKind>)> {
    let l = trim(before_comment(line));
    if !starts_with(l, lifetime_word()) {
        None
    } else {
        let rest = trim(l.skip(8));
        if !(rest.len() > 0 && rest[0] == '=') {
            None
        } else {
            match split_once(rest.skip(1), '|') {
                Some((lifetime, organs)) => {
                    let kinds = parse_parts_spec(organs);
                    if kinds.len() == 0 {
                        None
                    } else {
                        Some((trim(lifetime), kinds))
                    }
                },
                None => None,
            }
        }
    }
}

/// Reads one line of the memory file.
pub fn parse_memory_line(line: &[char]) -> (r: Option<MemoryLine>)
    ensures
        match r {
            Some(m) => memory_line_spec(line@) == Some((m.lifetime@, m.parts@)),
            None => memory_line_spec(line@) is None,
        },
{
    let bare = strip_comment(line);
    let l = trimmed(&bare);
    let word = vec!['l', 'i', 'f', 'e', 't', 'i', 'm', 'e'];
    assert(word@ =~= lifetime_word());
    if !has_prefix(&l, &word) {
        return None;
    }
    let after_word = slice_chars(&l, 8, l.len());
    assert(after_word@ =~= l@.skip(8));
    let rest = trimmed(&after_word);
    if !(rest.len() > 0 && rest[0] == '=') {
        return None;
    }
    let after_eq = slice_chars(&rest, 1, rest.len());
    assert(after_eq@ =~= rest@.skip(1));
    match split_once_chars(&after_eq, '|') {
        Some((lifetime, organs)) => {
            let kinds = parse_parts(&organs);
            if kinds.len() == 0 {
                return None;
            }
            let lifetime = trimmed(&lifetime);
            Some(MemoryLine { lifetime: string_of(&lifetime), parts: kinds })
        },
        None => None,
    }
}

/// The readable lines of a memory file, in the order they were written.
pub open spec fn memory_spec(ls: Seq<Seq<char>>) -> Seq<(Seq<char>, Seq<PartKind>)>
    decreases ls.len(),
{
    if ls.len() == 0 {
        seq![]
    } else {
        memory_spec(ls.drop_last()) + match memory_line_spec(ls.last()) {
            Some(m) => seq![m],
            None => seq![],
        }
    }
}

/// The view of a parsed memory line.
pub open spec fn line_view(m: MemoryLine) -> (Seq<char>, Seq<PartKind>) {
    (m.lifetime@, m.parts@)
}

/// Reads every readable line of a memory file; a broken or foreign file gives
/// nothing rather than an error, so the world simply starts afresh.
pub fn parse_memory(text: &str) -> (r: Vec<MemoryLine>)
    ensures
        r@.map_values(|m: MemoryLine| line_view(m)) == memory_spec(lines(text@)),
{
    let chars = chars_of(text);
    let ls = lines_of(&chars);
    let mut r: Vec<MemoryLine> = Vec::new();
    let mut i: usize = 0;
    while i < ls.len()
        invariant
            i <= ls@.len(),
            views(ls@) == lines(text@),
            r@.map_values(|m: MemoryLine| line_view(m)) == memory_spec(views(ls@).take(i as int)),
        decreases ls@.len() - i,
    {
        let ghost before = views(ls@).take(i as int);
        let ghost after = views(ls@).take(i + 1);
        assert(after.drop_last() =~= before);
        assert(after.last() == ls@[i as int]@);
        let ghost old_r = r@;
        match parse_memory_line(&ls[i]) {
            Some(m) => {
                r.push(m);
                assert(r@.map_values(|m: MemoryLine| line_view(m)) =~= old_r.map_values(
                    |m: MemoryLine| line_view(m),
                ).push(memory_line_spec(after.last())->0));
            },
            None => {},
        }
        assert(r@.map_values(|m: MemoryLine| line_view(m)) =~= memory_spec(after));
        i += 1;
    }
    assert(views(ls@).take(ls@.len() as int) =~= views(ls@));
    r
}

// ─────────────────────────────────────────────
// Laws of the memory file
// ─────────────────────────────────────────────

proof fn lemma_parse_entries_concat(x: Seq<Seq<char>>, y: Seq<Seq<char>>)
    ensures
        parse_entries(x + y) == parse_entries(x) + parse_entries(y),
    decreases y.len(),
{
    if y.len() == 0 {
        assert(x + y =~= x);
    } else {
        assert((x + y).drop_last() =~= x + y.drop_last());
        lemma_parse_entries_concat(x, y.drop_last());
    }
}

proof fn lemma_trim_digits(d: Seq<char>)
    requires
        d.len() > 0,
        all_digits(d),
    ensures
        trim(d) == d,
{
    assert(!is_space(d[0]));
    assert(!is_space(d.last()));
}

proof fn lemma_entry_reads_back(kind: PartKind)
    ensures
        find(entry_text(kind), ',') == entry_text(kind).len(),
        parse_entry(entry_text(kind)) == Some(kind),
{
    let f = decimal(kind.family.slot_spec() as nat);
    let l = decimal(kind.level.step_spec() as nat);
    lemma_decimal_reads_back(kind.family.slot_spec() as nat);
    lemma_decimal_reads_back(kind.level.step_spec() as nat);
    lemma_family_slots(kind.family);
    let e = entry_text(kind);
    lemma_find_unique(seq![':'], ',', 1);
    lemma_find_concat(f, seq![':'] + l, ',');
    lemma_find_concat(seq![':'], l, ',');
    assert(find(f, ',') == f.len());
    assert(find(l, ',') == l.len());
    assert(find(seq![':'] + l, ',') == 1 + l.len());
    assert(e =~= f + (seq![':'] + l));
    lemma_find_concat(f, seq![':'] + l, ':');
    assert(find(seq![':'] + l, ':') == 0);
    assert(e[0] == f[0]);
    assert(e.last() == l.last());
    assert(!is_space(e[0]));
    assert(!is_space(e.last()));
    assert(trim(e) == e);
    assert(e.take(f.len() as int) =~= f);
    assert(e.skip(f.len() as int + 1) =~= l);
    lemma_trim_digits(f);
    lemma_trim_digits(l);
    assert(unsigned_digits(f) == f);
    assert(unsigned_digits(l) == l);
}

/// Whatever body the server writes down, it reads back the same organs in
/// the same order: the memory survives a restart.
pub proof fn lemma_parts_text_round_trip(kinds: Seq<PartKind>)
    ensures
        parse_parts_spec(parts_text_spec(kinds)) == kinds,
    decreases kinds.len(),
{
    assert(parse_entries(Seq::<Seq<char>>::empty()) == Seq::<PartKind>::empty());
    if kinds.len() == 0 {
        lemma_find_unique(Seq::<char>::empty(), ',', 0);
        assert(split(parts_text_spec(kinds), ',') =~= seq![Seq::<char>::empty()]);
        assert(parse_entry(Seq::<char>::empty()) is None);
        let es = seq![Seq::<char>::empty()];
        assert(es.drop_last() =~= Seq::<Seq<char>>::empty());
        assert(es.last() == Seq::<char>::empty());
        assert(parse_entries(es) =~= Seq::<PartKind>::empty());
    } else if kinds.len() == 1 {
        lemma_entry_reads_back(kinds[0]);
        let e = entry_text(kinds[0]);
        assert(split(e, ',') == seq![e]);
        assert(seq![e].drop_last() =~= Seq::<Seq<char>>::empty());
        assert(seq![e].last() == e);
        assert(parse_entries(seq![e]) =~= seq![kinds[0]]);
        assert(kinds =~= seq![kinds[0]]);
    } else {
        let front = kinds.drop_last();
        lemma_parts_text_round_trip(front);
        lemma_entry_reads_back(kinds.last());
        let e = entry_text(kinds.last());
        lemma_split_concat(parts_text_spec(front), e, ',');
        assert(split(e, ',') == seq![e]);
        lemma_parse_entries_concat(split(parts_text_spec(front), ','), seq![e]);
        assert(seq![e].drop_last() =~= Seq::<Seq<char>>::empty());
        assert(seq![e].last() == e);
        assert(parse_entries(seq![e]) =~= seq![kinds.last()]);
        assert(parse_parts_spec(parts_text_spec(kinds)) == front + seq![kinds.last()]);
        assert(kinds =~= front.push(kinds.last()));
    }
}

/// A line of the memory file as the server writes it:
/// `lifetime = <seconds> | <organs>`.
pub open spec fn memory_line_text_spec(lifetime: Seq<char>, kinds: Seq<PartKind>) -> Seq<char> {
    lifetime_word() + seq![' ', '=', ' '] + lifetime + seq![' ', '|', ' '] + parts_text_spec(kinds)
}

/// Writes one remembered body, its lifetime already written in seconds.
pub fn memory_line_text(lifetime: &str, kinds: &[PartKind]) -> (s: String)
    ensures
        s@ == memory_line_text_spec(lifetime@, kinds@),
{
    let mut v: Vec<char> = vec!['l', 'i', 'f', 'e', 't', 'i', 'm', 'e', ' ', '=', ' '];
    let l = chars_of(lifetime);
    append_chars(&mut v, &l);
    v.push(' ');
    v.push('|');
    v.push(' ');
    let p = parts_text(kinds);
    let pv = chars_of(p.as_str());
    append_chars(&mut v, &pv);
    assert(v@ =~= memory_line_text_spec(lifetime@, kinds@));
    string_of(&v)
}

/// What the organs are written with: digits, `:` and `,`.
pub open spec fn organ_char(c: char) -> bool {
    is_digit(c) || c == ':' || c == ','
}

proof fn lemma_parts_text_chars(kinds: Seq<PartKind>)
    ensures
        forall|i: int| 0 <= i < parts_text_spec(kinds).len() ==> organ_char(#[trigger] parts_text_spec(kinds)[i]),
        kinds.len() > 0 ==> parts_text_spec(kinds).len() > 0 && is_digit(parts_text_spec(kinds).last()),
    decreases kinds.len(),
{
    if kinds.len() > 0 {
        let e = entry_text(kinds.last());
        let f = decimal(kinds.last().family.slot_spec() as nat);
        let l = decimal(kinds.last().level.step_spec() as nat);
        lemma_decimal_reads_back(kinds.last().family.slot_spec() as nat);
        lemma_decimal_reads_back(kinds.last().level.step_spec() as nat);
        assert forall|i: int| 0 <= i < e.len() implies organ_char(#[trigger] e[i]) by {
            if i < f.len() {
                assert(e[i] == f[i]);
            } else if i > f.len() {
                assert(e[i] == l[i - f.len() - 1]);
            }
        }
        assert(e.last() == l.last());
        assert(is_digit(l[l.len() - 1]));
        if kinds.len() == 1 {
            assert(e == entry_text(kinds[0]));
        } else {
            let front = kinds.drop_last();
            lemma_parts_text_chars(front);
            let t = parts_text_spec(kinds);
            let ft = parts_text_spec(front);
            assert(t == ft + seq![','] + e);
            assert forall|i: int| 0 <= i < t.len() implies organ_char(#[trigger] t[i]) by {
                if i < ft.len() {
                    assert(t[i] == ft[i]);
                } else if i > ft.len() {
                    assert(t[i] == e[i - ft.len() - 1]);
                }
            }
            assert(t.last() == e.last());
        }
    }
}

proof fn lemma_trim_after_space(e: Seq<char>)
    ensures
        trim(seq![' '] + e) == trim(e),
{
    assert((seq![' '] + e).drop_first() =~= e);
}

/// A space before the organs changes nothing of what is read.
proof fn lemma_space_before_parts(kinds: Seq<PartKind>)
    requires
        kinds.len() > 0,
    ensures
        parse_parts_spec(seq![' '] + parts_text_spec(kinds)) == parse_parts_spec(parts_text_spec(kinds)),
    decreases kinds.len(),
{
    lemma_parts_text_chars(kinds);
    if kinds.len() == 1 {
        let e = entry_text(kinds[0]);
        lemma_entry_reads_back(kinds[0]);
        let se = seq![' '] + e;
        lemma_find_concat(seq![' '], e, ',');
        lemma_find_unique(seq![' '], ',', 1);
        assert(find(se, ',') == se.len());
        assert(split(se, ',') == seq![se]);
        assert(split(e, ',') == seq![e]);
        lemma_trim_after_space(e);
        assert(parse_entry(se) == parse_entry(e));
        assert(seq![se].drop_last() =~= Seq::<Seq<char>>::empty());
        assert(seq![e].drop_last() =~= Seq::<Seq<char>>::empty());
        assert(parse_entries(Seq::<Seq<char>>::empty()) == Seq::<PartKind>::empty());
    } else {
        let front = kinds.drop_last();
        lemma_space_before_parts(front);
        let e = entry_text(kinds.last());
        lemma_entry_reads_back(kinds.last());
        let ft = parts_text_spec(front);
        assert(seq![' '] + parts_text_spec(kinds) =~= (seq![' '] + ft) + seq![','] + e);
        lemma_split_concat(seq![' '] + ft, e, ',');
        lemma_split_concat(ft, e, ',');
        lemma_parse_entries_concat(split(seq![' '] + ft, ','), split(e, ','));
        lemma_parse_entries_concat(split(ft, ','), split(e, ','));
    }
}

/// A remembered body written as a line of the memory file reads back as
/// the same lifetime text and the same organs, in the same order, as long
/// as the lifetime is written without a `#` or `|` and without surrounding
/// white space.
pub proof fn lemma_memory_line_round_trip(lifetime: Seq<char>, kinds: Seq<PartKind>)
    requires
        kinds.len() > 0,
        lifetime.len() > 0,
        !is_space(lifetime[0]),
        !is_space(lifetime.last()),
        forall|i: int| 0 <= i < lifetime.len() ==> #[trigger] lifetime[i] != '#' && lifetime[i] != '|',
    ensures
        memory_line_spec(memory_line_text_spec(lifetime, kinds)) == Some((lifetime, kinds)),
{
    let w = lifetime_word();
    let l = lifetime;
    let p = parts_text_spec(kinds);
    let line = memory_line_text_spec(l, kinds);
    let n = l.len() as int;
    lemma_parts_text_chars(kinds);
    assert(line.len() == 11 + n + 3 + p.len());
    assert forall|j: int| 0 <= j < line.len() implies line[j] != '#' by {
        if 11 <= j < 11 + n {
            assert(line[j] == l[j - 11]);
        } else if j >= 14 + n {
            assert(line[j] == p[j - 14 - n]);
            assert(organ_char(p[j - 14 - n]));
        }
    }
    lemma_find_unique(line, '#', line.len() as int);
    assert(before_comment(line) =~= line);
    assert(line.last() == p.last());
    lemma_trim_plain(line);
    assert(line.take(8) =~= w);
    let t = line.skip(8);
    assert(t.drop_first() =~= line.skip(9));
    assert(trim_start(t) == trim_start(line.skip(9)));
    let rest = line.skip(9);
    assert(rest.last() == p.last());
    lemma_trim_plain(rest);
    assert(trim(t) == rest);
    let u = rest.skip(1);
    assert(u =~= seq![' '] + l + seq![' ', '|', ' '] + p);
    assert forall|j: int| 0 <= j < n + 2 implies u[j] != '|' by {
        if 1 <= j < n + 1 {
            assert(u[j] == l[j - 1]);
        }
    }
    lemma_find_unique(u, '|', n + 2);
    let before = u.take(n + 2);
    let after = u.skip(n + 3);
    assert(before =~= seq![' '] + (l + seq![' ']));
    lemma_trim_after_space(l + seq![' ']);
    assert((l + seq![' ']).drop_last() =~= l);
    assert((l + seq![' '])[0] == l[0]);
    assert(trim_start(l + seq![' ']) == l + seq![' ']);
    assert(trim_end(l + seq![' ']) == trim_end(l));
    lemma_trim_plain(l);
    assert(trim(before) == l);
    assert(after =~= seq![' '] + p);
    lemma_space_before_parts(kinds);
    lemma_parts_text_round_trip(kinds);
}

// ─────────────────────────────────────────────
// The whole memory file
// ─────────────────────────────────────────────

/// The comment the memory file starts with, line by line.
pub open spec fn memory_header() -> Seq<Seq<char>> {
    seq![
        "# Наследственная память сервера."@,
        "# Тела, прожившие дольше прочих: из них собираются новые дикие боты."@,
        "# Формат: lifetime = <секунды> | <орган>:<уровень>, ..."@,
        "# Файл можно удалить — мир начнётся с чистого листа."@,
    ]
}

/// The memory file: the comment, then one line per remembered body, best first.
pub open spec fn memory_file_spec(entries: Seq<(Seq<char>, Seq<PartKind>)>) -> Seq<char> {
    joined(
        memory_header() + entries.map_values(
            |e: (Seq<char>, Seq<PartKind>)| memory_line_text_spec(e.0, e.1),
        ),
    )
}

pub open spec fn entries_view(v: Seq<(String, Vec<PartKind>)>) -> Seq<(Seq<char>, Seq<PartKind>)> {
    v.map_values(|e: (String, Vec<PartKind>)| (e.0@, e.1@))
}

/// Writes the memory file from the remembered bodies, best first, each with
/// its lifetime already written in seconds.
pub fn memory_file_text(entries: &Vec<(String, Vec<PartKind>)>) -> (s: String)
    ensures
        s@ == memory_file_spec(entries_view(entries@)),
{
    let ghost all = memory_header() + entries_view(entries@).map_values(
        |e: (Seq<char>, Seq<PartKind>)| memory_line_text_spec(e.0, e.1),
    );
    let mut v: Vec<char> = Vec::new();
    assert(all.take(0) =~= Seq::<Seq<char>>::empty());
    assert(all.take(0).push(all[0]) =~= all.take(1));
    assert(all.take(1).push(all[1]) =~= all.take(2));
    assert(all.take(2).push(all[2]) =~= all.take(3));
    assert(all.take(3).push(all[3]) =~= all.take(4));
    push_line(&mut v, "# Наследственная память сервера.", Ghost(all.take(0)));
    push_line(&mut v, "# Тела, прожившие дольше прочих: из них собираются новые дикие боты.", Ghost(all.take(1)));
    push_line(&mut v, "# Формат: lifetime = <секунды> | <орган>:<уровень>, ...", Ghost(all.take(2)));
    push_line(&mut v, "# Файл можно удалить — мир начнётся с чистого листа.", Ghost(all.take(3)));
    let mut i: usize = 0;
    while i < entries.len()
        invariant
            i <= entries@.len(),
            all.len() == 4 + entries@.len(),
            all == memory_header() + entries_view(entries@).map_values(
                |e: (Seq<char>, Seq<PartKind>)| memory_line_text_spec(e.0, e.1),
            ),
            v@ == joined(all.take(4 + i)),
        decreases entries@.len() - i,
    {
        let line = memory_line_text(entries[i].0.as_str(), entries[i].1.as_slice());
        assert(line@ == all[4 + i]);
        push_line(&mut v, line.as_str(), Ghost(all.take(4 + i)));
        assert(all.take(4 + i).push(all[4 + i]) =~= all.take(4 + i + 1));
        i += 1;
    }
    assert(all.take(4 + entries@.len() as int) =~= all);
    string_of(&v)
}

proof fn lemma_memory_spec_concat(x: Seq<Seq<char>>, y: Seq<Seq<char>>)
    ensures
        memory_spec(x + y) == memory_spec(x) + memory_spec(y),
    decreases y.len(),
{
    if y.len() == 0 {
        assert(x + y =~= x);
        assert(memory_spec(x) + memory_spec(y) =~= memory_spec(x));
    } else {
        assert((x + y).drop_last() =~= x + y.drop_last());
        lemma_memory_spec_concat(x, y.drop_last());
        assert(memory_spec(x + y) =~= memory_spec(x) + memory_spec(y));
    }
}

proof fn lemma_comments_remember_nothing(ls: Seq<Seq<char>>)
    requires
        forall|i: int| 0 <= i < ls.len() ==> #[trigger] ls[i].len() > 0 && ls[i][0] == '#',
    ensures
        memory_spec(ls) == Seq::<(Seq<char>, Seq<PartKind>)>::empty(),
    decreases ls.len(),
{
    if ls.len() > 0 {
        let front = ls.drop_last();
        assert forall|i: int| 0 <= i < front.len() implies #[trigger] front[i].len() > 0 && front[i][0] == '#' by {
            assert(front[i] == ls[i]);
        }
        lemma_comments_remember_nothing(front);
        let l = ls.last();
        assert(ls[ls.len() - 1].len() > 0);
        lemma_find_unique(l, '#', 0);
        assert(before_comment(l) =~= Seq::<char>::empty());
        assert(trim(Seq::<char>::empty()) =~= Seq::<char>::empty());
        assert(memory_line_spec(l) is None);
    }
}

/// A remembered body that can be written down and read back whole: at least
/// one organ, and a lifetime written without `#`, `|`, line breaks or
/// surrounding white space.
pub open spec fn writable(e: (Seq<char>, Seq<PartKind>)) -> bool {
    &&& e.1.len() > 0
    &&& e.0.len() > 0
    &&& !is_space(e.0[0])
    &&& !is_space(e.0.last())
    &&& forall|i: int| 0 <= i < e.0.len() ==> #[trigger] e.0[i] != '#' && e.0[i] != '|' && e.0[i] != '\n'
}

proof fn lemma_written_lines_read_back(entries: Seq<(Seq<char>, Seq<PartKind>)>)
    requires
        forall|i: int| 0 <= i < entries.len() ==> writable(#[trigger] entries[i]),
    ensures
        memory_spec(
            entries.map_values(|e: (Seq<char>, Seq<PartKind>)| memory_line_text_spec(e.0, e.1)),
        ) == entries,
    decreases entries.len(),
{
    let ls = entries.map_values(|e: (Seq<char>, Seq<PartKind>)| memory_line_text_spec(e.0, e.1));
    if entries.len() > 0 {
        let front = entries.drop_last();
        assert forall|i: int| 0 <= i < front.len() implies writable(#[trigger] front[i]) by {
            assert(front[i] == entries[i]);
        }
        lemma_written_lines_read_back(front);
        assert(ls.drop_last() =~= front.map_values(
            |e: (Seq<char>, Seq<PartKind>)| memory_line_text_spec(e.0, e.1),
        ));
        let last = entries.last();
        assert(writable(entries[entries.len() - 1]));
        lemma_memory_line_round_trip(last.0, last.1);
        assert(entries =~= front.push(last));
    } else {
        assert(ls =~= Seq::<Seq<char>>::empty());
    }
}

proof fn lemma_written_line_is_one_line(e: (Seq<char>, Seq<PartKind>))
    requires
        writable(e),
    ensures
        one_line(memory_line_text_spec(e.0, e.1)),
{
    let l = e.0;
    let p = parts_text_spec(e.1);
    let line = memory_line_text_spec(l, e.1);
    lemma_parts_text_chars(e.1);
    let n = l.len() as int;
    assert forall|j: int| 0 <= j < line.len() implies #[trigger] line[j] != '\n' by {
        if 11 <= j < 11 + n {
            assert(line[j] == l[j - 11]);
        } else if j >= 14 + n {
            assert(line[j] == p[j - 14 - n]);
            assert(organ_char(p[j - 14 - n]));
        }
    }
    assert(line.last() == p.last());
}

/// The memory survives a restart: the file written from the remembered
/// bodies reads back as exactly those bodies, in the same order.
pub proof fn lemma_memory_file_round_trip(entries: Seq<(Seq<char>, Seq<PartKind>)>)
    requires
        forall|i: int| 0 <= i < entries.len() ==> writable(#[trigger] entries[i]),
    ensures
        memory_spec(lines(memory_file_spec(entries))) == entries,
{
    reveal_strlit("# Наследственная память сервера.");
    reveal_strlit("# Тела, прожившие дольше прочих: из них собираются новые дикие боты.");
    reveal_strlit("# Формат: lifetime = <секунды> | <орган>:<уровень>, ...");
    reveal_strlit("# Файл можно удалить — мир начнётся с чистого листа.");
    let h = memory_header();
    let ml = entries.map_values(|e: (Seq<char>, Seq<PartKind>)| memory_line_text_spec(e.0, e.1));
    let all = h + ml;
    assert forall|i: int| 0 <= i < h.len() implies one_line(#[trigger] h[i]) && h[i].len() > 0 && h[i][0] == '#' by {
    }
    assert forall|i: int| 0 <= i < all.len() implies one_line(#[trigger] all[i]) by {
        if i >= h.len() {
            assert(all[i] == ml[i - h.len()]);
            assert(writable(entries[i - h.len()]));
            lemma_written_line_is_one_line(entries[i - h.len()]);
        } else {
            assert(all[i] == h[i]);
        }
    }
    lemma_lines_joined(all);
    lemma_memory_spec_concat(h, ml);
    lemma_comments_remember_nothing(h);
    lemma_written_lines_read_back(entries);
    assert(memory_spec(h) + entries =~= entries);
}

} // verus!
