//! Bodies, kinship and the mutation economy.
//!
//! A genome is the list of organs a body has grown, the points it can spend on
//! more, and the lineage it belongs to. Kinship is judged by how many organs
//! separate two bodies, counted per family: two cells built on the same plan
//! do not become enemies over which level of an organ they grew.

use vstd::prelude::*;
use crate::parts::{
    family_at, kind_at, lemma_family_slots, lemma_slot_of_family_at, PartFamily, PartKind,
    PartLevel, FAMILY_COUNT,
};

verus! {

/// Hard ceiling on organs in one body. A server may lower it, never raise it.
pub const MAX_PARTS: usize = 100;

/// Hard cap on organs of one family.
pub const MAX_PARTS_PER_KIND: usize = 6;

/// Two strangers tolerate each other while their bodies differ by at most this
/// many organs. Past that they are different enough to be prey.
pub const AGGRESSION_THRESHOLD: u32 = 7;

/// Kin tolerate far more — but not everything. A branch that has drifted this
/// far from another is no longer recognised as family, and the line splits.
pub const KIN_SPLIT_THRESHOLD: u32 = 15;

/// One organ of a body.
///
/// Where it sits is derived, never random: `slot` is the attachment slot it was
/// given when it grew, and the layout of the body is a function of the family
/// and that slot, so the same genome always produces the same body.
#[derive(Debug, Clone, Copy, PartialEq, Eq, Structural)]
pub struct BodyPart {
    pub kind: PartKind,
    /// The attachment slot: how many organs the body had when this one grew.
    pub slot: usize,
    /// Development counter shown with the organ: 1 when grown, the level's
    /// step plus one after an upgrade.
    pub level: u8,
}

/// A body plan and what it inherits.
#[derive(Debug)]
pub struct Genome {
    pub parts: Vec<BodyPart>,
    pub mutation_points: u16,
    /// Family line: offspring inherit it, and kin are judged more leniently.
    pub lineage: u64,
    pub generation: u16,
}

/// How many organs of `family` a list of parts holds.
pub open spec fn count_family_in(parts: Seq<BodyPart>, family: PartFamily) -> nat
    decreases parts.len(),
{
    if parts.len() == 0 {
        0
    } else {
        count_family_in(parts.drop_last(), family) + (if parts.last().kind.family == family {
            1nat
        } else {
            0nat
        })
    }
}

/// How many organs of exactly this kind a list of parts holds.
pub open spec fn count_kind_in(parts: Seq<BodyPart>, kind: PartKind) -> nat
    decreases parts.len(),
{
    if parts.len() == 0 {
        0
    } else {
        count_kind_in(parts.drop_last(), kind) + (if parts.last().kind == kind {
            1nat
        } else {
            0nat
        })
    }
}

/// The part a body grows next for this kind: the next free slot, level 1.
pub open spec fn grown_part(parts: Seq<BodyPart>, kind: PartKind) -> BodyPart {
    BodyPart { kind, slot: parts.len() as usize, level: 1 }
}

/// The three organs every body starts with.
pub open spec fn starter_parts() -> Seq<BodyPart> {
    seq![
        BodyPart { kind: PartKind { family: PartFamily::Membrane, level: PartLevel::Plain }, slot: 0, level: 1 },
        BodyPart { kind: PartKind { family: PartFamily::Flagellum, level: PartLevel::Plain }, slot: 1, level: 1 },
        BodyPart { kind: PartKind { family: PartFamily::Mouth, level: PartLevel::Plain }, slot: 2, level: 1 },
    ]
}

impl Genome {
    /// A fresh body of lineage 0.
    pub fn starter() -> (g: Genome)
        ensures
            g.parts@ == starter_parts(),
            g.mutation_points == 0,
            g.lineage == 0,
            g.generation == 0,
    {
        Self::starter_of(0)
    }

    /// A fresh body of this lineage: a membrane, a flagellum and a mouth.
    pub fn starter_of(lineage: u64) -> (g: Genome)
        ensures
            g.parts@ == starter_parts(),
            g.mutation_points == 0,
            g.lineage == lineage,
            g.generation == 0,
    {
        let mut genome = Genome { parts: Vec::new(), mutation_points: 0, lineage, generation: 0 };
        genome.push_part(PartKind::basic(PartFamily::Membrane));
        genome.push_part(PartKind::basic(PartFamily::Flagellum));
        genome.push_part(PartKind::basic(PartFamily::Mouth));
        assert(genome.parts@ =~= starter_parts());
        genome
    }

    /// An exact copy.
    pub fn copy(&self) -> (g: Genome)
        ensures
            g.parts@ == self.parts@,
            g.mutation_points == self.mutation_points,
            g.lineage == self.lineage,
            g.generation == self.generation,
    {
        let mut parts: Vec<BodyPart> = Vec::new();
        let mut i: usize = 0;
        while i < self.parts.len()
            invariant
                i <= self.parts@.len(),
                parts@ == self.parts@.take(i as int),
            decreases self.parts@.len() - i,
        {
            parts.push(self.parts[i]);
            assert(self.parts@.take(i + 1) =~= self.parts@.take(i as int).push(self.parts@[i as int]));
            i += 1;
        }
        assert(self.parts@.take(self.parts@.len() as int) =~= self.parts@);
        Genome {
            parts,
            mutation_points: self.mutation_points,
            lineage: self.lineage,
            generation: self.generation,
        }
    }

    /// Organs of exactly this kind.
    pub fn count(&self, kind: PartKind) -> (n: usize)
        ensures
            n == count_kind_in(self.parts@, kind),
    {
        let mut n: usize = 0;
        let mut i: usize = 0;
        while i < self.parts.len()
            invariant
                i <= self.parts@.len(),
                n == count_kind_in(self.parts@.take(i as int), kind),
                n <= i,
            decreases self.parts@.len() - i,
        {
            assert(self.parts@.take(i + 1).drop_last() =~= self.parts@.take(i as int));
            if self.parts[i].kind == kind {
                n += 1;
            }
            i += 1;
        }
        assert(self.parts@.take(self.parts@.len() as int) =~= self.parts@);
        n
    }

    /// Organs of this family, whatever level they are.
    pub fn count_family(&self, family: PartFamily) -> (n: usize)
        ensures
            n == count_family_in(self.parts@, family),
    {
        let mut n: usize = 0;
        let mut i: usize = 0;
        while i < self.parts.len()
            invariant
                i <= self.parts@.len(),
                n == count_family_in(self.parts@.take(i as int), family),
                n <= i,
            decreases self.parts@.len() - i,
        {
            assert(self.parts@.take(i + 1).drop_last() =~= self.parts@.take(i as int));
            if self.parts[i].kind.family == family {
                n += 1;
            }
            i += 1;
        }
        assert(self.parts@.take(self.parts@.len() as int) =~= self.parts@);
        n
    }

    /// Whether the body has an organ of exactly this kind.
    pub fn has_part(&self, kind: PartKind) -> (r: bool)
        ensures
            r == (count_kind_in(self.parts@, kind) > 0),
    {
        self.count(kind) > 0
    }

    /// Grows an organ in the next free slot.
    pub fn push_part(&mut self, kind: PartKind)
        ensures
            final(self).parts@ == old(self).parts@.push(grown_part(old(self).parts@, kind)),
            final(self).mutation_points == old(self).mutation_points,
            final(self).lineage == old(self).lineage,
            final(self).generation == old(self).generation,
    {
        let slot = self.parts.len();
        self.parts.push(BodyPart { kind, slot, level: 1 });
    }
}

impl Default for Genome {
    fn default() -> (g: Genome)
        ensures
            g.parts@ == starter_parts(),
            g.mutation_points == 0,
            g.lineage == 0,
            g.generation == 0,
    {
        Self::starter()
    }
}

// ─────────────────────────────────────────────
// Kinship
// ─────────────────────────────────────────────

/// How many organs of each family a body carries: one cell per family, in
/// catalogue order, saturating at 255.
#[derive(Debug, Clone, Copy)]
pub struct FamilyCounts(pub [u8; 22]);

/// The saturated count that a histogram holds for `family`.
pub open spec fn saturated(n: nat) -> u8 {
    if n <= 255 {
        n as u8
    } else {
        255u8
    }
}

/// The histogram of a list of parts.
pub open spec fn histogram(parts: Seq<BodyPart>) -> Seq<u8> {
    Seq::new(22, |s: int| saturated(count_family_in(parts, family_at(s))))
}

pub open spec fn abs_diff(x: u8, y: u8) -> nat {
    if x >= y {
        (x - y) as nat
    } else {
        (y - x) as nat
    }
}

/// Sum of cell differences over the first `n` cells.
pub open spec fn distance_upto(a: Seq<u8>, b: Seq<u8>, n: int) -> nat
    decreases n,
{
    if n <= 0 {
        0
    } else {
        distance_upto(a, b, n - 1) + abs_diff(a[n - 1], b[n - 1])
    }
}

/// How many organs separate two histograms.
pub open spec fn counts_distance(a: Seq<u8>, b: Seq<u8>) -> nat {
    distance_upto(a, b, 22)
}

/// Whether two bodies fight on contact, judged by their histograms and lineages.
pub open spec fn hostile_spec(
    a: Seq<u8>,
    a_lineage: u64,
    b: Seq<u8>,
    b_lineage: u64,
    strangers: u32,
    kin: u32,
) -> bool {
    let d = counts_distance(a, b);
    if a_lineage == b_lineage {
        d > kin
    } else {
        d > strangers
    }
}

proof fn lemma_count_family_step(parts: Seq<BodyPart>, i: int, family: PartFamily)
    requires
        0 <= i < parts.len(),
    ensures
        count_family_in(parts.take(i + 1), family) == count_family_in(parts.take(i), family) + (
        if parts[i].kind.family == family {
            1nat
        } else {
            0nat
        }),
{
    assert(parts.take(i + 1).drop_last() =~= parts.take(i));
}

impl FamilyCounts {
    /// The histogram with every cell zero.
    pub fn empty() -> (c: FamilyCounts)
        ensures
            c.0@ == Seq::new(22, |s: int| 0u8),
    {
        let c = FamilyCounts([0u8; 22]);
        assert(c.0@ =~= Seq::new(22, |s: int| 0u8));
        c
    }

    /// Counts the families of a genome in one pass over its parts.
    pub fn of(genome: &Genome) -> (c: FamilyCounts)
        ensures
            c.0@ == histogram(genome.parts@),
    {
        let mut counts = [0u8; 22];
        let mut i: usize = 0;
        while i < genome.parts.len()
            invariant
                i <= genome.parts@.len(),
                counts@.len() == 22,
                forall|s: int|
                    0 <= s < 22 ==> #[trigger] counts@[s] == saturated(
                        count_family_in(genome.parts@.take(i as int), family_at(s)),
                    ),
            decreases genome.parts@.len() - i,
        {
            let family = genome.parts[i].kind.family;
            let slot = family.slot();
            proof {
                lemma_family_slots(family);
                assert forall|s: int| 0 <= s < 22 implies count_family_in(
                    genome.parts@.take(i + 1),
                    family_at(s),
                ) == count_family_in(genome.parts@.take(i as int), family_at(s)) + (if s
                    == slot {
                    1nat
                } else {
                    0nat
                }) by {
                    lemma_count_family_step(genome.parts@, i as int, family_at(s));
                    lemma_slot_of_family_at(s);
                }
            }
            let current = counts[slot];
            let bumped = if current < 255 {
                current + 1
            } else {
                255
            };
            counts[slot] = bumped;
            i += 1;
        }
        assert(genome.parts@.take(genome.parts@.len() as int) =~= genome.parts@);
        let c = FamilyCounts(counts);
        assert(c.0@ =~= histogram(genome.parts@));
        c
    }

    /// The count for one family.
    pub fn get(&self, family: PartFamily) -> (n: u8)
        requires
            self.0@.len() == 22,
        ensures
            n == self.0@[family.slot_spec()],
    {
        proof {
            lemma_family_slots(family);
        }
        self.0[family.slot()]
    }

    /// How many organs separate two bodies.
    pub fn distance(&self, other: &Self) -> (d: u32)
        ensures
            d == counts_distance(self.0@, other.0@),
    {
        let mut total: u32 = 0;
        let mut slot: usize = 0;
        while slot < FAMILY_COUNT
            invariant
                slot <= 22,
                self.0@.len() == 22,
                other.0@.len() == 22,
                total == distance_upto(self.0@, other.0@, slot as int),
                total <= 255 * slot,
            decreases 22 - slot,
        {
            let a = self.0[slot];
            let b = other.0[slot];
            let step = if a >= b {
                a - b
            } else {
                b - a
            };
            total = total + step as u32;
            slot += 1;
        }
        total
    }
}

/// How many organs separate two genomes.
///
/// Counted by family, not by exact part: a cheap flagellum and a perfect one
/// are still both flagella.
pub fn genetic_distance(a: &Genome, b: &Genome) -> (d: u32)
    ensures
        d == counts_distance(histogram(a.parts@), histogram(b.parts@)),
{
    FamilyCounts::of(a).distance(&FamilyCounts::of(b))
}

/// Whether these two will fight on contact, at the default thresholds.
pub fn hostile(a: &Genome, b: &Genome) -> (r: bool)
    ensures
        r == hostile_spec(
            histogram(a.parts@),
            a.lineage,
            histogram(b.parts@),
            b.lineage,
            AGGRESSION_THRESHOLD,
            KIN_SPLIT_THRESHOLD,
        ),
{
    hostile_with(a, b, AGGRESSION_THRESHOLD, KIN_SPLIT_THRESHOLD)
}

/// The same rule with a server's own thresholds.
///
/// Kin are given a much longer leash than strangers, but a lineage is not a
/// permanent truce: past `kin` organs apart the line splits into enemies.
pub fn hostile_with(a: &Genome, b: &Genome, strangers: u32, kin: u32) -> (r: bool)
    ensures
        r == hostile_spec(
            histogram(a.parts@),
            a.lineage,
            histogram(b.parts@),
            b.lineage,
            strangers,
            kin,
        ),
{
    hostile_counts(&FamilyCounts::of(a), a.lineage, &FamilyCounts::of(b), b.lineage, strangers, kin)
}

/// The same decision from histograms already counted — for loops over pairs.
pub fn hostile_counts(
    a: &FamilyCounts,
    a_lineage: u64,
    b: &FamilyCounts,
    b_lineage: u64,
    strangers: u32,
    kin: u32,
) -> (r: bool)
    ensures
        r == hostile_spec(a.0@, a_lineage, b.0@, b_lineage, strangers, kin),
{
    let distance = a.distance(b);
    if a_lineage == b_lineage {
        distance > kin
    } else {
        distance > strangers
    }
}

// ─────────────────────────────────────────────
// Laws of kinship
// ─────────────────────────────────────────────

proof fn lemma_distance_upto_symmetric(a: Seq<u8>, b: Seq<u8>, n: int)
    ensures
        distance_upto(a, b, n) == distance_upto(b, a, n),
    decreases n,
{
    if n > 0 {
        lemma_distance_upto_symmetric(a, b, n - 1);
    }
}

proof fn lemma_distance_upto_self(a: Seq<u8>, n: int)
    ensures
        distance_upto(a, a, n) == 0,
    decreases n,
{
    if n > 0 {
        lemma_distance_upto_self(a, n - 1);
    }
}

proof fn lemma_distance_upto_triangle(a: Seq<u8>, b: Seq<u8>, c: Seq<u8>, n: int)
    ensures
        distance_upto(a, c, n) <= distance_upto(a, b, n) + distance_upto(b, c, n),
    decreases n,
{
    if n > 0 {
        lemma_distance_upto_triangle(a, b, c, n - 1);
    }
}

proof fn lemma_distance_upto_zero(a: Seq<u8>, b: Seq<u8>, n: int)
    requires
        distance_upto(a, b, n) == 0,
    ensures
        forall|i: int| 0 <= i < n ==> a[i] == b[i],
    decreases n,
{
    if n > 0 {
        lemma_distance_upto_zero(a, b, n - 1);
    }
}

/// The distance between bodies is symmetric, zero from a body to itself,
/// zero only between identical histograms, and obeys the triangle inequality:
/// it is a true metric on body plans.
pub proof fn lemma_distance_is_a_metric(a: Seq<u8>, b: Seq<u8>, c: Seq<u8>)
    requires
        a.len() == 22,
        b.len() == 22,
        c.len() == 22,
    ensures
        counts_distance(a, b) == counts_distance(b, a),
        counts_distance(a, a) == 0,
        counts_distance(a, b) == 0 <==> a == b,
        counts_distance(a, c) <= counts_distance(a, b) + counts_distance(b, c),
{
    lemma_distance_upto_symmetric(a, b, 22);
    lemma_distance_upto_self(a, 22);
    lemma_distance_upto_triangle(a, b, c, 22);
    if counts_distance(a, b) == 0 {
        lemma_distance_upto_zero(a, b, 22);
        assert(a =~= b);
    }
}

/// Hostility is mutual: if one would attack, so would the other.
pub proof fn lemma_hostility_is_mutual(
    a: Seq<u8>,
    a_lineage: u64,
    b: Seq<u8>,
    b_lineage: u64,
    strangers: u32,
    kin: u32,
)
    ensures
        hostile_spec(a, a_lineage, b, b_lineage, strangers, kin) == hostile_spec(
            b,
            b_lineage,
            a,
            a_lineage,
            strangers,
            kin,
        ),
{
    lemma_distance_upto_symmetric(a, b, 22);
}

/// No body fights its own reflection.
pub proof fn lemma_never_hostile_to_itself(a: Seq<u8>, lineage: u64, strangers: u32, kin: u32)
    ensures
        !hostile_spec(a, lineage, a, lineage, strangers, kin),
{
    lemma_distance_upto_self(a, 22);
}

/// Kin are never judged harder than strangers: with the kin threshold at
/// least the stranger one, two relatives who fight would also fight as strangers.
pub proof fn lemma_kin_are_more_tolerant(a: Seq<u8>, b: Seq<u8>, lineage: u64, other: u64, strangers: u32, kin: u32)
    requires
        strangers <= kin,
        lineage != other,
        hostile_spec(a, lineage, b, lineage, strangers, kin),
    ensures
        hostile_spec(a, lineage, b, other, strangers, kin),
{
}

// ─────────────────────────────────────────────
// Inheritance
// ─────────────────────────────────────────────

/// One of the mutations, picked by a random roll. The membrane family, last in
/// the catalogue, is excluded: a mutation should change the body plan, not
/// just inflate it.
pub open spec fn random_part_spec(roll: u64) -> PartKind {
    let family_roll = (roll as usize) as int;
    let level_roll = ((roll >> 8u64) as usize) as int;
    PartKind {
        family: family_at(family_roll % (FAMILY_COUNT as int - 1)),
        level: crate::parts::level_at(level_roll % 4),
    }
}

pub fn random_part(roll: u64) -> (k: PartKind)
    ensures
        k == random_part_spec(roll),
        k.family != PartFamily::Membrane,
{
    let families = FAMILY_COUNT - 1;
    let family = PartFamily::from_slot((roll as usize) % families);
    let level = PartLevel::from_step(((roll >> 8) as usize) % 4);
    PartKind::new(family, level)
}

/// Builds an offspring genome from its parent.
///
/// The child inherits **every part the parent has** — that is the whole point
/// of a lineage — and, when it mutates and there is room, grows one extra part
/// of its own. Points are not inherited: they are earned, not bequeathed.
pub fn conceive(parent: &Genome, mutates: bool, roll: u64) -> (child: Genome)
    ensures
        child.lineage == parent.lineage,
        child.mutation_points == 0,
        child.generation == (if parent.generation < u16::MAX {
            parent.generation + 1
        } else {
            u16::MAX as int
        }),
        child.parts@ == (if mutates && parent.parts@.len() < MAX_PARTS {
            parent.parts@.push(grown_part(parent.parts@, random_part_spec(roll)))
        } else {
            parent.parts@
        }),
{
    let mut child = parent.copy();
    child.mutation_points = 0;
    child.generation = if child.generation < u16::MAX {
        child.generation + 1
    } else {
        u16::MAX
    };
    if mutates && child.parts.len() < MAX_PARTS {
        child.push_part(random_part(roll));
    }
    child
}

proof fn lemma_distance_one_cell(a: Seq<u8>, b: Seq<u8>, s0: int, n: int)
    requires
        0 <= n <= 22,
        a.len() == 22,
        b.len() == 22,
        0 <= s0 < 22,
        forall|s: int| 0 <= s < 22 && s != s0 ==> a[s] == b[s],
        a[s0] <= b[s0] <= a[s0] + 1,
    ensures
        distance_upto(a, b, n) <= 1,
        n <= s0 ==> distance_upto(a, b, n) == 0,
    decreases n,
{
    if n > 0 {
        lemma_distance_one_cell(a, b, s0, n - 1);
    }
}

proof fn lemma_count_family_push(parts: Seq<BodyPart>, part: BodyPart, family: PartFamily)
    ensures
        count_family_in(parts.push(part), family) == count_family_in(parts, family) + (
        if part.kind.family == family {
            1nat
        } else {
            0nat
        }),
{
    assert(parts.push(part).drop_last() =~= parts);
}

/// A child is kin of its parent and at most one organ away from it, so the two
/// never fight unless a server sets the kin threshold to zero.
pub proof fn lemma_child_is_kin(parent: &Genome, mutates: bool, roll: u64, child: &Genome, strangers: u32, kin: u32)
    requires
        child.lineage == parent.lineage,
        child.parts@ == (if mutates && parent.parts@.len() < MAX_PARTS {
            parent.parts@.push(grown_part(parent.parts@, random_part_spec(roll)))
        } else {
            parent.parts@
        }),
        kin >= 1,
    ensures
        counts_distance(histogram(parent.parts@), histogram(child.parts@)) <= 1,
        !hostile_spec(
            histogram(parent.parts@),
            parent.lineage,
            histogram(child.parts@),
            child.lineage,
            strangers,
            kin,
        ),
{
    if mutates && parent.parts@.len() < MAX_PARTS {
        let part = grown_part(parent.parts@, random_part_spec(roll));
        assert forall|s: int| 0 <= s < 22 implies count_family_in(parent.parts@.push(part), family_at(s))
            == count_family_in(parent.parts@, family_at(s)) + (if part.kind.family == family_at(s) {
            1nat
        } else {
            0nat
        }) by {
            lemma_count_family_push(parent.parts@, part, family_at(s));
        }
        lemma_histogram_push_cells(parent.parts@, part);
    } else {
        lemma_distance_upto_self(histogram(parent.parts@), 22);
    }
}

proof fn lemma_histogram_push_cells(parts: Seq<BodyPart>, part: BodyPart)
    ensures
        counts_distance(histogram(parts), histogram(parts.push(part))) <= 1,
{
    let a = histogram(parts);
    let b = histogram(parts.push(part));
    lemma_family_slots(part.kind.family);
    let s0 = part.kind.family.slot_spec();
    assert forall|s: int| 0 <= s < 22 && s != s0 implies a[s] == b[s] by {
        lemma_slot_of_family_at(s);
        lemma_count_family_push(parts, part, family_at(s));
    }
    lemma_count_family_push(parts, part, family_at(s0));
    lemma_slot_of_family_at(s0);
    lemma_distance_one_cell(a, b, s0, 22);
}


// ─────────────────────────────────────────────
// The mutation economy
// ─────────────────────────────────────────────

/// Why a body cannot grow this organ at this price, or `None` if it can.
pub open spec fn mutation_refusal(parts: Seq<BodyPart>, points: u16, kind: PartKind, price: u16) -> Option<Seq<char>> {
    if parts.len() >= MAX_PARTS {
        Some("тело заполнено"@)
    } else if count_family_in(parts, kind.family) >= MAX_PARTS_PER_KIND {
        Some("предел для этого органа"@)
    } else if points < price {
        Some("не хватает очков"@)
    } else {
        None
    }
}

/// The first organ of `family` with the lowest level among the first `n`
/// parts, or -1 when there is none.
pub open spec fn weakest_upto(parts: Seq<BodyPart>, family: PartFamily, n: int) -> int
    decreases n,
{
    if n <= 0 {
        -1
    } else {
        let prev = weakest_upto(parts, family, n - 1);
        if parts[n - 1].kind.family == family && (prev < 0 || parts[n - 1].kind.level.step_spec()
            < parts[prev].kind.level.step_spec()) {
            n - 1
        } else {
            prev
        }
    }
}

/// The organ of `family` an upgrade would raise, or -1 when the body has none.
pub open spec fn weakest(parts: Seq<BodyPart>, family: PartFamily) -> int {
    weakest_upto(parts, family, parts.len() as int)
}

/// Why the weakest organ of `family` cannot be raised at this price, or `None`.
pub open spec fn upgrade_refusal(parts: Seq<BodyPart>, points: u16, family: PartFamily, price: u16) -> Option<Seq<char>> {
    let i = weakest(parts, family);
    if i < 0 {
        Some("такого органа нет"@)
    } else if parts[i].kind.upgraded_spec() is None {
        Some("уже совершенный"@)
    } else if points < price {
        Some("не хватает очков"@)
    } else {
        None
    }
}

/// What raising an organ costs: the difference between the prices of the two
/// levels in this body, and never nothing.
pub open spec fn upgrade_price_spec(current_price: u16, next_price: u16) -> u16 {
    if next_price > current_price + 1 {
        (next_price - current_price) as u16
    } else {
        1
    }
}

/// What raising an organ costs, given what this body would pay for its
/// current level and for the next one.
///
/// The difference, not the full price of the new organ: investing in what is
/// already grown has to be cheaper than growing another one beside it.
pub fn upgrade_price(current_price: u16, next_price: u16) -> (r: u16)
    ensures
        r == upgrade_price_spec(current_price, next_price),
{
    let difference = if next_price > current_price {
        next_price - current_price
    } else {
        0
    };
    if difference > 1 {
        difference
    } else {
        1
    }
}

proof fn lemma_weakest_upto_range(parts: Seq<BodyPart>, family: PartFamily, n: int)
    requires
        0 <= n <= parts.len(),
    ensures
        -1 <= weakest_upto(parts, family, n) < n,
        weakest_upto(parts, family, n) >= 0 ==> parts[weakest_upto(parts, family, n)].kind.family
            == family,
    decreases n,
{
    if n > 0 {
        lemma_weakest_upto_range(parts, family, n - 1);
    }
}

/// The weakest organ is the first one of the family at the lowest level, and
/// there is one exactly when the body has an organ of that family.
pub proof fn lemma_weakest_is_first_lowest(parts: Seq<BodyPart>, family: PartFamily, n: int)
    requires
        0 <= n <= parts.len(),
    ensures
        weakest_upto(parts, family, n) < 0 <==> (forall|j: int|
            0 <= j < n ==> parts[j].kind.family != family),
        weakest_upto(parts, family, n) >= 0 ==> {
            let w = weakest_upto(parts, family, n);
            &&& 0 <= w < n
            &&& parts[w].kind.family == family
            &&& forall|j: int|
                0 <= j < n && parts[j].kind.family == family ==> parts[w].kind.level.step_spec()
                    <= parts[j].kind.level.step_spec()
            &&& forall|j: int|
                0 <= j < w && parts[j].kind.family == family ==> parts[w].kind.level.step_spec()
                    < parts[j].kind.level.step_spec()
        },
    decreases n,
{
    if n > 0 {
        lemma_weakest_is_first_lowest(parts, family, n - 1);
        lemma_weakest_upto_range(parts, family, n - 1);
    }
}

impl Genome {
    /// Why this organ cannot be grown at this price, or `None` if it can.
    ///
    /// The price is what this body pays for the organ, its growth surcharge
    /// included. The limit is per family: otherwise four levels of the same
    /// organ would be a way around it.
    pub fn mutation_error(&self, kind: PartKind, price: u16) -> (r: Option<&'static str>)
        ensures
            match r {
                Some(m) => mutation_refusal(self.parts@, self.mutation_points, kind, price) == Some(m@),
                None => mutation_refusal(self.parts@, self.mutation_points, kind, price) is None,
            },
    {
        if self.parts.len() >= MAX_PARTS {
            return Some("тело заполнено");
        }
        if self.count_family(kind.family) >= MAX_PARTS_PER_KIND {
            return Some("предел для этого органа");
        }
        if self.mutation_points < price {
            return Some("не хватает очков");
        }
        None
    }

    /// Grows the organ and pays for it, if the body can; says whether it did.
    pub fn apply_mutation(&mut self, kind: PartKind, price: u16) -> (done: bool)
        ensures
            done == mutation_refusal(old(self).parts@, old(self).mutation_points, kind, price) is None,
            done ==> final(self).parts@ == old(self).parts@.push(grown_part(old(self).parts@, kind))
                && final(self).mutation_points == old(self).mutation_points - price,
            !done ==> final(self).parts@ == old(self).parts@ && final(self).mutation_points == old(
                self,
            ).mutation_points,
            final(self).lineage == old(self).lineage,
            final(self).generation == old(self).generation,
    {
        if self.mutation_error(kind, price).is_some() {
            return false;
        }
        self.mutation_points = self.mutation_points - price;
        self.push_part(kind);
        true
    }

    /// Which organ of this family an upgrade raises: the weakest one, the first
    /// of them when several share the lowest level.
    ///
    /// The weakest, not any: growth should pull up what lags behind, or a player
    /// perfects one organ while the rest stay cheap without noticing.
    pub fn weakest_of(&self, family: PartFamily) -> (r: Option<usize>)
        ensures
            match r {
                Some(i) => i == weakest(self.parts@, family),
                None => weakest(self.parts@, family) < 0,
            },
    {
        let mut best: Option<usize> = None;
        let mut i: usize = 0;
        while i < self.parts.len()
            invariant
                i <= self.parts@.len(),
                match best {
                    Some(b) => b == weakest_upto(self.parts@, family, i as int),
                    None => weakest_upto(self.parts@, family, i as int) < 0,
                },
            decreases self.parts@.len() - i,
        {
            proof {
                lemma_weakest_upto_range(self.parts@, family, i as int);
            }
            let part = self.parts[i];
            if part.kind.family == family {
                match best {
                    None => {
                        best = Some(i);
                    },
                    Some(b) => {
                        if part.kind.level.step() < self.parts[b].kind.level.step() {
                            best = Some(i);
                        }
                    },
                }
            }
            i += 1;
        }
        best
    }

    /// Why the weakest organ of `family` cannot be raised at this price, or `None`.
    pub fn upgrade_error(&self, family: PartFamily, price: u16) -> (r: Option<&'static str>)
        ensures
            match r {
                Some(m) => upgrade_refusal(self.parts@, self.mutation_points, family, price) == Some(m@),
                None => upgrade_refusal(self.parts@, self.mutation_points, family, price) is None,
            },
    {
        let index = match self.weakest_of(family) {
            Some(i) => i,
            None => {
                return Some("такого органа нет");
            },
        };
        proof {
            lemma_weakest_upto_range(self.parts@, family, self.parts@.len() as int);
        }
        if self.parts[index].kind.upgraded().is_none() {
            return Some("уже совершенный");
        }
        if self.mutation_points < price {
            return Some("не хватает очков");
        }
        None
    }

    /// Raises the weakest organ of this family one level and pays for it, if it
    /// can; says whether it did.
    pub fn apply_upgrade(&mut self, family: PartFamily, price: u16) -> (done: bool)
        ensures
            done == upgrade_refusal(old(self).parts@, old(self).mutation_points, family, price) is None,
            done ==> {
                let i = weakest(old(self).parts@, family);
                let next = old(self).parts@[i].kind.upgraded_spec()->0;
                &&& final(self).parts@ == old(self).parts@.update(
                    i,
                    BodyPart { kind: next, slot: old(self).parts@[i].slot, level: (next.level.step_spec() + 1) as u8 },
                )
                &&& final(self).mutation_points == old(self).mutation_points - price
            },
            !done ==> final(self).parts@ == old(self).parts@ && final(self).mutation_points == old(
                self,
            ).mutation_points,
            final(self).lineage == old(self).lineage,
            final(self).generation == old(self).generation,
    {
        if self.upgrade_error(family, price).is_some() {
            return false;
        }
        let index = match self.weakest_of(family) {
            Some(i) => i,
            None => {
                return false;
            },
        };
        proof {
            lemma_weakest_upto_range(self.parts@, family, self.parts@.len() as int);
        }
        let next = match self.parts[index].kind.upgraded() {
            Some(k) => k,
            None => {
                return false;
            },
        };
        let slot = self.parts[index].slot;
        self.mutation_points = self.mutation_points - price;
        let level = (next.level.step() + 1) as u8;
        self.parts.set(index, BodyPart { kind: next, slot, level });
        true
    }
}

/// Paying for a mutation never overdraws: whatever a body grows, its points
/// go down by exactly the price, and only when it had them.
pub proof fn lemma_mutation_never_overdraws(parts: Seq<BodyPart>, points: u16, kind: PartKind, price: u16)
    requires
        mutation_refusal(parts, points, kind, price) is None,
    ensures
        points >= price,
        parts.len() < MAX_PARTS,
        count_family_in(parts.push(grown_part(parts, kind)), kind.family) <= MAX_PARTS_PER_KIND,
{
    lemma_count_family_push(parts, grown_part(parts, kind), kind.family);
}

// ─────────────────────────────────────────────
// Identity and relation
// ─────────────────────────────────────────────

/// A hash of the body plan over the first `n` parts.
pub open spec fn signature_upto(parts: Seq<BodyPart>, n: int) -> u64
    decreases n,
{
    if n <= 0 {
        1469598103934665603u64
    } else {
        (signature_upto(parts, n - 1) ^ ((parts[n - 1].kind.index_spec() + 1) as u64)).wrapping_mul(
            1099511628211u64,
        )
    }
}

/// The hash of a whole body plan.
pub open spec fn signature(parts: Seq<BodyPart>) -> u64 {
    signature_upto(parts, parts.len() as int) ^ (parts.len() as u64)
}

/// A fingerprint of the body plan: it changes whenever an organ is grown,
/// raised or lost, so a body only has to be rebuilt when it really changed.
pub fn genome_signature(genome: &Genome) -> (h: u64)
    ensures
        h == signature(genome.parts@),
{
    let mut hash: u64 = 1469598103934665603;
    let mut i: usize = 0;
    while i < genome.parts.len()
        invariant
            i <= genome.parts@.len(),
            hash == signature_upto(genome.parts@, i as int),
        decreases genome.parts@.len() - i,
    {
        let index = genome.parts[i].kind.index() as u64;
        hash = (hash ^ (index + 1)).wrapping_mul(1099511628211);
        i += 1;
    }
    hash ^ (genome.parts.len() as u64)
}

/// How another organism relates to the one we control, as the interface
/// colours it.
#[derive(Debug, Clone, Copy, PartialEq, Eq, Structural)]
pub enum Relation {
    /// The body we control.
    Own,
    /// It will hurt us on contact, kin or not.
    Enemy,
    /// Our own colony, still close enough to be safe.
    Kin,
    /// A stranger too similar to fight — or anyone, while we have no body.
    Neutral,
}

/// The relation colour of `theirs` as seen from `mine`.
pub open spec fn relation_spec(
    mine: Option<(Seq<u8>, u64)>,
    theirs: Seq<u8>,
    their_lineage: u64,
    controlled: bool,
    strangers: u32,
    kin: u32,
) -> Relation {
    if controlled {
        Relation::Own
    } else {
        match mine {
            None => Relation::Neutral,
            Some((m, lineage)) => if hostile_spec(m, lineage, theirs, their_lineage, strangers, kin) {
                Relation::Enemy
            } else if lineage == their_lineage {
                Relation::Kin
            } else {
                Relation::Neutral
            },
        }
    }
}

/// How another organism relates to the one we control.
///
/// The colour answers one question: will this body hurt me on contact. So
/// hostility is checked **first**, and kinship only after: a branch of the
/// family that has drifted past the kin threshold fights, and must not be
/// painted as family. The thresholds are the server's, so the colour matches
/// the damage.
pub fn relation(
    mine: Option<&Genome>,
    theirs: &Genome,
    controlled: bool,
    strangers: u32,
    kin: u32,
) -> (r: Relation)
    ensures
        r == relation_spec(
            match mine {
                Some(m) => Some((histogram(m.parts@), m.lineage)),
                None => None,
            },
            histogram(theirs.parts@),
            theirs.lineage,
            controlled,
            strangers,
            kin,
        ),
{
    if controlled {
        return Relation::Own;
    }
    let m = match mine {
        Some(m) => m,
        None => {
            return Relation::Neutral;
        },
    };
    if hostile_with(m, theirs, strangers, kin) {
        return Relation::Enemy;
    }
    if m.lineage == theirs.lineage {
        return Relation::Kin;
    }
    Relation::Neutral
}

} // verus!
