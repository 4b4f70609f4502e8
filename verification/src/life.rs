//! Decisions of life on the server that do not depend on where bodies are:
//! when a wild bot is born and with what body, what a bot is willing to grow,
//! and which descendant a dead player becomes.

use vstd::prelude::*;
use rand::Rng;
use crate::config::ServerLimits;
use crate::genome::{
    count_family_in, grown_part, mutation_refusal, random_part, random_part_spec, starter_parts, BodyPart,
    Genome,
};
use crate::parts::{kind_at, lemma_index_round_trip, PartFamily, PartKind, PartLevel, KIND_COUNT};
use crate::text::{append_chars, chars_of, decimal, push_decimal, string_of};

verus! {

broadcast use vstd::string::group_string_axioms;

// ─────────────────────────────────────────────
// Bots growing
// ─────────────────────────────────────────────

/// Every mutation among the first `n` of the catalogue that this body could
/// grow now at the given prices, in catalogue order.
pub open spec fn affordable_upto(genome_parts: Seq<crate::genome::BodyPart>, points: u16, prices: Seq<u16>, n: int) -> Seq<PartKind>
    decreases n,
{
    if n <= 0 {
        seq![]
    } else {
        affordable_upto(genome_parts, points, prices, n - 1) + if mutation_refusal(
            genome_parts,
            points,
            kind_at(n - 1),
            prices[n - 1],
        ) is None {
            seq![kind_at(n - 1)]
        } else {
            seq![]
        }
    }
}

/// The plain mouth: a bot's one instinct.
pub open spec fn plain_mouth() -> PartKind {
    PartKind { family: PartFamily::Mouth, level: PartLevel::Plain }
}

/// What a bot may grow now, one of which it picks at random: nothing once it
/// reached its part limit; a mouth while it has fewer than two and can afford
/// one — otherwise it never learns to feed; else everything it can afford.
pub open spec fn bot_choices_spec(genome_parts: Seq<crate::genome::BodyPart>, points: u16, prices: Seq<u16>, limit: usize) -> Seq<PartKind> {
    let mouth = plain_mouth();
    if genome_parts.len() >= limit {
        seq![]
    } else if count_family_in(genome_parts, PartFamily::Mouth) < 2 && mutation_refusal(
        genome_parts,
        points,
        mouth,
        prices[mouth.index_spec()],
    ) is None {
        seq![mouth]
    } else {
        affordable_upto(genome_parts, points, prices, KIND_COUNT as int)
    }
}

proof fn lemma_affordable_upto(parts: Seq<BodyPart>, points: u16, prices: Seq<u16>, n: int)
    requires
        0 <= n <= KIND_COUNT,
        prices.len() == KIND_COUNT,
    ensures
        forall|k: PartKind| #[trigger]
            affordable_upto(parts, points, prices, n).contains(k) ==> k.index_spec() < n && mutation_refusal(
                parts,
                points,
                k,
                prices[k.index_spec()],
            ) is None,
        forall|k: PartKind|
            k.index_spec() < n && #[trigger] mutation_refusal(parts, points, k, prices[k.index_spec()]) is None
                ==> affordable_upto(parts, points, prices, n).contains(k),
    decreases n,
{
    if n > 0 {
        lemma_affordable_upto(parts, points, prices, n - 1);
        let before = affordable_upto(parts, points, prices, n - 1);
        let last = kind_at(n - 1);
        crate::parts::lemma_catalogue_lists_each_kind_once(n - 1, n - 1, last);
        let tail = if mutation_refusal(parts, points, last, prices[n - 1]) is None {
            seq![last]
        } else {
            seq![]
        };
        assert(affordable_upto(parts, points, prices, n) == before + tail);
        assert forall|k: PartKind| #[trigger]
            affordable_upto(parts, points, prices, n).contains(k) implies k.index_spec() < n
            && mutation_refusal(parts, points, k, prices[k.index_spec()]) is None by {
            let all = before + tail;
            let i = choose|i: int| 0 <= i < all.len() && all[i] == k;
            if i < before.len() {
                assert(before.contains(k));
            } else {
                assert(k == last);
            }
        }
        assert forall|k: PartKind|
            k.index_spec() < n && #[trigger] mutation_refusal(parts, points, k, prices[k.index_spec()]) is None
            implies affordable_upto(parts, points, prices, n).contains(k) by {
            let all = before + tail;
            if k.index_spec() < n - 1 {
                assert(before.contains(k));
                let i = choose|i: int| 0 <= i < before.len() && before[i] == k;
                assert(all[i] == k);
            } else {
                lemma_index_round_trip(k);
                assert(k == last);
                assert(all[before.len() as int] == k);
            }
        }
    }
}

/// What a bot is offered is what it can pay for: every choice passes the
/// same rules that would refuse a player's mutation. A bot at its part limit
/// is offered nothing; below it, a bot that can afford anything at all is
/// offered something; and once it has two mouths it is offered exactly the
/// organs it can afford.
pub proof fn lemma_bot_choices_are_affordable(parts: Seq<BodyPart>, points: u16, prices: Seq<u16>, limit: usize)
    requires
        prices.len() == KIND_COUNT,
    ensures
        forall|k: PartKind| #[trigger]
            bot_choices_spec(parts, points, prices, limit).contains(k) ==> mutation_refusal(
                parts,
                points,
                k,
                prices[k.index_spec()],
            ) is None,
        parts.len() >= limit ==> bot_choices_spec(parts, points, prices, limit).len() == 0,
        forall|k: PartKind|
            parts.len() < limit && #[trigger] mutation_refusal(parts, points, k, prices[k.index_spec()]) is None
                ==> bot_choices_spec(parts, points, prices, limit).len() > 0,
        forall|k: PartKind|
            parts.len() < limit && count_family_in(parts, PartFamily::Mouth) >= 2 ==> (
            #[trigger] bot_choices_spec(parts, points, prices, limit).contains(k) <==> mutation_refusal(
                parts,
                points,
                k,
                prices[k.index_spec()],
            ) is None),
{
    lemma_affordable_upto(parts, points, prices, KIND_COUNT as int);
    let mouth = plain_mouth();
    lemma_index_round_trip(mouth);
    let all = affordable_upto(parts, points, prices, KIND_COUNT as int);
    assert forall|k: PartKind| #[trigger]
        bot_choices_spec(parts, points, prices, limit).contains(k) implies mutation_refusal(
        parts,
        points,
        k,
        prices[k.index_spec()],
    ) is None by {
        if parts.len() >= limit {
        } else if count_family_in(parts, PartFamily::Mouth) < 2 && mutation_refusal(
            parts,
            points,
            mouth,
            prices[mouth.index_spec()],
        ) is None {
            assert(seq![mouth][0] == mouth);
            let i = choose|i: int| 0 <= i < seq![mouth].len() && seq![mouth][i] == k;
            assert(k == mouth);
        } else {
            assert(all.contains(k));
        }
    }
    assert forall|k: PartKind|
        parts.len() < limit && #[trigger] mutation_refusal(parts, points, k, prices[k.index_spec()]) is None
        implies bot_choices_spec(parts, points, prices, limit).len() > 0 by {
        lemma_index_round_trip(k);
        assert(all.contains(k));
    }
    assert forall|k: PartKind|
        parts.len() < limit && count_family_in(parts, PartFamily::Mouth) >= 2 implies (
        #[trigger] bot_choices_spec(parts, points, prices, limit).contains(k) <==> mutation_refusal(
            parts,
            points,
            k,
            prices[k.index_spec()],
        ) is None) by {
        lemma_index_round_trip(k);
    }
}

/// The organs a bot is willing to grow now.
///
/// Bots grow on the same economy as a player: `prices[i]` is what this body
/// pays for mutation `i` of the catalogue, and the same rules refuse it.
/// Bots explore the tree instead of following one optimal build, so the
/// caller picks one of these at random.
pub fn bot_choices(genome: &Genome, prices: &Vec<u16>, limit: usize) -> (r: Vec<PartKind>)
    requires
        prices@.len() == KIND_COUNT,
    ensures
        r@ == bot_choices_spec(genome.parts@, genome.mutation_points, prices@, limit),
{
    if genome.parts.len() >= limit {
        return Vec::new();
    }
    let mouth = PartKind::basic(PartFamily::Mouth);
    let mouth_index = mouth.index();
    if genome.count_family(PartFamily::Mouth) < 2 && genome.mutation_error(mouth, prices[mouth_index]).is_none() {
        let mut only: Vec<PartKind> = Vec::new();
        only.push(mouth);
        return only;
    }
    let mut r: Vec<PartKind> = Vec::new();
    let mut i: usize = 0;
    while i < KIND_COUNT
        invariant
            i <= KIND_COUNT,
            prices@.len() == KIND_COUNT,
            r@ == affordable_upto(genome.parts@, genome.mutation_points, prices@, i as int),
        decreases KIND_COUNT - i,
    {
        let kind = PartKind::from_index(i);
        assert(kind == kind_at(i as int));
        if genome.mutation_error(kind, prices[i]).is_none() {
            r.push(kind);
        }
        i += 1;
    }
    r
}

// ─────────────────────────────────────────────
// Coming back after death
// ─────────────────────────────────────────────

/// Among the first `n` candidates, the last one of the lineage with the most
/// organs, or -1.
pub open spec fn heir_upto(candidates: Seq<(u64, usize)>, lineage: u64, n: int) -> int
    decreases n,
{
    if n <= 0 {
        -1
    } else {
        let prev = heir_upto(candidates, lineage, n - 1);
        if candidates[n - 1].0 == lineage && (prev < 0 || candidates[n - 1].1 >= candidates[prev].1) {
            n - 1
        } else {
            prev
        }
    }
}

proof fn lemma_heir_range(candidates: Seq<(u64, usize)>, lineage: u64, n: int)
    requires
        0 <= n <= candidates.len(),
    ensures
        -1 <= heir_upto(candidates, lineage, n) < n,
    decreases n,
{
    if n > 0 {
        lemma_heir_range(candidates, lineage, n - 1);
    }
}

/// Which descendant a dead player takes over: of the bodies given as
/// `(lineage, organ count)`, the most developed one of its own lineage — the
/// last of them when several tie. Dying should not cost the line everything
/// it grew while the player was alive. `None` when the line has died out.
pub fn heir_of(candidates: &Vec<(u64, usize)>, lineage: u64) -> (r: Option<usize>)
    ensures
        match r {
            Some(i) => i == heir_upto(candidates@, lineage, candidates@.len() as int),
            None => heir_upto(candidates@, lineage, candidates@.len() as int) < 0,
        },
{
    let mut best: Option<usize> = None;
    let mut i: usize = 0;
    while i < candidates.len()
        invariant
            i <= candidates@.len(),
            match best {
                Some(b) => b == heir_upto(candidates@, lineage, i as int),
                None => heir_upto(candidates@, lineage, i as int) < 0,
            },
        decreases candidates@.len() - i,
    {
        proof {
            lemma_heir_range(candidates@, lineage, i as int);
        }
        let (line, parts) = candidates[i];
        if line == lineage {
            match best {
                None => {
                    best = Some(i);
                },
                Some(b) => {
                    if parts >= candidates[b].1 {
                        best = Some(i);
                    }
                },
            }
        }
        i += 1;
    }
    best
}

/// The heir is of the dead player's lineage, and no relative has more organs.
pub proof fn lemma_heir_is_the_most_developed(candidates: Seq<(u64, usize)>, lineage: u64, n: int)
    requires
        0 <= n <= candidates.len(),
    ensures
        heir_upto(candidates, lineage, n) >= 0 ==> {
            let h = heir_upto(candidates, lineage, n);
            &&& candidates[h].0 == lineage
            &&& forall|j: int| 0 <= j < n && candidates[j].0 == lineage ==> candidates[j].1 <= candidates[h].1
        },
        heir_upto(candidates, lineage, n) < 0 ==> forall|j: int| 0 <= j < n ==> candidates[j].0 != lineage,
    decreases n,
{
    if n > 0 {
        lemma_heir_is_the_most_developed(candidates, lineage, n - 1);
        lemma_heir_range(candidates, lineage, n - 1);
    }
}

// ─────────────────────────────────────────────
// The debug overlay
// ─────────────────────────────────────────────

/// How far the client lags behind the server in counted entities, for the
/// overlay: nothing when the numbers agree, `   (у клиента +N)` or `-N` otherwise.
pub fn behind(server: i64, client: i64) -> (s: String)
    requires
        i64::MIN <= client - server <= i64::MAX,
    ensures
        s@ == (if client == server {
            Seq::<char>::empty()
        } else {
            "   (у клиента "@ + seq![if client > server { '+' } else { '-' }] + decimal(
                (if client > server { client - server } else { server - client }) as nat,
            ) + ")"@
        }),
{
    if client == server {
        return String::new();
    }
    let mut v = chars_of("   (у клиента ");
    let magnitude: u64 = if client > server {
        v.push('+');
        (client as i128 - server as i128) as u64
    } else {
        v.push('-');
        (server as i128 - client as i128) as u64
    };
    push_decimal(&mut v, magnitude);
    let tail = chars_of(")");
    append_chars(&mut v, &tail);
    string_of(&v)
}

// ─────────────────────────────────────────────
// Wild bots
// ─────────────────────────────────────────────

/// `rand::rng().random_range(0..n)`: a number below `n`, by chance.
#[verifier::external_body]
fn random_below(n: usize) -> (r: usize)
    requires
        n > 0,
    ensures
        r < n,
{
    rand::rng().random_range(0..n)
}

/// `rand::random::<u64>()`: any number, by chance.
#[verifier::external_body]
fn random_u64() -> (r: u64) {
    rand::random::<u64>()
}

/// Whether the world wants one more wild bot: fewer than the target, and
/// room left under the population limit.
pub fn wild_needed(alive_wild: usize, organisms: usize, limits: &ServerLimits) -> (r: bool)
    ensures
        r == (alive_wild < limits.wild_target && organisms < limits.max_organisms),
{
    alive_wild < limits.wild_target && organisms < limits.max_organisms
}

/// How many random organs a fresh wild bot may start with, at most one less
/// than this.
pub const WILD_EXTRA_LIMIT: usize = 3;

/// The body of a fresh wild bot: the starter body, then one organ grown from
/// each of the first `extra` rolls, in order.
pub open spec fn wild_parts(extra: int, rolls: Seq<u64>) -> Seq<BodyPart>
    decreases extra,
{
    if extra <= 0 {
        starter_parts()
    } else {
        let before = wild_parts(extra - 1, rolls);
        before.push(grown_part(before, random_part_spec(rolls[extra - 1])))
    }
}

/// The genome of a fresh wild bot from what chance drew: its lineage, how
/// many extra organs it starts with, and the roll of each.
pub fn wild_genome_from(lineage: u64, extra: usize, rolls: &[u64]) -> (g: Genome)
    requires
        extra < WILD_EXTRA_LIMIT,
        extra <= rolls@.len(),
    ensures
        g.lineage == lineage,
        g.mutation_points == 0,
        g.generation == 0,
        g.parts@ == wild_parts(extra as int, rolls@),
{
    let mut genome = Genome::starter_of(lineage);
    let mut j: usize = 0;
    while j < extra
        invariant
            j <= extra < WILD_EXTRA_LIMIT,
            extra <= rolls@.len(),
            genome.lineage == lineage,
            genome.mutation_points == 0,
            genome.generation == 0,
            genome.parts@ == wild_parts(j as int, rolls@),
        decreases extra - j,
    {
        genome.push_part(random_part(rolls[j]));
        j += 1;
    }
    genome
}

/// A fresh wild bot's genome. Its lineage is drawn by chance — wild cells
/// are strangers to each other too — and so are the number of extra organs
/// and their rolls, so the world is not full of clones. Which lineage and
/// which organs come out is chance; every outcome is a wild body.
pub fn wild_genome() -> (g: Genome)
    ensures
        exists|extra: int, rolls: Seq<u64>|
            0 <= extra < WILD_EXTRA_LIMIT && rolls.len() == extra && #[trigger] wild_parts(extra, rolls)
                == g.parts@,
        g.mutation_points == 0,
        g.generation == 0,
{
    let lineage = random_u64();
    let extra = random_below(WILD_EXTRA_LIMIT);
    let mut rolls: Vec<u64> = Vec::new();
    let mut j: usize = 0;
    while j < extra
        invariant
            j <= extra < WILD_EXTRA_LIMIT,
            rolls@.len() == j,
        decreases extra - j,
    {
        rolls.push(random_u64());
        j += 1;
    }
    let g = wild_genome_from(lineage, extra, rolls.as_slice());
    assert(wild_parts(extra as int, rolls@) == g.parts@);
    g
}

/// What a bot grows this time: one of its choices, by chance, or nothing
/// when it has none.
pub fn bot_mutation_choice(genome: &Genome, prices: &Vec<u16>, limit: usize) -> (r: Option<PartKind>)
    requires
        prices@.len() == KIND_COUNT,
    ensures
        r is None <==> bot_choices_spec(genome.parts@, genome.mutation_points, prices@, limit).len() == 0,
        r matches Some(k) ==> bot_choices_spec(genome.parts@, genome.mutation_points, prices@, limit).contains(k),
{
    let choices = bot_choices(genome, prices, limit);
    if choices.len() == 0 {
        None
    } else {
        let i = random_below(choices.len());
        Some(choices[i])
    }
}

} // verus!
