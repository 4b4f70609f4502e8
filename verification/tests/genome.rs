use cellborn::genome::{
    conceive, genetic_distance, genome_signature, hostile, hostile_with, random_part, relation,
    FamilyCounts, Genome, Relation, AGGRESSION_THRESHOLD, KIN_SPLIT_THRESHOLD, MAX_PARTS,
};
use cellborn::parts::{PartFamily, PartKind, PartLevel, KIND_COUNT};

fn grown(lineage: u64, extra: usize) -> Genome {
    let mut genome = Genome::starter_of(lineage);
    for _ in 0..extra {
        genome.push_part(PartKind::basic(PartFamily::Mutator));
    }
    genome
}

#[test]
fn aggression_needs_distance_and_a_different_lineage() {
    let mine = Genome::starter_of(1);
    let mut twin = Genome::starter_of(2);
    assert!(!hostile(&mine, &twin), "near-identical strangers are peaceful");
    for _ in 0..8 {
        twin.push_part(PartKind::basic(PartFamily::Spike));
    }
    assert!(hostile(&mine, &twin), "8 parts apart is past the threshold");
    let mut kin = twin.copy();
    kin.lineage = 1;
    assert!(!hostile(&mine, &kin), "kin never fight, however different");
}

#[test]
fn offspring_inherit_every_parent_part() {
    let mut parent = Genome::starter_of(7);
    for kind in [
        PartKind::new(PartFamily::Spike, PartLevel::Fine),
        PartKind::new(PartFamily::Gill, PartLevel::Perfect),
        PartKind::new(PartFamily::Divisome, PartLevel::Cheap),
        PartKind::basic(PartFamily::Photosynthesis),
    ] {
        parent.push_part(kind);
    }
    parent.mutation_points = 9;

    let child = conceive(&parent, false, 0);
    assert_eq!(child.lineage, parent.lineage, "род наследуется");
    assert_eq!(child.generation, parent.generation + 1);
    assert_eq!(child.parts.len(), parent.parts.len(), "без мутации — точная копия");
    for part in &parent.parts {
        assert_eq!(child.count(part.kind), parent.count(part.kind), "потомок потерял часть");
    }
    assert_eq!(child.mutation_points, 0, "очки не наследуются");
    assert!(!hostile(&parent, &child));

    let mutant = conceive(&parent, true, 12345);
    assert_eq!(mutant.parts.len(), parent.parts.len() + 1);
    for part in &parent.parts {
        assert!(mutant.count(part.kind) >= parent.count(part.kind));
    }
    assert_eq!(*mutant.parts.last().unwrap(), cellborn::genome::BodyPart { kind: random_part(12345), slot: 7, level: 1 });
}

#[test]
fn a_full_body_bears_a_child_without_a_new_organ() {
    let mut parent = Genome::starter_of(3);
    while parent.parts.len() < MAX_PARTS {
        parent.push_part(PartKind::basic(PartFamily::Cilia));
    }
    parent.generation = u16::MAX;
    let child = conceive(&parent, true, 99);
    assert_eq!(child.parts.len(), MAX_PARTS);
    assert_eq!(child.generation, u16::MAX, "поколение не переполняется");
}

#[test]
fn kin_split_when_they_drift_far_enough() {
    let parent = Genome::starter_of(42);
    let mut branch = parent.copy();
    for _ in 0..(AGGRESSION_THRESHOLD + 2) {
        branch.push_part(PartKind::basic(PartFamily::Spike));
    }
    assert!(!hostile(&parent, &branch), "родня терпит больше чужаков");

    let mut far = parent.copy();
    for _ in 0..(KIN_SPLIT_THRESHOLD + 1) {
        far.push_part(PartKind::basic(PartFamily::Nematocyst));
    }
    assert_eq!(far.lineage, parent.lineage);
    assert!(hostile(&parent, &far), "род раскалывается после {KIN_SPLIT_THRESHOLD}");
}

#[test]
fn distance_counts_families_not_levels() {
    let mut a = Genome::starter_of(1);
    let mut b = Genome::starter_of(2);
    a.push_part(PartKind::new(PartFamily::Gill, PartLevel::Cheap));
    b.push_part(PartKind::new(PartFamily::Gill, PartLevel::Perfect));
    assert_eq!(genetic_distance(&a, &b), 0);
    b.push_part(PartKind::basic(PartFamily::Spike));
    b.push_part(PartKind::basic(PartFamily::Spike));
    assert_eq!(genetic_distance(&a, &b), 2);
    assert_eq!(genetic_distance(&b, &a), 2);
    let counts = FamilyCounts::of(&b);
    assert_eq!(counts.get(PartFamily::Spike), 2);
    assert_eq!(counts.get(PartFamily::Membrane), 1);
    assert_eq!(counts.get(PartFamily::Carapace), 0);
    assert!(hostile_with(&a, &b, 1, 15));
    assert!(!hostile_with(&a, &b, 2, 15));
}

#[test]
fn histogram_saturates_instead_of_overflowing() {
    let mut g = Genome::starter_of(0);
    for _ in 0..300 {
        g.push_part(PartKind::basic(PartFamily::Cilia));
    }
    assert_eq!(FamilyCounts::of(&g).get(PartFamily::Cilia), 255);
}

#[test]
fn random_parts_never_inflate_the_membrane() {
    for roll in 0..2000u64 {
        let kind = random_part(roll.wrapping_mul(0x9E37_79B9_7F4A_7C15));
        assert_ne!(kind.family, PartFamily::Membrane);
        assert!(kind.index() < KIND_COUNT);
    }
    assert_eq!(random_part(0), PartKind::new(PartFamily::Flagellum, PartLevel::Cheap));
    assert_eq!(random_part(5377), PartKind::new(PartFamily::Cilia, PartLevel::Plain));
}

#[test]
fn mutations_are_paid_for_and_limited() {
    let mut g = Genome::starter_of(5);
    assert_eq!(g.mutation_error(PartKind::basic(PartFamily::Spike), 3), Some("не хватает очков"));
    g.mutation_points = 10;
    assert_eq!(g.mutation_error(PartKind::basic(PartFamily::Spike), 3), None);
    assert!(g.apply_mutation(PartKind::basic(PartFamily::Spike), 3));
    assert_eq!(g.mutation_points, 7);
    assert_eq!(g.parts.len(), 4);
    assert_eq!(g.parts[3].slot, 3);
    assert!(!g.apply_mutation(PartKind::basic(PartFamily::Spike), 8));
    assert_eq!(g.mutation_points, 7, "отказ ничего не списывает");

    g.mutation_points = 1000;
    for _ in 0..5 {
        assert!(g.apply_mutation(PartKind::new(PartFamily::Spike, PartLevel::Cheap), 1));
    }
    assert_eq!(g.count_family(PartFamily::Spike), 6);
    assert_eq!(g.mutation_error(PartKind::basic(PartFamily::Spike), 1), Some("предел для этого органа"));

    while g.parts.len() < MAX_PARTS {
        g.push_part(PartKind::basic(PartFamily::Cilia));
    }
    assert_eq!(g.mutation_error(PartKind::basic(PartFamily::Gill), 1), Some("тело заполнено"));
}

#[test]
fn upgrades_raise_the_weakest_organ_first() {
    let mut g = Genome::starter_of(5);
    g.push_part(PartKind::new(PartFamily::Gill, PartLevel::Fine));
    g.push_part(PartKind::new(PartFamily::Gill, PartLevel::Cheap));
    g.push_part(PartKind::new(PartFamily::Gill, PartLevel::Cheap));
    assert_eq!(g.weakest_of(PartFamily::Gill), Some(4), "первый из самых слабых");
    assert_eq!(g.weakest_of(PartFamily::Carapace), None);
    assert_eq!(g.upgrade_error(PartFamily::Carapace, 1), Some("такого органа нет"));
    assert_eq!(g.upgrade_error(PartFamily::Gill, 2), Some("не хватает очков"));
    g.mutation_points = 5;
    assert!(g.apply_upgrade(PartFamily::Gill, 2));
    assert_eq!(g.mutation_points, 3);
    assert_eq!(g.parts[4].kind, PartKind::new(PartFamily::Gill, PartLevel::Plain));
    assert_eq!(g.parts[4].level, 2);
    assert_eq!(g.parts[4].slot, 4);
    assert_eq!(g.weakest_of(PartFamily::Gill), Some(5));

    let mut top = Genome::starter_of(1);
    top.push_part(PartKind::new(PartFamily::Ram, PartLevel::Perfect));
    top.mutation_points = 100;
    assert_eq!(top.upgrade_error(PartFamily::Ram, 1), Some("уже совершенный"));
    assert!(!top.apply_upgrade(PartFamily::Ram, 1));
    assert_eq!(top.mutation_points, 100);
}

#[test]
fn upgrade_price_is_the_difference_and_never_free() {
    assert_eq!(cellborn::genome::upgrade_price(3, 7), 4);
    assert_eq!(cellborn::genome::upgrade_price(5, 5), 1);
    assert_eq!(cellborn::genome::upgrade_price(9, 2), 1);
}

#[test]
fn a_split_branch_is_red_even_though_it_is_kin() {
    let mine = grown(7, 0);
    let split = grown(7, (KIN_SPLIT_THRESHOLD + 1) as usize);
    assert!(hostile_with(&mine, &split, AGGRESSION_THRESHOLD, KIN_SPLIT_THRESHOLD));
    assert_eq!(
        relation(Some(&mine), &split, false, AGGRESSION_THRESHOLD, KIN_SPLIT_THRESHOLD),
        Relation::Enemy,
        "разошедшаяся ветвь рода покрашена как безопасная"
    );
}

#[test]
fn close_kin_stay_green() {
    let mine = grown(7, 0);
    let child = grown(7, 2);
    assert_eq!(relation(Some(&mine), &child, false, AGGRESSION_THRESHOLD, KIN_SPLIT_THRESHOLD), Relation::Kin);
}

#[test]
fn strangers_are_coloured_by_whether_they_will_fight() {
    let mine = grown(7, 0);
    let similar = grown(9, 1);
    assert_eq!(relation(Some(&mine), &similar, false, AGGRESSION_THRESHOLD, KIN_SPLIT_THRESHOLD), Relation::Neutral);
    let different = grown(9, (AGGRESSION_THRESHOLD + 1) as usize);
    assert_eq!(relation(Some(&mine), &different, false, AGGRESSION_THRESHOLD, KIN_SPLIT_THRESHOLD), Relation::Enemy);
}

#[test]
fn colours_follow_the_servers_thresholds() {
    let mine = grown(7, 0);
    let stranger = grown(9, 5);
    assert_eq!(relation(Some(&mine), &stranger, false, 20, KIN_SPLIT_THRESHOLD), Relation::Neutral);
    assert_eq!(relation(Some(&mine), &stranger, false, 2, KIN_SPLIT_THRESHOLD), Relation::Enemy);
    assert_eq!(relation(None, &stranger, false, 2, KIN_SPLIT_THRESHOLD), Relation::Neutral);
    assert_eq!(relation(Some(&mine), &stranger, true, 2, KIN_SPLIT_THRESHOLD), Relation::Own);
}

#[test]
fn the_signature_changes_with_the_body() {
    let a = Genome::starter_of(1);
    let mut b = Genome::starter_of(2);
    assert_eq!(genome_signature(&a), genome_signature(&b), "род не влияет на тело");
    b.push_part(PartKind::basic(PartFamily::Spike));
    assert_ne!(genome_signature(&a), genome_signature(&b));
    // The hash of the starter body, worked out by hand from the formula.
    let mut h: u64 = 1469598103934665603;
    for index in [85u64, 1, 13] {
        h = (h ^ (index + 1)).wrapping_mul(1099511628211);
    }
    assert_eq!(genome_signature(&a), h ^ 3);
}
