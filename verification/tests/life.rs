use cellborn::genome::Genome;
use cellborn::config::ServerLimits;
use cellborn::genome::random_part;
use cellborn::life::{behind, bot_choices, bot_mutation_choice, heir_of, wild_genome, wild_genome_from, wild_needed};
use cellborn::parts::{PartFamily, PartKind, KIND_COUNT};

#[test]
fn a_bot_first_wants_a_second_mouth() {
    let mut genome = Genome::starter_of(3);
    genome.mutation_points = 50;
    let prices = vec![2u16; KIND_COUNT];
    let choices = bot_choices(&genome, &prices, 100);
    assert_eq!(choices, vec![PartKind::basic(PartFamily::Mouth)]);
}

#[test]
fn a_full_bot_wants_nothing_and_a_fed_one_anything_affordable() {
    let mut genome = Genome::starter_of(3);
    genome.mutation_points = 50;
    let prices = vec![2u16; KIND_COUNT];
    assert!(bot_choices(&genome, &prices, genome.parts.len()).is_empty());

    genome.push_part(PartKind::basic(PartFamily::Mouth));
    let choices = bot_choices(&genome, &prices, 100);
    assert!(!choices.is_empty());
    assert!(choices.len() <= KIND_COUNT);
    for kind in &choices {
        assert!(genome.mutation_error(*kind, 2).is_none());
    }
    // Catalogue order.
    let indices: Vec<usize> = choices.iter().map(|k| k.index()).collect();
    let mut sorted = indices.clone();
    sorted.sort();
    assert_eq!(indices, sorted);

    genome.mutation_points = 1;
    assert!(bot_choices(&genome, &prices, 100).is_empty(), "nothing is affordable");
}

#[test]
fn the_heir_is_the_most_developed_of_the_lineage() {
    let candidates = vec![(1u64, 5usize), (2, 9), (1, 7), (1, 7), (3, 20)];
    assert_eq!(heir_of(&candidates, 1), Some(3), "the last of equals is taken");
    assert_eq!(heir_of(&candidates, 2), Some(1));
    assert_eq!(heir_of(&candidates, 4), None);
    assert_eq!(heir_of(&Vec::new(), 1), None);
}

#[test]
fn the_overlay_shows_the_difference() {
    assert_eq!(behind(10, 10), "");
    assert_eq!(behind(10, 13), "   (у клиента +3)");
    assert_eq!(behind(10, 4), "   (у клиента -6)");
    assert_eq!(behind(i64::MAX, 0), format!("   (у клиента -{})", i64::MAX));
}

#[test]
fn wild_bots_start_as_varied_starters() {
    let starter = Genome::starter();
    let mut lineages = std::collections::HashSet::new();
    let mut sizes = std::collections::HashSet::new();
    for _ in 0..200 {
        let g = wild_genome();
        assert!((3..=5).contains(&g.parts.len()));
        assert_eq!(&g.parts[..3], &starter.parts[..]);
        for (i, part) in g.parts.iter().enumerate().skip(3) {
            assert_ne!(part.kind.family, PartFamily::Membrane);
            assert_eq!(part.slot, i);
        }
        assert_eq!(g.mutation_points, 0);
        lineages.insert(g.lineage);
        sizes.insert(g.parts.len());
    }
    assert!(lineages.len() > 190, "wild lineages repeat");
    assert!(sizes.len() >= 2, "every wild body is the same size");
}

#[test]
fn a_bot_grows_one_of_its_choices() {
    let mut genome = Genome::starter_of(3);
    genome.push_part(PartKind::basic(PartFamily::Mouth));
    genome.mutation_points = 50;
    let prices = vec![2u16; KIND_COUNT];
    let choices = bot_choices(&genome, &prices, 100);
    for _ in 0..50 {
        let pick = bot_mutation_choice(&genome, &prices, 100).expect("it can afford something");
        assert!(choices.contains(&pick));
    }
    genome.mutation_points = 0;
    assert_eq!(bot_mutation_choice(&genome, &prices, 100), None);
}

#[test]
fn wild_bots_are_born_while_there_is_room() {
    let limits = ServerLimits::defaults();
    assert!(wild_needed(0, 0, &limits));
    assert!(!wild_needed(limits.wild_target, 0, &limits));
    assert!(!wild_needed(0, limits.max_organisms, &limits));
}

#[test]
fn a_wild_genome_is_what_chance_drew() {
    let rolls = [5377u64, 0x0102];
    let g = wild_genome_from(77, 2, &rolls);
    assert_eq!(g.lineage, 77);
    assert_eq!(g.mutation_points, 0);
    assert_eq!(g.generation, 0);
    let mut expected = Genome::starter_of(77);
    expected.push_part(random_part(5377));
    expected.push_part(random_part(0x0102));
    assert_eq!(g.parts, expected.parts);
    assert_eq!(wild_genome_from(9, 0, &[]).parts, Genome::starter().parts);
    // Different draws give strangers.
    assert_ne!(wild_genome().lineage, wild_genome().lineage);
}
