use cellborn::crest::{tally, top_board_text, Crest, CREST_COLORS, CREST_SHAPE_COUNT};
use cellborn::genome::Genome;
use cellborn::parts::{PartFamily, PartKind};
use std::collections::HashSet;

#[test]
fn a_crest_is_stable_and_spread_out() {
    assert_eq!(Crest::of(42).shape, Crest::of(42).shape);
    assert_eq!(Crest::of(42).hue, Crest::of(42).hue);

    // Bots' lineages are numbered in a row, and it is on consecutive numbers
    // that a naive crest would give nearly the same colours.
    let spread: HashSet<&str> = (0..40u64).map(|n| Crest::of(n).shape).collect();
    assert!(spread.len() >= 6, "знаки почти не различаются: {}", spread.len());

    let colors: HashSet<u64> = (0..40u64).map(|n| Crest::of(n).hue).collect();
    assert!(colors.len() >= 8, "цвета почти не различаются: {}", colors.len());
}

#[test]
fn the_crest_follows_the_mixed_lineage() {
    for lineage in [0u64, 1, 2, 42, u64::MAX, 0x0123_4567_89AB_CDEF] {
        let mixed = lineage
            .wrapping_mul(0x9E37_79B9_7F4A_7C15)
            .rotate_left(31)
            .wrapping_mul(0xBF58_476D_1CE4_E5B9);
        let crest = Crest::of(lineage);
        assert_eq!(crest.hue, mixed % CREST_COLORS);
        assert_eq!(crest.shape_index(), (mixed >> 20) % CREST_SHAPE_COUNT);
        let signs = ["◆", "●", "▲", "■", "✦", "✚", "▼", "◗"];
        assert_eq!(crest.shape, signs[crest.shape_index() as usize]);
    }
}

#[test]
fn the_label_shows_the_top_of_the_lineage() {
    let crest = Crest::of(7);
    assert_eq!(crest.label(0xABCD_0000_0000_0001), format!("{} ABCD", crest.shape));
    assert_eq!(crest.label(1), format!("{} 0000", crest.shape));
    assert_eq!(crest.label(0x00F0_0000_0000_0000), format!("{} 00F0", crest.shape));
}

fn seen(genome: &Genome) -> (u64, usize, u16) {
    (genome.lineage, genome.parts.len(), genome.generation)
}

#[test]
fn your_own_lineage_is_findable_even_when_it_is_losing() {
    let mut organisms = Vec::new();
    // Four foreign lineages of several bodies each, and one's own of one.
    for lineage in 1..=4u64 {
        for _ in 0..(6 - lineage) {
            organisms.push(seen(&Genome::starter_of(lineage)));
        }
    }
    organisms.push(seen(&Genome::starter_of(99)));

    let lines = tally(&organisms, Some(99));
    let place = lines.iter().position(|l| l.is_mine).expect("свой род потерялся");
    assert!(place >= 3, "предпосылка теста неверна: свой род и так в тройке");
    assert_eq!(lines[place].count, 1);
}

#[test]
fn the_board_groups_by_lineage_and_ranks_the_strongest_first() {
    let mut small = Genome::starter_of(1);
    small.generation = 2;
    let mut big = Genome::starter_of(7);
    big.push_part(PartKind::basic(PartFamily::Spike));

    let organisms = vec![seen(&small), seen(&big), seen(&big)];
    let lines = tally(&organisms, Some(1));
    assert_eq!(lines.len(), 2, "роды не сгруппированы");
    assert_eq!(lines[0].lineage, 7, "многочисленный род не первый");
    assert_eq!(lines[0].count, 2);
    assert_eq!(lines[0].best_parts, 4);
    assert!(lines[1].is_mine, "свой род не отмечен");
    assert_eq!(lines[1].best_generation, 2);
}

#[test]
fn ties_keep_the_order_lineages_first_appeared() {
    let organisms = vec![(5u64, 3usize, 0u16), (9, 3, 1), (5, 2, 4), (9, 1, 0), (2, 8, 0)];
    let lines = tally(&organisms, None);
    let order: Vec<u64> = lines.iter().map(|l| l.lineage).collect();
    assert_eq!(order, vec![5, 9, 2]);
    assert_eq!((lines[0].count, lines[0].best_parts, lines[0].best_generation), (2, 3, 4));
    assert!(lines.iter().all(|l| !l.is_mine));
    assert!(tally(&[], Some(1)).is_empty());
}

fn line(lineage: u64, count: usize, best_parts: usize, is_mine: bool) -> cellborn::crest::Line {
    cellborn::crest::Line { lineage, count, best_parts, best_generation: 0, is_mine }
}

#[test]
fn the_small_board_shows_three_and_then_ones_own() {
    let lines = vec![
        line(1, 5, 9, false),
        line(2, 4, 3, false),
        line(3, 3, 3, false),
        line(4, 2, 3, false),
        line(99, 1, 3, true),
    ];
    let text = top_board_text(&lines, Some(99));
    let expected = format!(
        "СИЛЬНЕЙШИЕ РОДА       L — все\n1. {}  ×5  до 9 частей\n2. {}  ×4  до 3 частей\n3. {}  ×3  до 3 частей\n…\n5. {}  ×1  до 3 частей  ←\n",
        Crest::of(1).label(1),
        Crest::of(2).label(2),
        Crest::of(3).label(3),
        Crest::of(99).label(99),
    );
    assert_eq!(text, expected);

    // Among the three: marked in place and not repeated below.
    let mut mine_first = lines.clone();
    mine_first[0].is_mine = true;
    mine_first[4].is_mine = false;
    let text = top_board_text(&mine_first, Some(1));
    assert!(text.contains(&format!("1. {}  ×5  до 9 частей  ←\n", Crest::of(1).label(1))));
    assert!(!text.contains('…'));
    assert_eq!(text.lines().count(), 4);
    assert_eq!(top_board_text(&Vec::new(), None), "СИЛЬНЕЙШИЕ РОДА       L — все\n");
}
