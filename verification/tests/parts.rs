use cellborn::parts::{cycle_family, PartFamily, PartKind, PartLevel, Perk, FAMILY_COUNT, KIND_COUNT, LEVEL_COUNT};

/// The catalogue holds 88 mutations, 22 families at four levels each, and
/// not two hundred: that count belonged to organs that came in ten variants
/// each, which the four levels replaced. Every mutation is listed once,
/// costs something and finds its way back from its index.
#[test]
fn the_catalogue_is_complete_and_indexed_once() {
    let all = PartKind::all();
    assert_eq!(all.len(), 88);
    assert_eq!(KIND_COUNT, 88);
    assert_eq!(KIND_COUNT, FAMILY_COUNT * LEVEL_COUNT);
    for (i, a) in all.iter().enumerate() {
        for b in all.iter().skip(i + 1) {
            assert_ne!(a, b, "мутация повторяется");
        }
    }
    for (i, kind) in all.iter().enumerate() {
        assert_eq!(kind.index(), i);
        assert_eq!(PartKind::from_index(kind.index()), *kind);
        assert!(kind.cost() >= 1, "{} стоит 0 очков", kind.name());
    }
    assert_eq!(PartKind::from_index(KIND_COUNT + 5), PartKind::from_index(5), "индексы идут по кругу");
}

#[test]
fn slot_matches_all() {
    for slot in 0..FAMILY_COUNT {
        assert_eq!(PartFamily::from_slot(slot).slot(), slot);
    }
    assert_eq!(PartFamily::from_slot(0), PartFamily::Flagellum);
    assert_eq!(PartFamily::from_slot(FAMILY_COUNT - 1), PartFamily::Membrane);
    assert_eq!(PartFamily::Gill.slot(), 7);
}

#[test]
fn prices_follow_the_level_table() {
    // Base price times the level multiplier, rounded half up, never zero.
    assert_eq!(PartKind::new(PartFamily::Membrane, PartLevel::Cheap).cost(), 1);
    assert_eq!(PartKind::new(PartFamily::Spike, PartLevel::Cheap).cost(), 2);
    assert_eq!(PartKind::new(PartFamily::Spike, PartLevel::Plain).cost(), 3);
    assert_eq!(PartKind::new(PartFamily::Spike, PartLevel::Fine).cost(), 7);
    assert_eq!(PartKind::new(PartFamily::Spike, PartLevel::Perfect).cost(), 14);
    assert_eq!(PartKind::new(PartFamily::Nematocyst, PartLevel::Perfect).cost(), 23);
    assert_eq!(PartKind::new(PartFamily::Nematocyst, PartLevel::Fine).cost(), 11);
    assert_eq!(PartKind::new(PartFamily::Chemoreceptor, PartLevel::Perfect).cost(), 5);
}

#[test]
fn levels_climb_one_step_at_a_time() {
    assert_eq!(PartLevel::Cheap.next(), Some(PartLevel::Plain));
    assert_eq!(PartLevel::Perfect.next(), None);
    let k = PartKind::cheap(PartFamily::Gill);
    assert_eq!(k.upgraded(), Some(PartKind::basic(PartFamily::Gill)));
    assert_eq!(PartKind::new(PartFamily::Gill, PartLevel::Perfect).upgraded(), None);
    for step in 0..LEVEL_COUNT {
        assert_eq!(PartLevel::from_step(step).step(), step);
    }
}

#[test]
fn names_read_as_the_atlas_writes_them() {
    assert_eq!(PartKind::basic(PartFamily::Flagellum).name(), "Жгутик (обычный)");
    assert_eq!(PartKind::new(PartFamily::Gill, PartLevel::Perfect).name(), "Жабра (совершенный)");
    assert_eq!(
        PartKind::cheap(PartFamily::Cilia).tradeoff(),
        "+немного скорости, дёшево · слабее, зато по карману сразу"
    );
    assert!(PartFamily::Spike.is_external());
    assert!(!PartFamily::Gill.is_external());
    assert_eq!(Perk::Squid.name(), "Спрут");
    assert_eq!(Perk::Lineage.index(), 1);
}

#[test]
fn family_tabs_go_round() {
    assert_eq!(cycle_family(0, false), FAMILY_COUNT - 1);
    assert_eq!(cycle_family(FAMILY_COUNT - 1, true), 0);
    assert_eq!(cycle_family(5, true), 6);
    for i in 0..FAMILY_COUNT {
        assert_eq!(cycle_family(cycle_family(i, true), false), i);
    }
}
