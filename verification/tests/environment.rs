use cellborn::environment::{Biome, BIOME_COUNT};

#[test]
fn every_biome_has_a_name_and_a_line_about_it() {
    let all = Biome::all();
    assert_eq!(all.len(), BIOME_COUNT);
    assert_eq!(all[0], Biome::Open);
    assert_eq!(Biome::Open.name(), "Открытое море");
    assert_eq!(Biome::Vents.name(), "Термальный разлом");
    assert_eq!(Biome::Brine.hint(), "едкая соль; нужен осморегулятор");
    let names: std::collections::HashSet<&str> = all.iter().map(|b| b.name()).collect();
    assert_eq!(names.len(), BIOME_COUNT, "two biomes share a name");
    for b in all {
        assert!(!b.hint().is_empty());
    }
}
