use cellborn::genome::Genome;
use cellborn::panel::{family_header, family_header_of, upgrade_card};
use cellborn::parts::{PartFamily, PartKind, PartLevel};

#[test]
fn the_upgrade_card_says_what_the_step_is() {
    let plain = PartKind::basic(PartFamily::Spike);
    let next = plain.upgraded().unwrap();
    assert_eq!(
        upgrade_card(Some(7), Some(plain), None),
        format!(
            "5  ПОДНЯТЬ УРОВЕНЬ  [7 очк.]\n{} → {}\nдешевле, чем растить второй такой же",
            PartLevel::Plain.name(),
            next.level.name()
        )
    );
    let perfect = PartKind::new(PartFamily::Spike, PartLevel::Perfect);
    assert_eq!(
        upgrade_card(None, Some(perfect), Some("уже совершенный")),
        "5  ПОДНЯТЬ УРОВЕНЬ  [- очк.]\nуже совершенный\nуже совершенный"
    );
    assert_eq!(
        upgrade_card(None, None, Some("нет тела")),
        "5  ПОДНЯТЬ УРОВЕНЬ  [- очк.]\nсначала отрасти орган\nнет тела"
    );
}

#[test]
fn the_card_follows_the_body() {
    let mut genome = Genome::starter_of(3);
    genome.mutation_points = 20;
    genome.push_part(PartKind::cheap(PartFamily::Gill));
    let current = genome.weakest_of(PartFamily::Gill).map(|i| genome.parts[i].kind);
    let refusal = genome.upgrade_error(PartFamily::Gill, 4);
    let card = upgrade_card(Some(4), current, refusal);
    assert!(card.contains(&format!("{} → {}", PartLevel::Cheap.name(), PartLevel::Plain.name())));
}

#[test]
fn the_family_header_shows_price_and_count() {
    let mut genome = Genome::starter_of(1);
    genome.push_part(PartKind::basic(PartFamily::Spike));
    let header = family_header_of(Some(&genome), PartFamily::Spike);
    let expected = format!(
        "{} — {}   ({}, базовая цена {}, в теле: 1/6)",
        PartFamily::Spike.name().to_uppercase(),
        PartFamily::Spike.tradeoff(),
        if PartFamily::Spike.is_external() { "растёт снаружи" } else { "органелла внутри" },
        PartKind::basic(PartFamily::Spike).cost()
    );
    assert_eq!(header, expected);
    assert!(family_header_of(None, PartFamily::Gill).contains("в теле: 0/6"));
    assert!(family_header("ЖАБРЫ", PartFamily::Gill, 2).starts_with("ЖАБРЫ — "));
}
