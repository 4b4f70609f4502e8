use cellborn::genome::Genome;
use cellborn::heredity::{memory_file_text, memory_line_text, parse_memory, parse_parts, parts_text, propose};
use cellborn::parts::{PartFamily, PartKind, PartLevel};

fn chars(s: &str) -> Vec<char> {
    s.chars().collect()
}

#[test]
fn memory_survives_a_restart() {
    let mut body = Genome::starter_of(1);
    body.push_part(PartKind::new(PartFamily::Gill, PartLevel::Perfect));
    body.push_part(PartKind::new(PartFamily::Spike, PartLevel::Fine));
    let kinds: Vec<PartKind> = body.parts.iter().map(|p| p.kind).collect();
    let text = memory_file_text(&vec![(format!("{:.1}", 180.0f32), kinds.clone())]);
    let restored = parse_memory(&text);
    assert_eq!(restored.len(), 1);
    assert!((restored[0].lifetime.parse::<f32>().unwrap() - 180.0).abs() < 0.2);
    // The organs come back the same, levels included.
    let parts = &restored[0].parts;
    assert!(parts.iter().any(|k| k.family == PartFamily::Gill && k.level == PartLevel::Perfect));
    assert!(parts.iter().any(|k| k.family == PartFamily::Spike && k.level == PartLevel::Fine));
    assert_eq!(*parts, kinds);
}

#[test]
fn the_memory_file_keeps_order_and_comments() {
    let a = vec![PartKind::basic(PartFamily::Mouth)];
    let b = vec![PartKind::new(PartFamily::Gill, PartLevel::Perfect), PartKind::cheap(PartFamily::Spike)];
    let text = memory_file_text(&vec![("300.0".to_string(), a.clone()), ("25.5".to_string(), b.clone())]);
    assert!(text.starts_with("# Наследственная память сервера.\n"));
    assert!(text.ends_with(&format!("lifetime = 300.0 | {}\nlifetime = 25.5 | {}\n", parts_text(&a), parts_text(&b))));
    let restored = parse_memory(&text);
    assert_eq!(restored.len(), 2);
    assert_eq!((restored[0].lifetime.as_str(), &restored[0].parts), ("300.0", &a));
    assert_eq!((restored[1].lifetime.as_str(), &restored[1].parts), ("25.5", &b));
    assert_eq!(memory_line_text("1", &a), format!("lifetime = 1 | {}", parts_text(&a)));
}

#[test]
fn parts_are_written_as_slot_and_step() {
    let parts = vec![
        PartKind::new(PartFamily::Gill, PartLevel::Perfect),
        PartKind::new(PartFamily::Membrane, PartLevel::Cheap),
    ];
    assert_eq!(parts_text(&parts), "7:3,21:0");
    assert_eq!(parts_text(&[]), "");
    assert_eq!(parse_parts(&chars(" 7 : 3 ,junk, 99:1, 21:0,")), parts);
}

#[test]
fn a_broken_file_is_ignored_quietly() {
    for junk in [
        "мусор",
        "lifetime = не-число | 1:1",
        "lifetime = 50 |",
        "lifetime = 50 | 999:999",
        "",
    ] {
        let memory = parse_memory(junk);
        // A line whose number does not read is dropped where the number is read.
        let kept: Vec<_> = memory.iter().filter(|m| m.lifetime.parse::<f32>().is_ok()).collect();
        assert!(kept.is_empty(), "мусор «{junk}» принят за память");
    }
}

#[test]
fn comments_and_other_lines_are_skipped() {
    let text = "# header\nlifetime = 12.5 | 0:1, 3:2 # comment\nsomething else\n\nlifetime=3|14:0\r\n";
    let memory = parse_memory(text);
    assert_eq!(memory.len(), 2);
    assert_eq!(memory[0].lifetime, "12.5");
    assert_eq!(memory[0].parts, vec![PartKind::basic(PartFamily::Flagellum), PartKind::new(PartFamily::Mouth, PartLevel::Fine)]);
    assert_eq!(memory[1].lifetime, "3");
    assert_eq!(memory[1].parts, vec![PartKind::cheap(PartFamily::Spike)]);
}

#[test]
fn offspring_inherit_from_the_remembered() {
    let ancestor: Vec<PartKind> = (0..6).map(|_| PartKind::new(PartFamily::Carapace, PartLevel::Fine)).collect();
    let memory = vec![ancestor];
    let inherited = (0..200u64)
        .map(|roll| propose(&memory, 1, roll * 2_654_435_761))
        .filter(|genome| genome.count_family(PartFamily::Carapace) >= 5)
        .count();
    assert!(inherited > 50, "предок почти не наследуется: {inherited} из 200");
}

#[test]
fn chance_builds_from_scratch() {
    // A roll below 25 out of a hundred ignores the memory altogether.
    let memory = vec![vec![PartKind::basic(PartFamily::Ram); 4]];
    let g = propose(&memory, 9, 5);
    assert_eq!(g.lineage, 9);
    assert_eq!(g.count_family(PartFamily::Ram), 0);
    assert_eq!(g.parts.len(), 3 + 5 % 3);
    let empty: Vec<Vec<PartKind>> = Vec::new();
    assert_eq!(propose(&empty, 9, 300).parts.len(), Genome::starter().parts.len());
}

#[test]
fn an_edit_removes_upgrades_or_adds_exactly_one_thing() {
    let memory = vec![vec![PartKind::cheap(PartFamily::Gill); 3]];
    // roll % 100 = 99 inherits; (roll >> 40) % 3 picks the edit.
    for choice in 0..3u64 {
        let roll = (choice << 40) + 99;
        let g = propose(&memory, 1, roll);
        match choice {
            0 => assert_eq!(g.parts.len(), 7),
            1 => assert_eq!(g.parts.len(), 6),
            _ => {
                assert_eq!(g.parts.len(), 5);
                assert_eq!(g.count_family(PartFamily::Gill), 2);
            }
        }
    }
}
