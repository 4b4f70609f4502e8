use cellborn::config::{config_entries, config_file_text, limit_lines, Applied, ConfigItem, ServerLimits, CONFIG_NAME};
use cellborn::genome::MAX_PARTS;

fn read(text: &str, limits: &mut ServerLimits) -> Vec<(String, String)> {
    let entries = config_entries(text);
    let unknown = limits.apply_all(&entries);
    unknown
        .iter()
        .map(|&i| (entries[i].key.iter().collect(), entries[i].value.iter().collect()))
        .collect()
}

#[test]
fn parses_values_and_ignores_comments() {
    let mut config = ServerLimits::defaults();
    let rest = read(
        "# комментарий\nmax_organisms = 120\n\nmax_colony_size=7  # и тут\nport = 6000\n\
         base_attack = 4.5\n",
        &mut config,
    );
    assert_eq!(config.max_organisms, 120);
    assert_eq!(config.max_colony_size, 7);
    assert_eq!(config.port, 6000);
    // The fractional settings are left for their own reader, value intact.
    assert_eq!(rest, vec![("base_attack".to_string(), "4.5".to_string())]);
    assert_eq!(rest[0].1.parse::<f32>().unwrap(), 4.5);
}

#[test]
fn keeps_previous_value_when_a_line_is_garbage() {
    let mut config = ServerLimits::defaults();
    let rest = read("max_organisms = много\nbase_upkeep = чуть-чуть\n", &mut config);
    assert_eq!(config.max_organisms, 70);
    assert_eq!(config, ServerLimits::defaults());
    assert_eq!(rest, vec![("base_upkeep".to_string(), "чуть-чуть".to_string())]);
    assert!(rest[0].1.parse::<f32>().is_err());
}

#[test]
fn part_limit_is_clamped_to_the_genome_ceiling() {
    let mut config = ServerLimits::defaults();
    read("max_parts = 5000\n", &mut config);
    config.sanitize();
    assert_eq!(config.max_parts, MAX_PARTS);

    read("max_parts = 30\nwild_max_parts = 90\n", &mut config);
    config.sanitize();
    assert_eq!(config.max_parts, 30);
    assert_eq!(config.wild_max_parts, 30, "дикие не могут превысить общий предел");
}

#[test]
fn sanitising_a_broken_world_makes_it_playable() {
    let mut config = ServerLimits::defaults();
    read("max_organisms = 0\nmax_colony_size = 0\nmax_parts = 1\nwild_max_parts = 0\n", &mut config);
    assert_eq!(config.max_organisms, 0);
    config.sanitize();
    assert_eq!(config.max_organisms, 1);
    assert_eq!(config.max_colony_size, 1);
    assert_eq!(config.max_parts, 3);
    assert_eq!(config.wild_max_parts, 3);
    let before = config;
    config.sanitize();
    assert_eq!(config, before, "sanitising twice changed something");
}

#[test]
fn each_answer_of_apply() {
    let mut config = ServerLimits::defaults();
    let key: Vec<char> = "port".chars().collect();
    assert_eq!(config.apply(&key, &"6001".chars().collect::<Vec<_>>()), Applied::Taken);
    assert_eq!(config.port, 6001);
    assert_eq!(config.apply(&key, &"70000".chars().collect::<Vec<_>>()), Applied::Unreadable);
    assert_eq!(config.port, 6001, "an out-of-range port replaced the old one");
    assert_eq!(config.apply(&key, &"-1".chars().collect::<Vec<_>>()), Applied::Unreadable);
    let other: Vec<char> = "tick_rate".chars().collect();
    assert_eq!(config.apply(&other, &"1".chars().collect::<Vec<_>>()), Applied::Unknown);
    assert_eq!(config.port, 6001);
}

#[test]
fn lines_without_equals_say_nothing() {
    let entries = config_entries("просто текст\n  = 5\nkey =\n#port = 1\r\nwild_target = 12\r\n");
    let pairs: Vec<(String, String)> = entries
        .iter()
        .map(|e| (e.key.iter().collect(), e.value.iter().collect()))
        .collect();
    assert_eq!(
        pairs,
        vec![
            ("".to_string(), "5".to_string()),
            ("key".to_string(), "".to_string()),
            ("wild_target".to_string(), "12".to_string()),
        ]
    );
    assert_eq!(CONFIG_NAME, "cellborn-server.cfg");
}

#[test]
fn every_whole_number_setting_is_readable() {
    let text = "port = 1\nmax_organisms = 2\nmax_colony_size = 3\nmax_parts = 4\nfood_target = 5\n\
                corpse_nutrients = 6\npoints_per_kill = 7\naggression_threshold = 8\n\
                kin_split_threshold = 9\npoints_per_season = 10\nwild_target = 11\nwild_max_parts = 12\n";
    let mut config = ServerLimits::defaults();
    let rest = read(text, &mut config);
    assert!(rest.is_empty());
    assert_eq!(
        (config.port, config.max_organisms, config.max_colony_size, config.max_parts),
        (1, 2, 3, 4)
    );
    assert_eq!((config.food_target, config.corpse_nutrients, config.points_per_kill), (5, 6, 7));
    assert_eq!((config.aggression_threshold, config.kin_split_threshold), (8, 9));
    assert_eq!((config.points_per_season, config.wild_target, config.wild_max_parts), (10, 11, 12));
}

#[test]
fn written_file_round_trips() {
    let written = ServerLimits {
        port: 7777,
        max_organisms: 99,
        points_per_kill: 9,
        ..ServerLimits::defaults()
    };
    let lines = limit_lines(&written);
    assert_eq!(lines.len(), 12);
    assert_eq!(lines[0], "port = 7777");
    assert_eq!(lines[1], "max_organisms = 99");
    // Comments and fractional settings between the lines change nothing.
    let text = format!("# header\n{}\nbase_attack = 3.25\n", lines.join("\n# doc\n"));
    let mut parsed = ServerLimits::defaults();
    let rest = read(&text, &mut parsed);
    assert_eq!(parsed, written);
    assert_eq!(rest, vec![("base_attack".to_string(), "3.25".to_string())]);
}

#[test]
fn every_whole_number_setting_is_written() {
    let lines = limit_lines(&ServerLimits::defaults());
    let keys: Vec<&str> = lines.iter().map(|l| l.split(" = ").next().unwrap()).collect();
    assert_eq!(
        keys,
        vec![
            "port", "max_organisms", "max_colony_size", "max_parts", "food_target",
            "corpse_nutrients", "points_per_kill", "aggression_threshold", "kin_split_threshold",
            "points_per_season", "wild_target", "wild_max_parts"
        ]
    );
    assert_eq!(lines[3], "max_parts = 100");
}

fn layout(fraction_value: &str) -> Vec<ConfigItem> {
    let mut items = vec![ConfigItem::Section("сеть".to_string())];
    for k in 0..12 {
        items.push(ConfigItem::Whole(k, format!("описание {k}")));
        if k == 3 {
            items.push(ConfigItem::Fraction(
                "base_attack".to_string(),
                fraction_value.to_string(),
                "Урон в секунду".to_string(),
            ));
        }
    }
    items
}

#[test]
fn the_written_file_reads_back_whole() {
    let written = ServerLimits { port: 7777, max_organisms: 99, points_per_kill: 9, ..ServerLimits::defaults() };
    let text = config_file_text(&written, &layout("3.25"));
    assert!(text.starts_with("# Настройки сервера Cellborn.\n"));
    assert!(text.contains("\n# --- сеть ---\n"));
    assert!(text.contains("\n# описание 0\nport = 7777\n"));
    let mut parsed = ServerLimits::defaults();
    let rest = read(&text, &mut parsed);
    assert_eq!(parsed, written);
    assert_eq!(rest, vec![("base_attack".to_string(), "3.25".to_string())]);
    assert_eq!(rest[0].1.parse::<f32>().unwrap(), 3.25);
}

#[test]
fn every_setting_is_written_with_a_comment() {
    let text = config_file_text(&ServerLimits::defaults(), &layout("1.5"));
    for line in limit_lines(&ServerLimits::defaults()) {
        assert!(text.contains(&line), "в файле нет строки {line}");
    }
    let documented = text.lines().filter(|l| l.starts_with("# ") && l.len() > 4).count();
    assert!(documented >= 13, "не у каждой настройки есть описание");
}
