use cellborn::settings::{parse_settings, remember, server_line, settings_file_text, Gain, Server, REMEMBERED_SERVERS, SETTINGS_NAME};

fn addresses(servers: &[Server]) -> Vec<&str> {
    servers.iter().map(|s| s.address.as_str()).collect()
}

#[test]
fn remembering_the_same_server_moves_it_up_instead_of_duplicating() {
    let mut servers: Vec<Server> = Vec::new();
    remember(&mut servers, "a:1", "А");
    remember(&mut servers, "b:2", "Б");
    remember(&mut servers, "a:1", "А заново");
    assert_eq!(servers.len(), 2);
    assert_eq!(servers[0].address, "a:1");
    assert_eq!(servers[0].name, "А заново");
    assert_eq!(servers[1].address, "b:2");
}

#[test]
fn only_eight_servers_are_remembered() {
    let mut servers: Vec<Server> = Vec::new();
    for i in 0..10 {
        remember(&mut servers, &format!("host{i}:5555"), "");
    }
    assert_eq!(servers.len(), REMEMBERED_SERVERS);
    assert_eq!(servers[0].address, "host9:5555");
    assert_eq!(servers[7].address, "host2:5555");
    // Going back to an older one lifts it without losing anyone else.
    remember(&mut servers, "host5:5555", "снова");
    assert_eq!(
        addresses(&servers),
        vec![
            "host5:5555", "host9:5555", "host8:5555", "host7:5555", "host6:5555", "host4:5555",
            "host3:5555", "host2:5555"
        ]
    );
}

#[test]
fn unknown_keys_are_kept() {
    let text = "volume = 0.5\nтембр_музыки = звонкий\n";
    let parsed = parse_settings(text);
    assert_eq!(parsed.gains.len(), 1);
    assert_eq!(parsed.gains[0].0, Gain::Volume);
    assert!((parsed.gains[0].1.parse::<f32>().unwrap() - 0.5).abs() < 0.01);
    assert!(
        parsed.unknown.iter().any(|l| l == "тембр_музыки = звонкий"),
        "чужая настройка потеряна"
    );
}

#[test]
fn garbage_does_not_reset_the_volume() {
    let parsed = parse_settings("volume = очень громко\nmusic = 2.5\n");
    assert_eq!(parsed.gains.len(), 2);
    assert_eq!(parsed.gains[0], (Gain::Volume, "очень громко".to_string()));
    assert_eq!(parsed.gains[1], (Gain::Music, "2.5".to_string()));
    // The reader of the sliders keeps the old value for what does not read.
    assert!(parsed.gains[0].1.parse::<f32>().is_err());
}

#[test]
fn servers_are_read_with_their_names() {
    let parsed = parse_settings(
        "# comment\nserver = 127.0.0.1:5555 Локальный  сервер  \nserver = 10.0.0.2:5555\nserver =   \n\
         effects = 0.25 # tail\n",
    );
    assert_eq!(parsed.servers.len(), 2);
    assert_eq!(parsed.servers[0].address, "127.0.0.1:5555");
    assert_eq!(parsed.servers[0].name, "Локальный  сервер");
    assert_eq!(parsed.servers[1].address, "10.0.0.2:5555");
    assert_eq!(parsed.servers[1].name, "");
    assert_eq!(parsed.gains, vec![(Gain::Effects, "0.25".to_string())]);
    assert!(parsed.unknown.is_empty());
    assert_eq!(SETTINGS_NAME, "cellborn.cfg");
}

#[test]
fn settings_survive_a_round_trip() {
    let mut servers: Vec<Server> = Vec::new();
    remember(&mut servers, "192.168.1.10:5555", "Дома");
    remember(&mut servers, "127.0.0.1:5555", "Локальный");
    let text = settings_file_text(
        &format!("{:.2}", 0.33f32),
        &format!("{:.2}", 0.25f32),
        &format!("{:.2}", 0.8f32),
        &servers,
        &Vec::new(),
    );
    let parsed = parse_settings(&text);
    assert!((parsed.gains[0].1.parse::<f32>().unwrap() - 0.33).abs() < 0.01);
    assert!((parsed.gains[1].1.parse::<f32>().unwrap() - 0.25).abs() < 0.01);
    assert_eq!(parsed.servers.len(), 2);
    // The last remembered comes first.
    assert_eq!(parsed.servers[0].address, "127.0.0.1:5555");
    assert_eq!(parsed.servers[0].name, "Локальный");
    assert_eq!(parsed.servers[1].name, "Дома");
    assert!(parsed.unknown.is_empty());
    assert!(!text.contains("не знает"), "no section for unknown lines when there are none");
}

#[test]
fn unknown_lines_are_written_back() {
    let parsed = parse_settings("volume = 0.5\nтембр_музыки = звонкий\n");
    let text = settings_file_text("0.50", "0.50", "0.90", &parsed.servers, &parsed.unknown);
    assert!(text.contains("тембр_музыки = звонкий"), "чужая настройка потеряна");
    let again = parse_settings(&text);
    assert_eq!(again.unknown, vec!["тембр_музыки = звонкий".to_string()]);
    assert_eq!(
        again.gains,
        vec![
            (Gain::Volume, "0.50".to_string()),
            (Gain::Music, "0.50".to_string()),
            (Gain::Effects, "0.90".to_string())
        ]
    );
}

#[test]
fn a_server_line_is_address_then_name() {
    let s = Server { address: "10.0.0.1:5555".to_string(), name: "Клуб".to_string() };
    assert_eq!(server_line(&s), "server = 10.0.0.1:5555 Клуб");
    let unnamed = Server { address: "10.0.0.1:5555".to_string(), name: String::new() };
    let parsed = parse_settings(&server_line(&unnamed));
    assert_eq!(parsed.servers.len(), 1);
    assert_eq!(parsed.servers[0].name, "");
}
