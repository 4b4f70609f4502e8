use cellborn::menu::{server_rows, AddressInput, TypedKey, ADDRESS_LIMIT};
use cellborn::settings::Server;

fn typed(input: &mut AddressInput, text: &str) {
    input.press(&TypedKey::Characters(text.to_string()));
}

#[test]
fn only_what_an_address_is_made_of_is_typed() {
    let mut input = AddressInput::new();
    assert_eq!(input.shown(), "впиши адрес: 192.168.1.10 или 192.168.1.10:5555");
    typed(&mut input, "192.168.1.10");
    typed(&mut input, " ");
    typed(&mut input, "я");
    typed(&mut input, ":5555");
    assert_eq!(input.text, "192.168.1.10:5555");
    assert_eq!(input.shown(), "192.168.1.10:5555▏");
    input.press(&TypedKey::Backspace);
    assert_eq!(input.text, "192.168.1.10:555");
    input.press(&TypedKey::Other);
    assert_eq!(input.text, "192.168.1.10:555");
}

#[test]
fn the_field_stops_at_its_limit() {
    let mut input = AddressInput::new();
    typed(&mut input, &"a".repeat(100));
    assert_eq!(input.text.len(), ADDRESS_LIMIT);
    typed(&mut input, "b");
    assert_eq!(input.text.len(), ADDRESS_LIMIT);
    input.press(&TypedKey::Backspace);
    typed(&mut input, "bc");
    assert!(input.text.ends_with("ab"));
}

#[test]
fn the_error_goes_away_when_the_player_types() {
    let mut input = AddressInput { text: "::".to_string(), error: "не похоже на адрес" };
    assert_eq!(input.shown(), "::▏   — не похоже на адрес");
    typed(&mut input, "!");
    assert_eq!(input.error, "не похоже на адрес", "nothing was taken");
    typed(&mut input, "1");
    assert_eq!(input.error, "");
    let mut input = AddressInput { text: String::new(), error: "x" };
    input.press(&TypedKey::Backspace);
    assert_eq!(input.error, "");
    assert_eq!(input.text, "");
}

#[test]
fn found_servers_come_first_and_nothing_is_listed_twice() {
    let found = vec![("192.168.1.7:5555".to_string(), "192.168.1.7:5555   игроков 2".to_string())];
    let saved = vec![
        Server { address: "192.168.1.7:5555".to_string(), name: "Дома".to_string() },
        Server { address: "10.0.0.1:5555".to_string(), name: String::new() },
        Server { address: "127.0.0.1:5555".to_string(), name: "Локальный".to_string() },
    ];
    let rows = server_rows(&found, &saved, "127.0.0.1:5555");
    let expected: Vec<(String, String)> = vec![
        ("192.168.1.7:5555".into(), "в сети:  192.168.1.7:5555   игроков 2".into()),
        ("10.0.0.1:5555".into(), "сохранённый:  10.0.0.1:5555".into()),
        ("127.0.0.1:5555".into(), "Локальный:  127.0.0.1:5555".into()),
    ];
    assert_eq!(rows, expected);
    let rows = server_rows(&Vec::new(), &Vec::new(), "127.0.0.1:5555");
    assert_eq!(rows, vec![("127.0.0.1:5555".to_string(), "по умолчанию:  127.0.0.1:5555".to_string())]);
}
