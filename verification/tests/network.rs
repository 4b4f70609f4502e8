use cellborn::network::{
    discovery_probe, is_probe, parse_reply, reply_text, tick_duration, DISCOVERY_PORT, SERVER_PORT,
    TICK_RATE_HZ,
};

#[test]
fn a_reply_is_understood_and_points_at_the_game_port() {
    let bytes = b"CELLBORN!15555|2|48|0.2.0";
    let server = parse_reply(bytes).expect("ответ не разобран");
    // Play on the game port, not on the one the answer came from.
    assert_eq!(server.port, 5555);
    assert_eq!(server.players, 2);
    assert_eq!(server.organisms, 48);
    assert_eq!(server.version, "0.2.0");
}

#[test]
fn rubbish_is_ignored_quietly() {
    for junk in [
        "привет".as_bytes(),
        &b"CELLBORN!1"[..],
        "CELLBORN!1не-число|1|1|x".as_bytes(),
        &[0xff, 0xfe, 0x00][..],
    ] {
        assert!(parse_reply(junk).is_none(), "мусор принят за сервер: {junk:?}");
    }
}

#[test]
fn a_written_reply_reads_back() {
    let text = reply_text(7777, 3, 120, "0.2.0");
    assert_eq!(text, "CELLBORN!17777|3|120|0.2.0");
    let reply = parse_reply(text.as_bytes()).expect("own reply not understood");
    assert_eq!(reply.port, 7777);
    assert_eq!(reply.players, 3);
    assert_eq!(reply.organisms, 120);
    assert_eq!(reply.version, "0.2.0");
}

#[test]
fn the_version_ends_at_the_next_bar() {
    let text = reply_text(5555, 0, 0, "1.0|beta");
    let reply = parse_reply(text.as_bytes()).expect("reply not understood");
    assert_eq!(reply.version, "1.0");
    let bare = parse_reply(b"CELLBORN!15555|1|2").expect("three fields are enough");
    assert_eq!(bare.version, "?");
}

#[test]
fn unreadable_counts_read_as_zero() {
    let reply = parse_reply(b"CELLBORN!15555|x|y|0.1.0").expect("port was readable");
    assert_eq!(reply.players, 0);
    assert_eq!(reply.organisms, 0);
}

#[test]
fn probes_are_recognised_and_nothing_else() {
    let probe = discovery_probe();
    assert_eq!(probe, b"CELLBORN?1".to_vec());
    assert!(is_probe(&probe));
    assert!(is_probe(b"CELLBORN?1 and more"));
    assert!(!is_probe(b"CELLBORN?"));
    assert!(!is_probe(b"CELLBORN!1"));
    assert!(!is_probe(b""));
}

#[test]
fn a_tick_is_a_sixty_fourth_of_a_second() {
    assert_eq!(TICK_RATE_HZ, 64);
    assert_eq!(tick_duration().as_nanos(), 15_625_000);
    assert_eq!(DISCOVERY_PORT, SERVER_PORT + 1);
}

#[test]
fn a_found_server_is_labelled_with_what_goes_on_there() {
    let reply = parse_reply(b"CELLBORN!15555|2|48|0.2.0").unwrap();
    assert_eq!(reply.label("192.168.1.7:5555"), "192.168.1.7:5555   игроков 2   особей 48   v0.2.0");
}
