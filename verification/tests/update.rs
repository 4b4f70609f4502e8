use cellborn::update::{
    asset_for, busy, button_label, choose_release, download_complete, first_line, is_protected,
    status_line, Asset, Release, Stage,
};
use cellborn::version::{full, short};

#[test]
fn the_players_config_is_protected_whatever_its_case() {
    for name in [
        "cellborn-server.cfg",
        "Cellborn-Server.CFG",
        "CELLBORN-SERVER.cfg",
        "cellborn.cfg",
        "Cellborn.CFG",
    ] {
        assert!(is_protected(name), "{name} перезаписался бы обновлением");
    }
    assert!(!is_protected("cellborn-server"), "сам сервер обновляться обязан");
    assert!(!is_protected("cellborn.cfg.bak"));
    assert!(!is_protected("ÇELLBORN.cfg"));
}

fn assets() -> Vec<Asset> {
    vec![
        Asset { name: "notes.txt".to_string(), url: "u0".to_string(), size: 10 },
        Asset {
            name: asset_for(false).to_string(),
            url: "https://example/linux.zip".to_string(),
            size: 1234,
        },
    ]
}

#[test]
fn a_newer_release_with_our_archive_is_offered() {
    let r = choose_release("v0.3.0", "Что нового\nещё", &assets(), asset_for(false), "0.2.0");
    let release = r.expect("no error").expect("an update");
    assert_eq!(release.tag, "v0.3.0");
    assert_eq!(release.version, "0.3.0");
    assert_eq!(release.notes, "Что нового\nещё");
    assert_eq!(release.asset_url, "https://example/linux.zip");
    assert_eq!(release.size, 1234);
}

#[test]
fn every_answer_of_choose_release() {
    assert_eq!(
        choose_release("", "", &assets(), asset_for(false), "0.2.0").err().unwrap(),
        "в ответе GitHub нет тега релиза"
    );
    assert!(choose_release("v0.2.0", "", &assets(), asset_for(false), "0.2.0").unwrap().is_none());
    assert!(choose_release("0.1.0", "", &assets(), asset_for(false), "0.2.0").unwrap().is_none());
    assert_eq!(
        choose_release("v0.3.0", "", &assets(), asset_for(true), "0.2.0").err().unwrap(),
        "в релизе v0.3.0 нет файла cellborn-windows-x86_64.zip"
    );
}

#[test]
fn a_short_download_is_an_error() {
    assert!(download_complete(100, 100).is_ok());
    assert!(download_complete(0, 5).is_ok(), "unknown size cannot be checked");
    assert_eq!(download_complete(100, 40).unwrap_err(), "скачалось 40 байт вместо 100");
}

#[test]
fn the_button_says_where_the_updater_is() {
    assert_eq!(button_label(&Stage::Idle, 0, 0), "ПРОВЕРИТЬ ОБНОВЛЕНИЕ");
    assert_eq!(button_label(&Stage::Checking, 0, 0), "ПРОВЕРЯЮ...");
    assert_eq!(button_label(&Stage::UpToDate, 0, 0), "ПРОВЕРИТЬ ОБНОВЛЕНИЕ");
    let release = Release {
        tag: "v0.3.0".to_string(),
        version: "0.3.0".to_string(),
        notes: String::new(),
        asset_url: String::new(),
        size: 0,
    };
    assert_eq!(button_label(&Stage::Available(release), 0, 0), "ОБНОВИТЬ ДО v0.3.0");
    assert_eq!(button_label(&Stage::Downloading, 50, 200), "СКАЧИВАЮ 25 %");
    assert_eq!(button_label(&Stage::Downloading, 3 * 1_048_576 + 5, 0), "СКАЧИВАЮ 3 МБ");
    assert_eq!(button_label(&Stage::Installed("x".to_string()), 0, 0), "ПЕРЕЗАПУСТИ ИГРУ");
    assert_eq!(button_label(&Stage::Failed("x".to_string()), 0, 0), "ПРОВЕРИТЬ ОБНОВЛЕНИЕ");
    assert!(busy(&Stage::Checking));
    assert!(busy(&Stage::Downloading));
    assert!(!busy(&Stage::Idle));
}

#[test]
fn the_first_line_of_the_notes_is_shown_short() {
    assert_eq!(first_line("\n   \n  Новые органы  \nвторая"), "Новые органы");
    assert_eq!(first_line(""), "");
    let long = "я".repeat(100);
    assert_eq!(first_line(&long).chars().count(), 70);
}

#[test]
fn each_system_gets_its_archive() {
    assert_eq!(asset_for(true), "cellborn-windows-x86_64.zip");
    assert_eq!(asset_for(false), "cellborn-linux-x86_64.zip");
}

#[test]
fn the_status_line_explains_the_stage() {
    assert_eq!(status_line(&Stage::Idle, &full(), "0"), format!("версия {}", full()));
    assert_eq!(status_line(&Stage::Checking, &full(), "0"), "спрашиваю GitHub...");
    assert_eq!(
        status_line(&Stage::UpToDate, &full(), "0"),
        format!("установлена последняя версия — {}", full())
    );
    let quiet = Release {
        tag: "v0.3.0".to_string(),
        version: "0.3.0".to_string(),
        notes: "  \n".to_string(),
        asset_url: String::new(),
        size: 0,
    };
    assert_eq!(
        status_line(&Stage::Available(quiet), &full(), "12"),
        format!("доступна v0.3.0 (12 МБ), у тебя {}", short())
    );
    let noted = Release {
        tag: "v0.3.0".to_string(),
        version: "0.3.0".to_string(),
        notes: "\nНовые органы\nи прочее".to_string(),
        asset_url: String::new(),
        size: 0,
    };
    assert_eq!(status_line(&Stage::Available(noted), &full(), "7"), "v0.3.0 (7 МБ): Новые органы");
    assert_eq!(
        status_line(&Stage::Downloading, &full(), "0"),
        "качаю комплект; настройки сервера не тронутся"
    );
    assert_eq!(
        status_line(&Stage::Installed("v0.3.0".to_string()), &full(), "0"),
        "v0.3.0 установлена. Закрой игру и запусти заново"
    );
    assert_eq!(status_line(&Stage::Failed("нет сети".to_string()), &full(), "0"), "не вышло: нет сети");
}

#[test]
fn a_large_count_is_fine_when_not_downloading() {
    assert_eq!(button_label(&Stage::Idle, u64::MAX, 0), "ПРОВЕРИТЬ ОБНОВЛЕНИЕ");
    assert_eq!(button_label(&Stage::Downloading, u64::MAX, 0), format!("СКАЧИВАЮ {} МБ", u64::MAX / 1_048_576));
}
