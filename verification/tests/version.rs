use cellborn::version::{full, is_newer, numbers, short, signature, VERSION};

#[test]
fn compares_by_number_not_by_string() {
    assert!(is_newer("0.2.0", "0.1.9"));
    assert!(is_newer("1.0.0", "0.9.9"));
    // Exactly the case that makes the comparison numeric rather than textual.
    assert!(is_newer("0.10.0", "0.9.0"));
    assert!(!is_newer("0.9.0", "0.10.0"));
    assert!(!is_newer("0.1.0", "0.1.0"), "та же версия — не новее");
    assert!(!is_newer("0.1.0", "0.1.1"), "старее — не новее");
}

#[test]
fn tolerates_the_shapes_tags_actually_come_in() {
    assert!(is_newer("v0.2.0", "0.1.0"), "тег с ведущей v");
    assert!(is_newer("0.2", "0.1.9"), "две цифры вместо трёх");
    assert!(!is_newer("0.1.0-rc1", "0.1.0"), "предрелиз не новее релиза");
    assert!(is_newer("0.2.0-rc1", "0.1.0"), "но номер всё равно читается");
    // Rubbish must not offer to "update" downwards.
    assert!(!is_newer("не-версия", "0.1.0"));
}

#[test]
fn numbers_reads_each_field() {
    assert_eq!(numbers("1.2.3"), [1, 2, 3]);
    assert_eq!(numbers("  V1.20  "), [1, 20, 0]);
    assert_eq!(numbers("vv3.4.5+build.7"), [3, 4, 5]);
    assert_eq!(numbers("1.x.3"), [1, 0, 3]);
    assert_eq!(numbers(""), [0, 0, 0]);
    // The build suffix starts at the first `+`, even at the very front.
    assert_eq!(numbers("+7.8.9"), [0, 0, 0]);
    assert_eq!(numbers("7.+8.9"), [7, 0, 0]);
    // Past u32 a field does not read at all.
    assert_eq!(numbers("4294967296.1.1"), [0, 1, 1]);
    assert_eq!(numbers("4294967295.1.1"), [4294967295, 1, 1]);
}

#[test]
fn newer_is_a_strict_order_on_examples() {
    let tags = ["0.1.0", "0.1.1", "v0.2.0", "0.10.0", "1.0.0-rc1", "garbage"];
    for a in tags {
        assert!(!is_newer(a, a));
        for b in tags {
            assert!(!(is_newer(a, b) && is_newer(b, a)));
            for c in tags {
                if is_newer(a, b) && is_newer(b, c) {
                    assert!(is_newer(a, c));
                }
            }
        }
    }
}

#[test]
fn signatures_name_the_version() {
    assert_eq!(short(), format!("v{VERSION}"));
    assert_eq!(full(), format!("{VERSION} (-, -)"));
    assert!(!is_newer(VERSION, VERSION));
}

#[test]
fn a_build_is_signed_with_its_stamps() {
    assert_eq!(signature("82403ac", "2026-09-01"), format!("{VERSION} (82403ac, 2026-09-01)"));
    assert_eq!(full(), signature("-", "-"));
}
