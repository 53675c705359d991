//! Cycle keys and the cancel gesture.

use wlr_utils::keys::{
    digit_in, is_cancel, is_white_space, key_or_hint, parse, trim, CycleKeys, Dir, Key,
};

fn key(key: egui::Key) -> Key {
    Key { name: key.name().to_string() }
}

#[test]
fn shift_separates_the_directions_when_both_sit_on_tab() {
    let k = CycleKeys::default();
    assert_eq!(k.dir(&key(egui::Key::Tab), false), Some(Dir::Next));
    assert_eq!(k.dir(&key(egui::Key::Tab), true), Some(Dir::Prev));
    assert_eq!(k.dir(&key(egui::Key::J), false), None);
}

#[test]
fn distinct_keys_mean_what_they_say() {
    let k = CycleKeys { next: key(egui::Key::J), prev: key(egui::Key::K) };
    assert_eq!(k.dir(&key(egui::Key::J), false), Some(Dir::Next));
    assert_eq!(k.dir(&key(egui::Key::J), true), Some(Dir::Next));
    assert_eq!(k.dir(&key(egui::Key::K), false), Some(Dir::Prev));
    assert_eq!(k.dir(&key(egui::Key::Tab), false), None);
}

#[test]
fn key_names_include_egui_aliases_and_bare_characters() {
    assert_eq!(parse("Tab"), Ok(key(egui::Key::Tab)));
    assert_eq!(parse("ArrowDown"), Ok(key(egui::Key::ArrowDown)));
    assert_eq!(parse("Down"), Ok(key(egui::Key::ArrowDown)));
    assert_eq!(parse(" j "), Ok(key(egui::Key::J)));
    assert_eq!(parse("-"), Ok(key(egui::Key::Minus)));
    assert!(parse("nonsense").is_err());
}

#[test]
fn digit_keys_go_by_their_variant_names_too() {
    assert_eq!(parse("Num1"), Ok(key(egui::Key::Num1)));
    assert_eq!(parse("1"), Ok(key(egui::Key::Num1)));
    assert_eq!(parse(" Num0\n"), Ok(key(egui::Key::Num0)));
    assert!(parse("Num").is_err());
    assert!(parse("Numx").is_err());
    assert!(parse("Num10").is_err());
}

#[test]
fn every_variant_name_is_a_key_name() {
    for &k in egui::Key::ALL {
        assert_eq!(parse(&format!("{k:?}")), Ok(key(k)));
        assert_eq!(parse(k.name()), Ok(key(k)));
    }
}

#[test]
fn no_two_keys_share_a_name() {
    for (i, a) in egui::Key::ALL.iter().enumerate() {
        for b in &egui::Key::ALL[..i] {
            assert_ne!(key(*a), key(*b));
        }
    }
}

#[test]
fn digits_are_told_by_their_names() {
    assert_eq!(digit_in("Num7"), Some("7"));
    assert_eq!(digit_in("num7"), None);
    assert_eq!(digit_in("Num77"), None);
    assert_eq!(digit_in("NumA"), None);
    assert_eq!(digit_in("Num\u{663}"), None);
}

#[test]
fn bad_names_get_a_hint() {
    assert_eq!(parse(""), Err("unknown key (try Tab, Down, j, F5)".to_string()));
    assert_eq!(parse("   "), Err("unknown key (try Tab, Down, j, F5)".to_string()));
    assert_eq!(key_or_hint(None), Err("unknown key (try Tab, Down, j, F5)".to_string()));
    assert_eq!(key_or_hint(Some("F5")), Ok(key(egui::Key::F5)));
}

#[test]
fn the_default_is_what_tab_parses_to() {
    let tab = parse("Tab").unwrap();
    assert_eq!(CycleKeys::default(), CycleKeys { next: tab.clone(), prev: tab });
}

#[test]
fn shared_keys_other_than_tab_need_shift_too() {
    let k = CycleKeys { next: key(egui::Key::F5), prev: key(egui::Key::F5) };
    assert_eq!(k.dir(&key(egui::Key::F5), true), Some(Dir::Prev));
    assert_eq!(k.dir(&key(egui::Key::F5), false), Some(Dir::Next));
    let k = CycleKeys { next: key(egui::Key::J), prev: key(egui::Key::K) };
    assert_eq!(k.dir(&key(egui::Key::K), true), Some(Dir::Prev));
}

#[test]
fn whitespace_is_what_it_is_everywhere() {
    for c in '\0'..=char::MAX {
        assert_eq!(is_white_space(c), c.is_whitespace(), "{c:?}");
    }
}

#[test]
fn trimming_takes_all_kinds_of_whitespace() {
    assert_eq!(trim("\u{3000}\t a b \u{a0}\n"), "a b");
    assert_eq!(trim(" \t"), "");
    assert_eq!(trim("x"), "x");
    assert_eq!(trim("\u{200b}x\u{200b} "), "\u{200b}x\u{200b}");
    assert_eq!(trim(trim("  x ")), trim("  x "));
}

#[test]
fn escape_and_its_chord_cancel() {
    let escape = xkeysym::Keysym::Escape.raw();
    let bracket = xkeysym::Keysym::bracketleft.raw();
    assert!(is_cancel(escape, false));
    assert!(is_cancel(escape, true));
    assert!(is_cancel(bracket, true));
    assert!(!is_cancel(bracket, false));
    assert!(!is_cancel(xkeysym::Keysym::bracketright.raw(), true));
    assert!(!is_cancel(0, true));
}
