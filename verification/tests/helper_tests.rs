use hplink::helpers::{char_to_hp_char, get_unique_path, path_candidate};
use std::cell::RefCell;
use hplink::text::{push_decimal, push_hex};

#[test]
fn ascii_is_kept() {
    assert_eq!(char_to_hp_char('A'), 0x41);
    assert_eq!(char_to_hp_char(' '), 0x20);
    assert_eq!(char_to_hp_char('~'), 0x7e);
    assert_eq!(char_to_hp_char('\0'), 0);
}

#[test]
fn latin_1_upper_half_maps_to_itself() {
    assert_eq!(char_to_hp_char('\u{a0}'), 0xa0);
    assert_eq!(char_to_hp_char('é'), 0xe9);
    assert_eq!(char_to_hp_char('ÿ'), 0xff);
    assert_eq!(char_to_hp_char('«'), 0xab);
}

#[test]
fn symbols_with_codes_of_their_own() {
    assert_eq!(char_to_hp_char('▒'), 0x7f);
    assert_eq!(char_to_hp_char('▽'), 0x82);
    assert_eq!(char_to_hp_char('Σ'), 0x85);
    assert_eq!(char_to_hp_char('▶'), 0x86);
    assert_eq!(char_to_hp_char('π'), 0x87);
    assert_eq!(char_to_hp_char('𝛼'), 0x8c);
    assert_eq!(char_to_hp_char('→'), 0x8d);
    assert_eq!(char_to_hp_char('←'), 0x8e);
    assert_eq!(char_to_hp_char('↓'), 0x8f);
    assert_eq!(char_to_hp_char('↑'), 0x90);
    assert_eq!(char_to_hp_char('γ'), 0x91);
    assert_eq!(char_to_hp_char('δ'), 0x92);
    assert_eq!(char_to_hp_char('ε'), 0x93);
    assert_eq!(char_to_hp_char('η'), 0x94);
    assert_eq!(char_to_hp_char('θ'), 0x95);
    assert_eq!(char_to_hp_char('λ'), 0x96);
    assert_eq!(char_to_hp_char('ρ'), 0x97);
    assert_eq!(char_to_hp_char('σ'), 0x98);
    assert_eq!(char_to_hp_char('τ'), 0x99);
    assert_eq!(char_to_hp_char('ω'), 0x9a);
    assert_eq!(char_to_hp_char('Δ'), 0x9b);
    assert_eq!(char_to_hp_char('Π'), 0x9c);
    assert_eq!(char_to_hp_char('Ω'), 0x9d);
    assert_eq!(char_to_hp_char('■'), 0x9e);
}

#[test]
fn low_byte_below_127_decides_first() {
    assert_eq!(char_to_hp_char('√'), 0x1a);
    assert_eq!(char_to_hp_char('∡'), 0x21);
    assert_eq!(char_to_hp_char('∞'), 0x1e);
    assert_eq!(char_to_hp_char('≤'), 0x64);
    assert_eq!(char_to_hp_char('\u{100}'), 0);
    assert_eq!(char_to_hp_char('\u{141}'), 0x41);
}

#[test]
fn unknown_characters_give_zero() {
    assert_eq!(char_to_hp_char('\u{7f}'), 0);
    assert_eq!(char_to_hp_char('\u{80}'), 0);
    assert_eq!(char_to_hp_char('\u{9f}'), 0);
    assert_eq!(char_to_hp_char('\u{1ff}'), 0);
    assert_eq!(char_to_hp_char('€'), 0);
    assert_eq!(char_to_hp_char('\u{10ffff}'), 0);
}

#[test]
fn output_name_candidates() {
    assert_eq!(path_candidate("out/FILE", 0), "out/FILE");
    assert_eq!(path_candidate("out/FILE", 1), "out/FILE.1");
    assert_eq!(path_candidate("out/FILE", 10), "out/FILE.10");
    assert_eq!(path_candidate("", 7), ".7");
    assert_eq!(path_candidate("a", u32::MAX), "a.4294967295");
}

#[test]
fn digits_are_appended() {
    let mut s = String::from("x");
    push_hex(&mut s, 0);
    assert_eq!(s, "x0");
    push_hex(&mut s, 0xdead_beef);
    assert_eq!(s, "x0DEADBEEF");
    let mut d = String::new();
    push_decimal(&mut d, 0);
    push_decimal(&mut d, 1203);
    push_decimal(&mut d, u64::MAX);
    assert_eq!(d, "0120318446744073709551615");
}

#[test]
fn free_name_is_the_first_candidate_that_is_not_taken() {
    let none: Vec<&str> = vec![];
    assert_eq!(get_unique_path("FILE", |n: &str| none.contains(&n)), Some("FILE".to_string()));
    let some = vec!["FILE", "FILE.1", "FILE.3"];
    assert_eq!(get_unique_path("FILE", |n: &str| some.contains(&n)), Some("FILE.2".to_string()));
    let other = vec!["FILE.1"];
    assert_eq!(get_unique_path("FILE", |n: &str| other.contains(&n)), Some("FILE".to_string()));
}

#[test]
fn candidates_are_asked_about_in_order_and_once() {
    let asked: RefCell<Vec<String>> = RefCell::new(Vec::new());
    let found = get_unique_path("a/b", |n: &str| {
        asked.borrow_mut().push(n.to_string());
        asked.borrow().len() < 4
    });
    assert_eq!(found, Some("a/b.3".to_string()));
    assert_eq!(*asked.borrow(), vec!["a/b", "a/b.1", "a/b.2", "a/b.3"]);
}
