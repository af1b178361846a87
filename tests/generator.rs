use rinput::descriptor::{EventDescriptor, EV_KEY};
use rinput::generate::{
    generate, get_key_from_str, key_lookup_result, parse_key_names, KeyError,
};

fn press(time: u128, code: u16) -> EventDescriptor {
    EventDescriptor::new(time, EV_KEY, code, 1)
}

fn release(time: u128, code: u16) -> EventDescriptor {
    EventDescriptor::new(time, EV_KEY, code, 0)
}

#[test]
fn generate_no_keys_gives_empty_session() {
    let rec = generate(&Vec::new(), 1000, 1000).unwrap();
    assert!(rec.event_list.is_empty());
    assert_eq!(rec.device.keys, None);
}

#[test]
fn generate_one_key_raises_initial_delay() {
    let rec = generate(&vec![30], 1000, 500).unwrap();
    assert_eq!(rec.event_list, vec![press(1000, 30), release(1100, 30)]);
    assert_eq!(rec.device.keys, Some(vec![30]));
}

#[test]
fn generate_two_keys_spaced_by_delta() {
    let rec = generate(&vec![30, 48], 500, 1000).unwrap();
    assert_eq!(
        rec.event_list,
        vec![press(1000, 30), release(1100, 30), press(1500, 48), release(1650, 48)]
    );
}

#[test]
fn generate_rounds_release_up() {
    let rec = generate(&vec![2, 3], 1, 1003).unwrap();
    // 1003 * 1.1 = 1103.3 and 1004 * 1.1 = 1104.4, both rounded up.
    assert_eq!(
        rec.event_list,
        vec![press(1003, 2), release(1104, 2), press(1004, 3), release(1105, 3)]
    );
}

#[test]
fn generate_keeps_large_initial_delay() {
    let rec = generate(&vec![30], 10, 2000).unwrap();
    assert_eq!(rec.event_list, vec![press(2000, 30), release(2200, 30)]);
}

#[test]
fn generate_repeated_key_is_declared_once() {
    let rec = generate(&vec![30, 30], 100, 1000).unwrap();
    assert_eq!(rec.event_list.len(), 4);
    assert_eq!(rec.device.keys, Some(vec![30]));
}

#[test]
fn generate_refuses_times_past_u128() {
    assert!(generate(&vec![30], 0, u128::MAX).is_none());
    assert!(generate(&vec![30], 0, u128::MAX / 11 * 10).is_some());
}

#[test]
fn key_names_resolve_to_codes() {
    assert_eq!(get_key_from_str("KEY_ESC"), Ok(1));
    assert_eq!(get_key_from_str("KEY_A"), Ok(30));
    assert_eq!(get_key_from_str("KEY_LEFTCTRL"), Ok(29));
    assert_eq!(get_key_from_str("BTN_TRIGGER_HAPPY40"), Ok(0x2e7));
}

#[test]
fn unknown_key_name_is_reported() {
    assert_eq!(
        get_key_from_str("KEY_FOOBAR"),
        Err(KeyError::UnknownKeySymbol("KEY_FOOBAR".to_string()))
    );
}

#[test]
fn lookup_result_follows_table_answer() {
    assert_eq!(key_lookup_result("KEY_X", Some(45)), Ok(45));
    assert_eq!(
        key_lookup_result("nope", None),
        Err(KeyError::UnknownKeySymbol("nope".to_string()))
    );
}

#[test]
fn key_list_parses_in_order() {
    let lines = vec!["KEY_H".to_string(), "KEY_I".to_string(), "KEY_ENTER".to_string()];
    assert_eq!(parse_key_names(&lines), Ok(vec![35, 23, 28]));
}

#[test]
fn key_list_reports_first_unknown_line() {
    let lines = vec!["KEY_H".to_string(), "bad".to_string(), "".to_string()];
    assert_eq!(parse_key_names(&lines), Err(KeyError::UnknownKeySymbol("bad".to_string())));
}
