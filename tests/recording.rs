use rinput::descriptor::{create_device_descriptor, DeviceEvent, EventDescriptor, EV_KEY};
use rinput::record::{
    Accumulator, Listener, Msg, Received, SessionError, TerminationState, KEY_ESC, KEY_LEFTCTRL,
};

fn key(code: u16, value: i32) -> DeviceEvent {
    DeviceEvent { event_type: EV_KEY, code, value }
}

#[test]
fn chord_is_terminal_only_with_both_keys_held() {
    let mut s = TerminationState::exit_chord();
    assert!(!s.is_terminal());
    s.observe(key(KEY_ESC, 1));
    assert!(!s.is_terminal());
    s.observe(key(KEY_LEFTCTRL, 1));
    assert!(s.is_terminal());
}

#[test]
fn chord_release_of_either_key_resets() {
    let mut s = TerminationState::exit_chord();
    s.observe(key(KEY_LEFTCTRL, 1));
    s.observe(key(KEY_ESC, 1));
    assert!(s.is_terminal());
    s.observe(key(KEY_ESC, 0));
    assert!(!s.is_terminal());
    s.observe(key(KEY_ESC, 2));
    assert!(s.is_terminal());
    s.observe(key(KEY_LEFTCTRL, 0));
    assert!(!s.is_terminal());
}

#[test]
fn chord_ignores_other_keys_and_classes() {
    let mut s = TerminationState::new(30, 48);
    s.observe(key(30, 1));
    s.observe(DeviceEvent { event_type: 4, code: 48, value: 1 });
    s.observe(key(1, 1));
    assert!(!s.is_terminal());
    s.observe(key(48, 1));
    assert!(s.is_terminal());
}

#[test]
fn chord_pressed_keys_in_sequence_without_overlap_never_terminal() {
    let mut s = TerminationState::exit_chord();
    s.observe(key(KEY_ESC, 1));
    s.observe(key(KEY_ESC, 0));
    s.observe(key(KEY_LEFTCTRL, 1));
    assert!(!s.is_terminal());
}

#[test]
fn listener_sends_each_event_then_exit_on_chord() {
    let mut l = Listener::new(TerminationState::exit_chord());
    let m = l.on_event(5, key(30, 1));
    assert_eq!(m.len(), 1);
    assert!(matches!(m[0], Msg::Event(e) if e == EventDescriptor::new(5, EV_KEY, 30, 1)));
    assert!(l.on_event(7, key(KEY_ESC, 1)).len() == 1);
    let m = l.on_event(9, key(KEY_LEFTCTRL, 1));
    assert_eq!(m.len(), 2);
    assert!(matches!(m[0], Msg::Event(e) if e == EventDescriptor::new(9, EV_KEY, KEY_LEFTCTRL, 1)));
    assert!(matches!(m[1], Msg::Exit));
    assert!(l.on_event(12, key(KEY_ESC, 0)).is_empty());
}

#[test]
fn listener_times_never_go_down() {
    let mut l = Listener::new(TerminationState::exit_chord());
    let mut times = Vec::new();
    for (t, code) in [(10u128, 30u16), (4, 31), (12, 32), (12, 33), (11, 34)] {
        for m in l.on_event(t, key(code, 1)) {
            if let Msg::Event(e) = m {
                times.push(e.time);
            }
        }
    }
    assert_eq!(times, vec![10, 10, 12, 12, 12]);
}

#[test]
fn accumulator_assembles_recording_in_arrival_order() {
    let acc = Accumulator::new();
    let device = create_device_descriptor(&vec![30]);
    let acc = match acc.receive(Msg::Device(device)) {
        Ok(Received::Pending(a)) => a,
        _ => panic!("descriptor not kept"),
    };
    let first = EventDescriptor::new(1, EV_KEY, 30, 1);
    let second = EventDescriptor::new(3, EV_KEY, 30, 0);
    let acc = match acc.receive(Msg::Event(first)) {
        Ok(Received::Pending(a)) => a,
        _ => panic!("event not kept"),
    };
    let acc = match acc.receive(Msg::Event(second)) {
        Ok(Received::Pending(a)) => a,
        _ => panic!("event not kept"),
    };
    match acc.receive(Msg::Exit) {
        Ok(Received::Complete(rec)) => {
            assert_eq!(rec.event_list, vec![first, second]);
            assert_eq!(rec.device.keys, Some(vec![30]));
        }
        _ => panic!("recording not completed"),
    }
}

#[test]
fn accumulator_exit_without_descriptor_is_incomplete() {
    let acc = Accumulator::new();
    let acc = match acc.receive(Msg::Event(EventDescriptor::new(1, EV_KEY, 30, 1))) {
        Ok(Received::Pending(a)) => a,
        _ => panic!("event not kept"),
    };
    assert!(matches!(acc.receive(Msg::Exit), Err(SessionError::IncompleteSession)));
}

#[test]
fn pipeline_session_times_are_ordered() {
    let mut l = Listener::new(TerminationState::exit_chord());
    let mut msgs = vec![Msg::Device(create_device_descriptor(&vec![1, 29]))];
    let inputs = [(3u128, key(30, 1)), (2, key(30, 0)), (8, key(KEY_ESC, 1)), (6, key(KEY_LEFTCTRL, 1)), (9, key(30, 1))];
    for (t, e) in inputs {
        msgs.extend(l.on_event(t, e));
    }
    let mut acc = Accumulator::new();
    let mut done = None;
    for m in msgs {
        match acc.receive(m) {
            Ok(Received::Pending(a)) => acc = a,
            Ok(Received::Complete(rec)) => {
                done = Some(rec);
                break;
            }
            Err(_) => panic!("session failed"),
        }
    }
    let rec = done.expect("chord did not end the session");
    let times: Vec<u128> = rec.event_list.iter().map(|e| e.time).collect();
    assert_eq!(times, vec![3, 3, 8, 8]);
}

#[test]
fn listener_open_sends_descriptor_first() {
    let (l, first) = Listener::open(TerminationState::exit_chord(), create_device_descriptor(&vec![30]));
    assert!(matches!(first, Msg::Device(ref d) if d.keys == Some(vec![30])));
    assert_eq!(l, Listener::new(TerminationState::exit_chord()));
    assert_eq!(l.last_time, 0);
    assert!(!l.finished);
}

#[test]
fn listener_stamps_each_record_with_its_reading() {
    let mut l = Listener::new(TerminationState::exit_chord());
    let mut times = Vec::new();
    for t in [0u128, 0, 7, 15, 1000] {
        for m in l.on_event(t, key(30, 1)) {
            if let Msg::Event(e) = m {
                times.push(e.time);
            }
        }
    }
    assert_eq!(times, vec![0, 0, 7, 15, 1000]);
}
