use rinput::descriptor::{
    create_device_descriptor, DeviceCapabilities, DeviceDescriptor, DeviceEvent, EventDescriptor,
    Timeline, EV_ABS, EV_KEY, EV_LED, EV_REL, EV_SW,
};

fn ev(time: u128, code: u16, value: i32) -> EventDescriptor {
    EventDescriptor::new(time, EV_KEY, code, value)
}

#[test]
fn event_descriptor_new_keeps_fields() {
    let e = EventDescriptor::new(42, 3, 7, -5);
    assert_eq!(e.time, 42);
    assert_eq!(e.event_type, 3);
    assert_eq!(e.code, 7);
    assert_eq!(e.value, -5);
}

#[test]
fn timeline_keeps_count_order_and_fields() {
    let events = vec![ev(10, 30, 1), ev(10, 30, 0), ev(25, 48, 1), ev(40, 48, 0)];
    let t = Timeline::from_events(events.clone());
    assert_eq!(t.keyframes.len(), events.len());
    for (k, e) in t.keyframes.iter().zip(events.iter()) {
        assert_eq!(k.time, e.time);
        assert_eq!(
            k.events,
            vec![DeviceEvent { event_type: e.event_type, code: e.code, value: e.value }]
        );
    }
}

#[test]
fn timeline_of_empty_list_is_empty() {
    let t = Timeline::from_events(Vec::new());
    assert!(t.keyframes.is_empty());
}

#[test]
fn timeline_round_trips_to_event_list() {
    let events = vec![ev(0, 1, 1), ev(5, 29, 1), ev(5, 29, 0), ev(9, 1, 0)];
    let t = Timeline::from_events(events.clone());
    let mut back = Vec::new();
    for k in &t.keyframes {
        for d in &k.events {
            back.push(EventDescriptor::new(k.time, d.event_type, d.code, d.value));
        }
    }
    assert_eq!(back, events);
}

#[test]
fn descriptor_from_capabilities_omits_empty_and_unsupported_classes() {
    let caps = DeviceCapabilities {
        events: vec![0, EV_KEY, EV_REL, EV_LED],
        keys: Some(vec![1, 29, 30]),
        relative_axes: Some(vec![]),
        absolute_axes: Some(vec![0, 1]),
        switches: None,
        leds: Some(vec![0]),
        sounds: None,
        ff: None,
    };
    let d = DeviceDescriptor::from_capabilities(caps);
    assert_eq!(d.events, vec![0, EV_KEY, EV_REL, EV_LED]);
    assert_eq!(d.keys, Some(vec![1, 29, 30]));
    assert_eq!(d.relative_axes, None);
    assert_eq!(d.absolute_axes, None);
    assert_eq!(d.switches, None);
    assert_eq!(d.leds, Some(vec![0]));
    assert_eq!(d.sounds, None);
    assert_eq!(d.ff, None);
}

#[test]
fn descriptor_keeps_each_class_in_its_own_field() {
    let caps = DeviceCapabilities {
        events: vec![EV_ABS, EV_SW],
        keys: None,
        relative_axes: None,
        absolute_axes: Some(vec![0, 1]),
        switches: Some(vec![5]),
        leds: None,
        sounds: None,
        ff: None,
    };
    let d = DeviceDescriptor::from_capabilities(caps);
    assert_eq!(d.absolute_axes, Some(vec![0, 1]));
    assert_eq!(d.switches, Some(vec![5]));
}

#[test]
fn descriptor_reload_is_unchanged() {
    let d = create_device_descriptor(&vec![30, 48]);
    let caps = DeviceCapabilities {
        events: d.events.clone(),
        keys: d.keys.clone(),
        relative_axes: d.relative_axes.clone(),
        absolute_axes: d.absolute_axes.clone(),
        switches: d.switches.clone(),
        leds: d.leds.clone(),
        sounds: d.sounds.clone(),
        ff: d.ff.clone(),
    };
    let again = DeviceDescriptor::from_capabilities(caps);
    assert_eq!(again.events, d.events);
    assert_eq!(again.keys, d.keys);
    assert_eq!(again.relative_axes, d.relative_axes);
    assert_eq!(again.leds, d.leds);
    assert_eq!(again.ff, d.ff);
}

#[test]
fn key_list_descriptor_has_fixed_classes_and_distinct_keys() {
    let d = create_device_descriptor(&vec![30, 48, 30, 1]);
    assert_eq!(d.events, vec![0, 1, 2, 3, 4, 17, 20]);
    assert_eq!(d.keys, Some(vec![30, 48, 1]));
    assert_eq!(d.relative_axes, None);
    assert_eq!(d.ff, None);
    assert_eq!(d.virtual_keys(), vec![30, 48, 1]);
}

#[test]
fn key_list_descriptor_of_no_keys_has_no_key_field() {
    let d = create_device_descriptor(&Vec::new());
    assert_eq!(d.events, vec![0, 1, 2, 3, 4, 17, 20]);
    assert_eq!(d.keys, None);
    assert!(d.virtual_keys().is_empty());
}
