use vstd::prelude::*;

verus! {

/// Event class of synchronisation markers.
pub const EV_SYN: u16 = 0;
/// Event class of keys and buttons.
pub const EV_KEY: u16 = 1;
/// Event class of relative axes.
pub const EV_REL: u16 = 2;
/// Event class of absolute axes.
pub const EV_ABS: u16 = 3;
/// Event class of miscellaneous events.
pub const EV_MSC: u16 = 4;
/// Event class of switches.
pub const EV_SW: u16 = 5;
/// Event class of LEDs.
pub const EV_LED: u16 = 17;
/// Event class of sounds.
pub const EV_SND: u16 = 18;
/// Event class of key-repeat settings.
pub const EV_REP: u16 = 20;
/// Event class of force-feedback effects.
pub const EV_FF: u16 = 21;

/// What a device reports about itself: the event classes it supports and,
/// for each class that has them, its codes (`None` where it reported none).
pub struct DeviceCapabilities {
    pub events: Vec<u16>,
    pub keys: Option<Vec<u16>>,
    pub relative_axes: Option<Vec<u16>>,
    pub absolute_axes: Option<Vec<u16>>,
    pub switches: Option<Vec<u16>>,
    pub leds: Option<Vec<u16>>,
    pub sounds: Option<Vec<u16>>,
    pub ff: Option<Vec<u16>>,
}

/// The capabilities of a device as a recording keeps them. A class's codes
/// are present only when the class is among `events` and has at least one
/// code; otherwise the field is `None`, never an empty list.
#[derive(Clone, Debug)]
pub struct DeviceDescriptor {
    pub events: Vec<u16>,
    pub keys: Option<Vec<u16>>,
    pub relative_axes: Option<Vec<u16>>,
    pub absolute_axes: Option<Vec<u16>>,
    pub switches: Option<Vec<u16>>,
    pub leds: Option<Vec<u16>>,
    pub sounds: Option<Vec<u16>>,
    pub ff: Option<Vec<u16>>,
}

/// The codes of an optional list, as a sequence.
pub open spec fn codes_view(field: Option<Vec<u16>>) -> Option<Seq<u16>> {
    match field {
        Some(v) => Some(v@),
        None => None,
    }
}

/// The field that a descriptor keeps for `class`, given the classes a device
/// supports and the codes it reported for that class.
pub open spec fn class_field(events: Seq<u16>, class: u16, codes: Option<Seq<u16>>) -> Option<
    Seq<u16>,
> {
    match codes {
        Some(c) => if events.contains(class) && c.len() > 0 {
            Some(c)
        } else {
            None
        },
        None => None,
    }
}

/// A present field has codes and belongs to a supported class.
pub open spec fn field_wf(events: Seq<u16>, class: u16, field: Option<Seq<u16>>) -> bool {
    match field {
        Some(c) => c.len() > 0 && events.contains(class),
        None => true,
    }
}

impl DeviceDescriptor {
    pub open spec fn wf(&self) -> bool {
        &&& field_wf(self.events@, EV_KEY, codes_view(self.keys))
        &&& field_wf(self.events@, EV_REL, codes_view(self.relative_axes))
        &&& field_wf(self.events@, EV_ABS, codes_view(self.absolute_axes))
        &&& field_wf(self.events@, EV_SW, codes_view(self.switches))
        &&& field_wf(self.events@, EV_LED, codes_view(self.leds))
        &&& field_wf(self.events@, EV_SND, codes_view(self.sounds))
        &&& field_wf(self.events@, EV_FF, codes_view(self.ff))
    }

    /// The descriptor of a device that reports `caps`: the same classes, and
    /// for each class the codes reported, where the class is supported and
    /// has any.
    pub fn from_capabilities(caps: DeviceCapabilities) -> (d: Self)
        ensures
            d.wf(),
            d.events@ == caps.events@,
            codes_view(d.keys) == class_field(caps.events@, EV_KEY, codes_view(caps.keys)),
            codes_view(d.relative_axes) == class_field(
                caps.events@,
                EV_REL,
                codes_view(caps.relative_axes),
            ),
            codes_view(d.absolute_axes) == class_field(
                caps.events@,
                EV_ABS,
                codes_view(caps.absolute_axes),
            ),
            codes_view(d.switches) == class_field(caps.events@, EV_SW, codes_view(caps.switches)),
            codes_view(d.leds) == class_field(caps.events@, EV_LED, codes_view(caps.leds)),
            codes_view(d.sounds) == class_field(caps.events@, EV_SND, codes_view(caps.sounds)),
            codes_view(d.ff) == class_field(caps.events@, EV_FF, codes_view(caps.ff)),
    {
        let keys = flatten_codes(&caps.events, EV_KEY, caps.keys);
        let relative_axes = flatten_codes(&caps.events, EV_REL, caps.relative_axes);
        let absolute_axes = flatten_codes(&caps.events, EV_ABS, caps.absolute_axes);
        let switches = flatten_codes(&caps.events, EV_SW, caps.switches);
        let leds = flatten_codes(&caps.events, EV_LED, caps.leds);
        let sounds = flatten_codes(&caps.events, EV_SND, caps.sounds);
        let ff = flatten_codes(&caps.events, EV_FF, caps.ff);
        DeviceDescriptor {
            events: caps.events,
            keys,
            relative_axes,
            absolute_axes,
            switches,
            leds,
            sounds,
            ff,
        }
    }

    /// The key codes that a virtual device built from this descriptor must
    /// declare: the descriptor's keys, or none.
    pub fn virtual_keys(&self) -> (r: Vec<u16>)
        ensures
            r@ == match codes_view(self.keys) {
                Some(c) => c,
                None => Seq::<u16>::empty(),
            },
    {
        match &self.keys {
            Some(k) => k.clone(),
            None => Vec::new(),
        }
    }
}

/// Whether `code` is in `v`.
pub fn contains_code(v: &Vec<u16>, code: u16) -> (r: bool)
    ensures
        r == v@.contains(code),
{
    let mut i: usize = 0;
    while i < v.len()
        invariant
            i <= v.len(),
            forall|j: int| 0 <= j < i ==> v@[j] != code,
        decreases v.len() - i,
    {
        if v[i] == code {
            return true;
        }
        i = i + 1;
    }
    false
}

/// Keeps the codes of `class` when the class is supported and has codes.
fn flatten_codes(events: &Vec<u16>, class: u16, codes: Option<Vec<u16>>) -> (r: Option<Vec<u16>>)
    ensures
        codes_view(r) == class_field(events@, class, codes_view(codes)),
{
    match codes {
        Some(c) => {
            if c.len() > 0 && contains_code(events, class) {
                Some(c)
            } else {
                None
            }
        },
        None => None,
    }
}

/// The key codes of a sequence, each once, in the order of first appearance.
pub open spec fn distinct(s: Seq<u16>) -> Seq<u16>
    decreases s.len(),
{
    if s.len() == 0 {
        seq![]
    } else {
        let d = distinct(s.drop_last());
        if d.contains(s.last()) {
            d
        } else {
            d.push(s.last())
        }
    }
}

/// The event classes that a descriptor for generated key events declares:
/// synchronisation, key, relative, absolute, miscellaneous, LED and repeat.
pub open spec fn key_list_classes() -> Seq<u16> {
    seq![EV_SYN, EV_KEY, EV_REL, EV_ABS, EV_MSC, EV_LED, EV_REP]
}

/// `d` exposes exactly the keys of `keys`, each once in the order of first
/// appearance (no key field at all for an empty list), under the classes of
/// `key_list_classes`, and no other codes.
pub open spec fn describes_key_list(d: DeviceDescriptor, keys: Seq<u16>) -> bool {
    &&& d.events@ == key_list_classes()
    &&& codes_view(d.keys) == (if keys.len() > 0 {
        Some(distinct(keys))
    } else {
        None
    })
    &&& d.relative_axes is None
    &&& d.absolute_axes is None
    &&& d.switches is None
    &&& d.leds is None
    &&& d.sounds is None
    &&& d.ff is None
}

/// A descriptor that exposes only the given keys, each once, under a fixed
/// set of event classes that a virtual device needs declared.
pub fn create_device_descriptor(keys: &Vec<u16>) -> (d: DeviceDescriptor)
    ensures
        d.wf(),
        describes_key_list(d, keys@),
{
    let events: Vec<u16> = vec![EV_SYN, EV_KEY, EV_REL, EV_ABS, EV_MSC, EV_LED, EV_REP];
    let mut unique: Vec<u16> = Vec::new();
    let mut i: usize = 0;
    while i < keys.len()
        invariant
            i <= keys.len(),
            unique@ == distinct(keys@.take(i as int)),
        decreases keys.len() - i,
    {
        let k = keys[i];
        assert(keys@.take(i + 1).drop_last() =~= keys@.take(i as int));
        if !contains_code(&unique, k) {
            unique.push(k);
        }
        i = i + 1;
    }
    assert(keys@.take(keys.len() as int) =~= keys@);
    assert(events@ =~= key_list_classes());
    assert(events@[1] == EV_KEY);
    let key_field = if unique.len() > 0 {
        Some(unique)
    } else {
        None
    };
    DeviceDescriptor {
        events,
        keys: key_field,
        relative_axes: None,
        absolute_axes: None,
        switches: None,
        leds: None,
        sounds: None,
        ff: None,
    }
}

/// A recorded or generated session: the device it came from and its events.
#[derive(Clone, Debug)]
pub struct Recording {
    pub device: DeviceDescriptor,
    pub event_list: Vec<EventDescriptor>,
}

/// One raw device event: its class (`event_type`), its code within that
/// class, and its value (for keys: 0 released, 1 pressed, 2 repeated).
#[derive(Clone, Copy, Debug, PartialEq, Eq, Structural)]
pub struct DeviceEvent {
    pub event_type: u16,
    pub code: u16,
    pub value: i32,
}

/// A device event with the time at which it happened, in milliseconds from
/// the start of the session that produced it.
#[derive(Clone, Copy, Debug, PartialEq, Eq, Structural)]
pub struct EventDescriptor {
    pub time: u128,
    pub event_type: u16,
    pub code: u16,
    pub value: i32,
}

impl EventDescriptor {
    pub fn new(time: u128, event_type: u16, code: u16, value: i32) -> (e: Self)
        ensures
            e == (EventDescriptor { time, event_type, code, value }),
    {
        EventDescriptor { time, event_type, code, value }
    }

    /// The device event that this record carries, without its time.
    pub open spec fn device_event(self) -> DeviceEvent {
        DeviceEvent { event_type: self.event_type, code: self.code, value: self.value }
    }
}

/// A batch of device events that replay emits together, `time` milliseconds
/// after replay starts.
pub struct Keyframe {
    pub time: u128,
    pub events: Vec<DeviceEvent>,
}

impl View for Keyframe {
    type V = (u128, Seq<DeviceEvent>);

    open spec fn view(&self) -> (u128, Seq<DeviceEvent>) {
        (self.time, self.events@)
    }
}

/// The keyframes of a replay, in the order in which they are emitted.
pub struct Timeline {
    pub keyframes: Vec<Keyframe>,
}

impl View for Timeline {
    type V = Seq<(u128, Seq<DeviceEvent>)>;

    open spec fn view(&self) -> Seq<(u128, Seq<DeviceEvent>)> {
        self.keyframes@.map_values(|k: Keyframe| k@)
    }
}

/// The timeline of an event list: one keyframe per record, in the same order,
/// holding that record's event at that record's time.
pub open spec fn timeline_of(events: Seq<EventDescriptor>) -> Seq<(u128, Seq<DeviceEvent>)> {
    events.map_values(|e: EventDescriptor| (e.time, seq![e.device_event()]))
}

/// The flat event list that a timeline emits: the events of each keyframe in
/// turn, each stamped with its keyframe's time.
pub open spec fn event_list_of(frames: Seq<(u128, Seq<DeviceEvent>)>) -> Seq<EventDescriptor>
    decreases frames.len(),
{
    if frames.len() == 0 {
        seq![]
    } else {
        let (time, batch) = frames.last();
        event_list_of(frames.drop_last()) + batch.map_values(
            |d: DeviceEvent|
                EventDescriptor { time, event_type: d.event_type, code: d.code, value: d.value },
        )
    }
}

impl Timeline {
    /// Builds the timeline of an event list, one keyframe per record, so that
    /// records with equal times keep their order.
    pub fn from_events(events: Vec<EventDescriptor>) -> (t: Timeline)
        ensures
            t@ == timeline_of(events@),
    {
        let mut keyframes: Vec<Keyframe> = Vec::new();
        let mut i: usize = 0;
        while i < events.len()
            invariant
                i <= events.len(),
                keyframes.len() == i,
                forall|j: int|
                    0 <= j < i ==> #[trigger] keyframes@[j]@ == (
                        events@[j].time,
                        seq![events@[j].device_event()],
                    ),
            decreases events.len() - i,
        {
            let ev = events[i];
            let mut batch: Vec<DeviceEvent> = Vec::new();
            batch.push(DeviceEvent { event_type: ev.event_type, code: ev.code, value: ev.value });
            assert(batch@ =~= seq![ev.device_event()]);
            keyframes.push(Keyframe { time: ev.time, events: batch });
            i = i + 1;
        }
        let t = Timeline { keyframes };
        assert(t@ =~= timeline_of(events@));
        t
    }
}

/// Turning an event list into a timeline loses nothing: the timeline has one
/// keyframe per record, and the events it emits, stamped with their keyframes'
/// times, are the original records in their original order.
pub proof fn lemma_timeline_round_trip(events: Seq<EventDescriptor>)
    ensures
        timeline_of(events).len() == events.len(),
        event_list_of(timeline_of(events)) == events,
    decreases events.len(),
{
    if events.len() > 0 {
        let rest = events.drop_last();
        lemma_timeline_round_trip(rest);
        assert(timeline_of(events).drop_last() =~= timeline_of(rest));
        let e = events.last();
        let stamped = seq![e.device_event()].map_values(
            |d: DeviceEvent|
                EventDescriptor { time: e.time, event_type: d.event_type, code: d.code, value: d.value },
        );
        assert(stamped =~= seq![e]);
        assert(rest + seq![e] =~= events);
    }
}

/// A well-formed descriptor survives being stored and rebuilt: handing its own
/// fields back to `from_capabilities` yields the same classes and, for every
/// class, the same codes.
pub proof fn lemma_descriptor_reload(d: DeviceDescriptor)
    requires
        d.wf(),
    ensures
        class_field(d.events@, EV_KEY, codes_view(d.keys)) == codes_view(d.keys),
        class_field(d.events@, EV_REL, codes_view(d.relative_axes)) == codes_view(d.relative_axes),
        class_field(d.events@, EV_ABS, codes_view(d.absolute_axes)) == codes_view(d.absolute_axes),
        class_field(d.events@, EV_SW, codes_view(d.switches)) == codes_view(d.switches),
        class_field(d.events@, EV_LED, codes_view(d.leds)) == codes_view(d.leds),
        class_field(d.events@, EV_SND, codes_view(d.sounds)) == codes_view(d.sounds),
        class_field(d.events@, EV_FF, codes_view(d.ff)) == codes_view(d.ff),
{
}

} // verus!
