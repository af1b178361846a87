use vstd::prelude::*;
use crate::descriptor::{DeviceDescriptor, DeviceEvent, EventDescriptor, Recording, EV_KEY};

verus! {

/// Code of the Escape key.
pub const KEY_ESC: u16 = 1;
/// Code of the left Control key.
pub const KEY_LEFTCTRL: u16 = 29;

/// Watches two keys, the exit chord; a recording session stops once both are
/// held at the same time.
#[derive(Clone, Copy, Debug, PartialEq, Eq, Structural)]
pub struct TerminationState {
    pub first_code: u16,
    pub second_code: u16,
    pub first_pressed: bool,
    pub second_pressed: bool,
}

impl TerminationState {
    /// The state after `ev`: a key event for one of the chord's codes marks
    /// that key pressed (value other than 0) or released (value 0); every
    /// other event leaves the state as it is.
    pub open spec fn next(self, ev: DeviceEvent) -> TerminationState {
        if ev.event_type != EV_KEY {
            self
        } else {
            TerminationState {
                first_pressed: if ev.code == self.first_code {
                    ev.value != 0
                } else {
                    self.first_pressed
                },
                second_pressed: if ev.code == self.second_code {
                    ev.value != 0
                } else {
                    self.second_pressed
                },
                ..self
            }
        }
    }

    /// The state after each of `events` in turn.
    pub open spec fn after(self, events: Seq<DeviceEvent>) -> TerminationState
        decreases events.len(),
    {
        if events.len() == 0 {
            self
        } else {
            self.after(events.drop_last()).next(events.last())
        }
    }

    pub open spec fn terminal(self) -> bool {
        self.first_pressed && self.second_pressed
    }

    /// A chord of the two given keys, neither of them held.
    pub fn new(first_code: u16, second_code: u16) -> (s: Self)
        ensures
            s == (TerminationState { first_code, second_code, first_pressed: false, second_pressed: false }),
    {
        TerminationState { first_code, second_code, first_pressed: false, second_pressed: false }
    }

    /// The default chord: Escape and left Control.
    pub fn exit_chord() -> (s: Self)
        ensures
            s == TerminationState::new_spec(KEY_ESC, KEY_LEFTCTRL),
    {
        TerminationState::new(KEY_ESC, KEY_LEFTCTRL)
    }

    pub open spec fn new_spec(first_code: u16, second_code: u16) -> TerminationState {
        TerminationState { first_code, second_code, first_pressed: false, second_pressed: false }
    }

    /// Takes one device event into account.
    pub fn observe(&mut self, ev: DeviceEvent)
        ensures
            *final(self) == old(self).next(ev),
    {
        if ev.event_type == EV_KEY {
            if ev.code == self.first_code {
                self.first_pressed = ev.value != 0;
            }
            if ev.code == self.second_code {
                self.second_pressed = ev.value != 0;
            }
        }
    }

    /// Whether both keys of the chord are held.
    pub fn is_terminal(&self) -> (r: bool)
        ensures
            r == self.terminal(),
    {
        self.first_pressed && self.second_pressed
    }
}

/// Whether, after `events`, the key `code` is held: the last key event for
/// that code pressed it (a key with no event yet is not held).
pub open spec fn held(events: Seq<DeviceEvent>, code: u16) -> bool
    decreases events.len(),
{
    if events.len() == 0 {
        false
    } else if events.last().event_type == EV_KEY && events.last().code == code {
        events.last().value != 0
    } else {
        held(events.drop_last(), code)
    }
}

/// Whatever events came before, the chord detector is in its terminal state
/// exactly when both of its keys are held; in particular a release of either
/// key ends the terminal state.
pub proof fn lemma_exit_chord(first_code: u16, second_code: u16, events: Seq<DeviceEvent>)
    ensures
        TerminationState::new_spec(first_code, second_code).after(events).terminal() <==> held(
            events,
            first_code,
        ) && held(events, second_code),
        events.len() > 0 && events.last().event_type == EV_KEY && events.last().value == 0 && (
        events.last().code == first_code || events.last().code == second_code) ==> !TerminationState::new_spec(
            first_code,
            second_code,
        ).after(events).terminal(),
{
    let s = TerminationState::new_spec(first_code, second_code);
    lemma_chord_tracks_keys(s, events);
}

proof fn lemma_chord_tracks_keys(s: TerminationState, events: Seq<DeviceEvent>)
    requires
        !s.first_pressed,
        !s.second_pressed,
    ensures
        s.after(events).first_code == s.first_code,
        s.after(events).second_code == s.second_code,
        s.after(events).first_pressed == held(events, s.first_code),
        s.after(events).second_pressed == held(events, s.second_code),
    decreases events.len(),
{
    if events.len() > 0 {
        lemma_chord_tracks_keys(s, events.drop_last());
    }
}

/// A message from the listener (or from an outside stop request) to the
/// accumulator.
#[derive(Debug)]
pub enum Msg {
    Exit,
    Event(EventDescriptor),
    Device(DeviceDescriptor),
}

/// The records that a message carries: one for an event, none otherwise.
pub open spec fn payload(m: Msg) -> Seq<EventDescriptor> {
    match m {
        Msg::Event(e) => seq![e],
        _ => seq![],
    }
}

/// The records that a run of messages carries, in order.
pub open spec fn events_of(msgs: Seq<Msg>) -> Seq<EventDescriptor>
    decreases msgs.len(),
{
    if msgs.len() == 0 {
        seq![]
    } else {
        events_of(msgs.drop_last()) + payload(msgs.last())
    }
}

/// The records of two runs of messages, one after the other, are the records
/// of the first run followed by those of the second.
pub proof fn lemma_events_of_append(a: Seq<Msg>, b: Seq<Msg>)
    ensures
        events_of(a + b) == events_of(a) + events_of(b),
    decreases b.len(),
{
    if b.len() == 0 {
        assert(a + b =~= a);
        assert(events_of(a) + events_of(b) =~= events_of(a));
    } else {
        lemma_events_of_append(a, b.drop_last());
        assert((a + b).drop_last() =~= a + b.drop_last());
        assert(events_of(a) + (events_of(b.drop_last()) + payload(b.last())) =~= events_of(a)
            + events_of(b.drop_last()) + payload(b.last()));
    }
}

/// Times that never go down along the list.
pub open spec fn non_decreasing(events: Seq<EventDescriptor>) -> bool {
    forall|i: int, j: int| 0 <= i <= j < events.len() ==> #[trigger] events[i].time <= #[trigger] events[j].time
}

/// The device side of a recording session: it stamps each device event with
/// its time and watches for the exit chord. `last_time` is the latest time it
/// gave out; once `finished`, it sends nothing more.
#[derive(Clone, Copy, Debug, PartialEq, Eq, Structural)]
pub struct Listener {
    pub chord: TerminationState,
    pub last_time: u128,
    pub finished: bool,
}

impl Listener {
    pub open spec fn new_spec(chord: TerminationState) -> Listener {
        Listener { chord, last_time: 0, finished: false }
    }

    /// One event, `elapsed` milliseconds into the session: the state after it
    /// and the messages to send. The record's time is `elapsed`, but never
    /// less than a time already given out. The chord's completing event is
    /// sent too, followed by `Exit`; after that nothing is sent.
    pub open spec fn step(self, elapsed: u128, ev: DeviceEvent) -> (Listener, Seq<Msg>) {
        if self.finished {
            (self, seq![])
        } else {
            let time = if elapsed < self.last_time {
                self.last_time
            } else {
                elapsed
            };
            let rec = EventDescriptor {
                time,
                event_type: ev.event_type,
                code: ev.code,
                value: ev.value,
            };
            let chord = self.chord.next(ev);
            let next = Listener { chord, last_time: time, finished: chord.terminal() };
            if chord.terminal() {
                (next, seq![Msg::Event(rec), Msg::Exit])
            } else {
                (next, seq![Msg::Event(rec)])
            }
        }
    }

    /// The state after a run of timed events, and all the messages sent.
    pub open spec fn run(self, inputs: Seq<(u128, DeviceEvent)>) -> (Listener, Seq<Msg>)
        decreases inputs.len(),
    {
        if inputs.len() == 0 {
            (self, seq![])
        } else {
            let (before, sent) = self.run(inputs.drop_last());
            let (after, more) = before.step(inputs.last().0, inputs.last().1);
            (after, sent + more)
        }
    }

    /// A listener that has given out no time yet.
    pub fn new(chord: TerminationState) -> (l: Self)
        ensures
            l == Listener::new_spec(chord),
    {
        Listener { chord, last_time: 0, finished: false }
    }

    /// Starts a session on the device described by `device`: a fresh listener
    /// and the first message to send, the descriptor, ahead of every event.
    pub fn open(chord: TerminationState, device: DeviceDescriptor) -> (r: (Self, Msg))
        ensures
            r.0 == Listener::new_spec(chord),
            r.1 == Msg::Device(device),
    {
        (Listener::new(chord), Msg::Device(device))
    }

    /// Takes one device event, read `elapsed_millis` after the session
    /// started, and returns the messages to send, in order.
    pub fn on_event(&mut self, elapsed_millis: u128, ev: DeviceEvent) -> (msgs: Vec<Msg>)
        ensures
            (*final(self), msgs@) == old(self).step(elapsed_millis, ev),
    {
        let mut msgs: Vec<Msg> = Vec::new();
        if self.finished {
            return msgs;
        }
        let time = if elapsed_millis < self.last_time {
            self.last_time
        } else {
            elapsed_millis
        };
        msgs.push(Msg::Event(EventDescriptor::new(time, ev.event_type, ev.code, ev.value)));
        self.chord.observe(ev);
        self.last_time = time;
        self.finished = self.chord.is_terminal();
        if self.finished {
            msgs.push(Msg::Exit);
        }
        msgs
    }
}

proof fn lemma_events_of_single(m: Msg)
    ensures
        events_of(seq![m]) == payload(m),
{
    assert(seq![m].drop_last() =~= Seq::<Msg>::empty());
    assert(events_of(Seq::<Msg>::empty()) + payload(m) =~= payload(m));
}

proof fn lemma_run_ordered(l: Listener, inputs: Seq<(u128, DeviceEvent)>)
    ensures
        non_decreasing(events_of(l.run(inputs).1)),
        forall|i: int|
            0 <= i < events_of(l.run(inputs).1).len() ==> #[trigger] events_of(l.run(inputs).1)[i].time
                <= l.run(inputs).0.last_time,
        l.last_time <= l.run(inputs).0.last_time,
    decreases inputs.len(),
{
    if inputs.len() > 0 {
        let (before, sent) = l.run(inputs.drop_last());
        lemma_run_ordered(l, inputs.drop_last());
        let (after, more) = before.step(inputs.last().0, inputs.last().1);
        lemma_events_of_append(sent, more);
        if !before.finished {
            let rec = more[0]->Event_0;
            lemma_events_of_single(Msg::Event(rec));
            if after.finished {
                lemma_events_of_single(Msg::Exit);
                lemma_events_of_append(seq![Msg::Event(rec)], seq![Msg::Exit]);
                assert(more =~= seq![Msg::Event(rec)] + seq![Msg::Exit]);
                assert(events_of(more) =~= seq![rec]);
            }
        } else {
            assert(events_of(more) =~= Seq::<EventDescriptor>::empty());
        }
    }
}

/// The records of a recording session come with times that never go down:
/// whatever times the clock reports, the records that a listener sends from
/// its start up to any point (where an outside stop request may cut the
/// session short) are in non-decreasing order of time.
pub proof fn lemma_recorded_times_ordered(chord: TerminationState, inputs: Seq<(u128, DeviceEvent)>, k: int)
    requires
        0 <= k <= Listener::new_spec(chord).run(inputs).1.len(),
    ensures
        non_decreasing(events_of(Listener::new_spec(chord).run(inputs).1.take(k))),
{
    let msgs = Listener::new_spec(chord).run(inputs).1;
    lemma_run_ordered(Listener::new_spec(chord), inputs);
    assert(msgs =~= msgs.take(k) + msgs.skip(k));
    lemma_events_of_append(msgs.take(k), msgs.skip(k));
    let all = events_of(msgs);
    let pre = events_of(msgs.take(k));
    assert forall|i: int, j: int| 0 <= i <= j < pre.len() implies #[trigger] pre[i].time <= #[trigger] pre[j].time by {
        assert(pre[i] == all[i]);
        assert(pre[j] == all[j]);
    }
}

/// The device events of a run of timed events.
pub open spec fn device_events(inputs: Seq<(u128, DeviceEvent)>) -> Seq<DeviceEvent> {
    inputs.map_values(|x: (u128, DeviceEvent)| x.1)
}

/// The record of a timed event, stamped with its own reading.
pub open spec fn record_at(input: (u128, DeviceEvent)) -> EventDescriptor {
    EventDescriptor {
        time: input.0,
        event_type: input.1.event_type,
        code: input.1.code,
        value: input.1.value,
    }
}

/// Clock readings that never go down along the run.
pub open spec fn readings_non_decreasing(inputs: Seq<(u128, DeviceEvent)>) -> bool {
    forall|i: int, j: int| 0 <= i <= j < inputs.len() ==> #[trigger] inputs[i].0 <= #[trigger] inputs[j].0
}

/// Some event of the run, counting from the start, leaves the chord complete.
pub open spec fn chord_completes(chord: TerminationState, inputs: Seq<(u128, DeviceEvent)>) -> bool {
    exists|j: int| 1 <= j <= inputs.len() && #[trigger] chord.after(device_events(inputs.take(j))).terminal()
}

proof fn lemma_device_events_take(inputs: Seq<(u128, DeviceEvent)>, j: int)
    requires
        0 <= j < inputs.len(),
    ensures
        device_events(inputs.take(j)) == device_events(inputs.drop_last().take(j)),
{
    assert(inputs.take(j) =~= inputs.drop_last().take(j));
}

proof fn lemma_events_pair(a: Msg, b: Msg)
    ensures
        events_of(seq![a, b]) == payload(a) + payload(b),
{
    lemma_events_of_single(a);
    lemma_events_of_single(b);
    lemma_events_of_append(seq![a], seq![b]);
    assert(seq![a] + seq![b] =~= seq![a, b]);
}

/// Over a whole run, from its start, the listener:
/// sends `Exit` exactly when some event completes the chord, and then stops;
/// sends one record per event until then;
/// and, where the clock readings never go down, stamps each record with the
/// reading of its own event.
pub proof fn lemma_listener_run(chord: TerminationState, inputs: Seq<(u128, DeviceEvent)>)
    ensures
        Listener::new_spec(chord).run(inputs).1.contains(Msg::Exit) <==> chord_completes(chord, inputs),
        Listener::new_spec(chord).run(inputs).0.finished <==> chord_completes(chord, inputs),
        !chord_completes(chord, inputs) ==> Listener::new_spec(chord).run(inputs).0.chord == chord.after(
            device_events(inputs),
        ),
        events_of(Listener::new_spec(chord).run(inputs).1).len() <= inputs.len(),
        !chord_completes(chord, inputs) ==> events_of(Listener::new_spec(chord).run(inputs).1).len()
            == inputs.len(),
        readings_non_decreasing(inputs) ==> forall|i: int|
            0 <= i < events_of(Listener::new_spec(chord).run(inputs).1).len() ==> #[trigger] events_of(
                Listener::new_spec(chord).run(inputs).1,
            )[i] == record_at(inputs[i]),
        readings_non_decreasing(inputs) && !chord_completes(chord, inputs) && inputs.len() > 0
            ==> Listener::new_spec(chord).run(inputs).0.last_time == inputs.last().0,
    decreases inputs.len(),
{
    let l = Listener::new_spec(chord);
    let (after, msgs) = l.run(inputs);
    if inputs.len() == 0 {
        assert(!chord_completes(chord, inputs));
        assert(!msgs.contains(Msg::Exit));
        assert(device_events(inputs) =~= Seq::<DeviceEvent>::empty());
    } else {
        let prev = inputs.drop_last();
        lemma_listener_run(chord, prev);
        let (before, sent) = l.run(prev);
        let (t, ev) = inputs.last();
        let (_, more) = before.step(t, ev);
        lemma_events_of_append(sent, more);
        assert(msgs == sent + more);
        assert(device_events(inputs).drop_last() =~= device_events(prev));
        assert(inputs.take(inputs.len() as int) =~= inputs);
        // the chord over the whole run
        assert(chord_completes(chord, prev) ==> chord_completes(chord, inputs)) by {
            if chord_completes(chord, prev) {
                let j = choose|j: int| 1 <= j <= prev.len() && #[trigger] chord.after(device_events(prev.take(j))).terminal();
                lemma_device_events_take(inputs, j);
                assert(prev.take(j) =~= inputs.take(j));
            }
        }
        assert(chord_completes(chord, inputs) && !chord_completes(chord, prev) ==> chord.after(
            device_events(inputs),
        ).terminal()) by {
            if chord_completes(chord, inputs) && !chord_completes(chord, prev) {
                let j = choose|j: int| 1 <= j <= inputs.len() && #[trigger] chord.after(device_events(inputs.take(j))).terminal();
                if j < inputs.len() {
                    lemma_device_events_take(inputs, j);
                    assert(prev.take(j) =~= inputs.take(j));
                }
            }
        }
        assert(!chord_completes(chord, prev) && chord.after(device_events(inputs)).terminal() ==> chord_completes(chord, inputs)) by {
            if !chord_completes(chord, prev) && chord.after(device_events(inputs)).terminal() {
                assert(chord.after(device_events(inputs.take(inputs.len() as int))).terminal());
            }
        }
        if before.finished {
            assert(more =~= Seq::<Msg>::empty());
            assert(msgs =~= sent);
            assert(events_of(more) =~= Seq::<EventDescriptor>::empty());
        } else {
            let rec = more[0]->Event_0;
            assert(rec == EventDescriptor { time: rec.time, ..record_at(inputs.last()) });
            if after.finished {
                lemma_events_pair(Msg::Event(rec), Msg::Exit);
                assert(more =~= seq![Msg::Event(rec), Msg::Exit]);
                assert(msgs[msgs.len() - 1] == Msg::Exit);
            } else {
                lemma_events_of_single(Msg::Event(rec));
                assert(more =~= seq![Msg::Event(rec)]);
                assert(!msgs.contains(Msg::Exit)) by {
                    if msgs.contains(Msg::Exit) {
                        let i = choose|i: int| 0 <= i < msgs.len() && msgs[i] == Msg::Exit;
                        if i < sent.len() {
                            assert(sent[i] == msgs[i]);
                        }
                    }
                }
            }
            assert(events_of(more) =~= seq![rec]);
            if readings_non_decreasing(inputs) {
                assert(readings_non_decreasing(prev)) by {
                    assert forall|i: int, j: int| 0 <= i <= j < prev.len() implies #[trigger] prev[i].0 <= #[trigger] prev[j].0 by {
                        assert(prev[i] == inputs[i] && prev[j] == inputs[j]);
                    }
                }
                if prev.len() > 0 {
                    assert(prev.last() == inputs[prev.len() - 1]);
                    assert(inputs[prev.len() - 1].0 <= inputs[inputs.len() - 1].0);
                }
                assert(rec == record_at(inputs.last()));
                let all = events_of(msgs);
                assert forall|i: int| 0 <= i < all.len() implies #[trigger] all[i] == record_at(inputs[i]) by {
                    if i < events_of(sent).len() {
                        assert(all[i] == events_of(sent)[i]);
                        assert(prev[i] == inputs[i]);
                    }
                }
            }
        }
        if before.finished {
            if readings_non_decreasing(inputs) {
                assert(readings_non_decreasing(prev)) by {
                    assert forall|i: int, j: int| 0 <= i <= j < prev.len() implies #[trigger] prev[i].0 <= #[trigger] prev[j].0 by {
                        assert(prev[i] == inputs[i] && prev[j] == inputs[j]);
                    }
                }
                let all = events_of(msgs);
                assert forall|i: int| 0 <= i < all.len() implies #[trigger] all[i] == record_at(inputs[i]) by {
                    assert(prev[i] == inputs[i]);
                }
            }
        }
    }
}

/// Over a whole run from a chord with neither key held, the listener sends
/// `Exit` exactly when, after some event of the run, both keys of the chord
/// are held at once.
pub proof fn lemma_listener_exits_on_chord(first_code: u16, second_code: u16, inputs: Seq<(u128, DeviceEvent)>)
    ensures
        Listener::new_spec(TerminationState::new_spec(first_code, second_code)).run(inputs).1.contains(
            Msg::Exit,
        ) <==> exists|j: int|
            1 <= j <= inputs.len() && #[trigger] held(device_events(inputs.take(j)), first_code) && held(
                device_events(inputs.take(j)),
                second_code,
            ),
{
    let chord = TerminationState::new_spec(first_code, second_code);
    lemma_listener_run(chord, inputs);
    if chord_completes(chord, inputs) {
        let j = choose|j: int| 1 <= j <= inputs.len() && #[trigger] chord.after(device_events(inputs.take(j))).terminal();
        lemma_exit_chord(first_code, second_code, device_events(inputs.take(j)));
    }
    if exists|j: int|
        1 <= j <= inputs.len() && #[trigger] held(device_events(inputs.take(j)), first_code) && held(
            device_events(inputs.take(j)),
            second_code,
        ) {
        let j = choose|j: int|
            1 <= j <= inputs.len() && #[trigger] held(device_events(inputs.take(j)), first_code) && held(
                device_events(inputs.take(j)),
                second_code,
            );
        lemma_exit_chord(first_code, second_code, device_events(inputs.take(j)));
        assert(chord.after(device_events(inputs.take(j))).terminal());
    }
}

/// Why a recording session could not be assembled.
#[derive(Clone, Copy, Debug, PartialEq, Eq, Structural)]
pub enum SessionError {
    /// The session was told to stop before it learnt which device it records.
    IncompleteSession,
}

/// The storing side of a recording session: it keeps the device's
/// descriptor and the records, in the order in which they arrive.
pub struct Accumulator {
    pub device: Option<DeviceDescriptor>,
    pub events: Vec<EventDescriptor>,
}

/// What the accumulator has after a message: more to wait for, or the
/// finished recording.
pub enum Received {
    Pending(Accumulator),
    Complete(Recording),
}

/// Where a session stands on the accumulator's side: still collecting (the
/// descriptor so far, the records so far), complete, or failed.
pub enum SessionState {
    Collecting(Option<DeviceDescriptor>, Seq<EventDescriptor>),
    Complete(DeviceDescriptor, Seq<EventDescriptor>),
    Failed(SessionError),
}

/// The session after one more message. A complete or failed session takes
/// no further messages.
pub open spec fn absorb(s: SessionState, m: Msg) -> SessionState {
    match s {
        SessionState::Collecting(device, events) => match m {
            Msg::Exit => match device {
                Some(d) => SessionState::Complete(d, events),
                None => SessionState::Failed(SessionError::IncompleteSession),
            },
            Msg::Event(e) => SessionState::Collecting(device, events.push(e)),
            Msg::Device(d) => SessionState::Collecting(Some(d), events),
        },
        _ => s,
    }
}

/// The session after each of `msgs` in turn.
pub open spec fn absorb_all(s: SessionState, msgs: Seq<Msg>) -> SessionState
    decreases msgs.len(),
{
    if msgs.len() == 0 {
        s
    } else {
        absorb(absorb_all(s, msgs.drop_last()), msgs.last())
    }
}

/// The session that a result of `receive` stands for.
pub open spec fn outcome(r: Result<Received, SessionError>) -> SessionState {
    match r {
        Ok(Received::Pending(a)) => a.state(),
        Ok(Received::Complete(rec)) => SessionState::Complete(rec.device, rec.event_list@),
        Err(e) => SessionState::Failed(e),
    }
}

impl Accumulator {
    pub open spec fn state(&self) -> SessionState {
        SessionState::Collecting(self.device, self.events@)
    }

    /// An accumulator that has received nothing.
    pub fn new() -> (a: Self)
        ensures
            a.device is None,
            a.events@ == Seq::<EventDescriptor>::empty(),
            a.state() == SessionState::Collecting(None, Seq::<EventDescriptor>::empty()),
    {
        Accumulator { device: None, events: Vec::new() }
    }

    /// Takes the next message. A descriptor is kept (a later one replaces an
    /// earlier one), a record is appended, and `Exit` completes the
    /// recording from what was kept, or fails with `IncompleteSession` when
    /// no descriptor came.
    pub fn receive(self, msg: Msg) -> (r: Result<Received, SessionError>)
        ensures
            outcome(r) == absorb(self.state(), msg),
            match msg {
                Msg::Exit => match self.device {
                    Some(d) => r matches Ok(Received::Complete(rec)) && rec.device == d
                        && rec.event_list@ == self.events@,
                    None => r == Err::<Received, SessionError>(SessionError::IncompleteSession),
                },
                Msg::Event(_) => r matches Ok(Received::Pending(a)) && a.device == self.device
                    && a.events@ == self.events@ + payload(msg),
                Msg::Device(d) => r matches Ok(Received::Pending(a)) && a.device == Some(d)
                    && a.events@ == self.events@ + payload(msg),
            },
    {
        let Accumulator { device, mut events } = self;
        match msg {
            Msg::Exit => match device {
                Some(d) => Ok(Received::Complete(Recording { device: d, event_list: events })),
                None => Err(SessionError::IncompleteSession),
            },
            Msg::Event(e) => {
                events.push(e);
                assert(events@ =~= self.events@ + payload(msg));
                Ok(Received::Pending(Accumulator { device, events }))
            },
            Msg::Device(d) => {
                assert(events@ =~= self.events@ + payload(msg));
                Ok(Received::Pending(Accumulator { device: Some(d), events }))
            },
        }
    }
}

proof fn lemma_absorb_all_append(s: SessionState, a: Seq<Msg>, b: Seq<Msg>)
    ensures
        absorb_all(s, a + b) == absorb_all(absorb_all(s, a), b),
    decreases b.len(),
{
    if b.len() == 0 {
        assert(a + b =~= a);
    } else {
        lemma_absorb_all_append(s, a, b.drop_last());
        assert((a + b).drop_last() =~= a + b.drop_last());
    }
}

/// Once the descriptor is known, the accumulator holds all records received
/// so far while it collects, and a leading part of them once complete.
proof fn lemma_absorb_prefix(d: DeviceDescriptor, msgs: Seq<Msg>)
    ensures
        match absorb_all(SessionState::Collecting(Some(d), seq![]), msgs) {
            SessionState::Collecting(dev, evs) => dev is Some && evs == events_of(msgs),
            SessionState::Complete(_, evs) => evs.len() <= events_of(msgs).len() && evs
                == events_of(msgs).take(evs.len() as int),
            SessionState::Failed(_) => false,
        },
    decreases msgs.len(),
{
    if msgs.len() == 0 {
    } else {
        lemma_absorb_prefix(d, msgs.drop_last());
        let before = absorb_all(SessionState::Collecting(Some(d), seq![]), msgs.drop_last());
        let all = events_of(msgs);
        let prev = events_of(msgs.drop_last());
        match before {
            SessionState::Complete(_, evs) => {
                assert(evs =~= all.take(evs.len() as int));
            },
            SessionState::Collecting(_, evs) => {
                match msgs.last() {
                    Msg::Exit => {
                        assert(all =~= prev);
                        assert(evs =~= all.take(evs.len() as int));
                    },
                    Msg::Event(e) => {
                        assert(all =~= prev.push(e));
                    },
                    Msg::Device(_) => {
                        assert(all =~= prev);
                    },
                }
            },
            _ => {},
        }
    }
}

/// A recording session ends with a recording whose times never go down: the
/// accumulator, given the descriptor, then the listener's messages up to any
/// point, then an `Exit` (the listener's own or an outside stop request),
/// completes, and its records are in non-decreasing order of time.
pub proof fn lemma_session_times_ordered(
    chord: TerminationState,
    device: DeviceDescriptor,
    inputs: Seq<(u128, DeviceEvent)>,
    k: int,
)
    requires
        0 <= k <= Listener::new_spec(chord).run(inputs).1.len(),
    ensures
        absorb_all(
            SessionState::Collecting(None, seq![]),
            seq![Msg::Device(device)] + Listener::new_spec(chord).run(inputs).1.take(k) + seq![Msg::Exit],
        ) matches SessionState::Complete(_, evs) && non_decreasing(evs),
{
    let sent = Listener::new_spec(chord).run(inputs).1.take(k);
    let init = SessionState::Collecting(None, seq![]);
    let head = seq![Msg::Device(device)];
    let tail = sent + seq![Msg::Exit];
    assert(head + sent + seq![Msg::Exit] =~= head + tail);
    lemma_absorb_all_append(init, head, tail);
    assert(head.drop_last() =~= Seq::<Msg>::empty());
    assert(absorb_all(init, head.drop_last()) == init);
    assert(head.last() == Msg::Device(device));
    assert(absorb_all(init, head) == SessionState::Collecting(Some(device), seq![]));
    assert(tail.drop_last() =~= sent);
    lemma_absorb_prefix(device, sent);
    lemma_recorded_times_ordered(chord, inputs, k);
    let pre = events_of(sent);
    match absorb_all(absorb_all(init, head), tail) {
        SessionState::Complete(_, evs) => {
            assert forall|i: int, j: int| 0 <= i <= j < evs.len() implies #[trigger] evs[i].time
                <= #[trigger] evs[j].time by {
                assert(evs[i] == pre[i] && evs[j] == pre[j]);
            }
        },
        _ => {},
    }
}

} // verus!
