use rinput::descriptor::{DeviceEvent, EventDescriptor, Timeline, EV_KEY};
use rinput::replay::{on_sequence_input, ReplayAction, Replayer, SequenceAction};

#[test]
fn replay_of_empty_timeline_finishes_at_once() {
    let t = Timeline::from_events(Vec::new());
    let mut r = Replayer::new();
    assert_eq!(r.step(&t, 0), ReplayAction::Finished);
    assert_eq!(r.step(&t, u128::MAX), ReplayAction::Finished);
}

#[test]
fn replay_of_single_keyframe_waits_then_emits_once() {
    let t = Timeline::from_events(vec![EventDescriptor::new(2, EV_KEY, 30, 1)]);
    let mut r = Replayer::new();
    assert_eq!(r.step(&t, 0), ReplayAction::Wait);
    assert_eq!(r.step(&t, 1999), ReplayAction::Wait);
    assert_eq!(r.step(&t, 2000), ReplayAction::Emit(0));
    assert_eq!(t.keyframes[0].events, vec![DeviceEvent { event_type: EV_KEY, code: 30, value: 1 }]);
    assert_eq!(r.step(&t, 2001), ReplayAction::Finished);
    assert_eq!(r.step(&t, 5000), ReplayAction::Finished);
}

#[test]
fn replay_emits_keyframes_in_order_without_skipping() {
    let t = Timeline::from_events(vec![
        EventDescriptor::new(0, EV_KEY, 30, 1),
        EventDescriptor::new(1, EV_KEY, 30, 0),
        EventDescriptor::new(1, EV_KEY, 48, 1),
    ]);
    let mut r = Replayer::new();
    // A late clock reading still emits the keyframes one at a time.
    assert_eq!(r.step(&t, 10_000), ReplayAction::Emit(0));
    assert_eq!(r.step(&t, 10_000), ReplayAction::Emit(1));
    assert_eq!(r.step(&t, 10_000), ReplayAction::Emit(2));
    assert_eq!(r.step(&t, 10_000), ReplayAction::Finished);
}

#[test]
fn replay_keyframe_at_zero_is_due_immediately() {
    let t = Timeline::from_events(vec![EventDescriptor::new(0, EV_KEY, 30, 1)]);
    let mut r = Replayer::new();
    assert_eq!(r.step(&t, 0), ReplayAction::Emit(0));
}

#[test]
fn sequence_quits_only_on_q() {
    assert_eq!(on_sequence_input('q'), SequenceAction::Quit);
    assert_eq!(on_sequence_input('Q'), SequenceAction::Replay);
    assert_eq!(on_sequence_input(' '), SequenceAction::Replay);
}
