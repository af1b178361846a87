use vstd::prelude::*;
use crate::descriptor::{DeviceEvent, Timeline};

verus! {

/// What the player does next.
#[derive(Clone, Copy, Debug, PartialEq, Eq, Structural)]
pub enum ReplayAction {
    /// The next keyframe is not due yet: read the clock again.
    Wait,
    /// Emit the events of the keyframe at this position, all in one batch.
    Emit(usize),
    /// Every keyframe has been emitted.
    Finished,
}

/// A keyframe `time` milliseconds into the replay is due once the replay's
/// clock, counting microseconds, has reached that time.
pub open spec fn due(time: u128, elapsed_micros: u128) -> bool {
    elapsed_micros >= time * 1000
}

/// One pass of a timeline: `next` is the position of the first keyframe not
/// yet emitted. Keyframes go out one at a time, in order, each once it is
/// due; none is skipped.
#[derive(Clone, Copy, Debug, PartialEq, Eq, Structural)]
pub struct Replayer {
    pub next: usize,
}

impl Replayer {
    pub open spec fn new_spec() -> Replayer {
        Replayer { next: 0 }
    }

    /// The decision taken at a clock reading of `elapsed` microseconds.
    pub open spec fn step_spec(self, frames: Seq<(u128, Seq<DeviceEvent>)>, elapsed: u128) -> (Replayer, ReplayAction) {
        if self.next >= frames.len() {
            (self, ReplayAction::Finished)
        } else if due(frames[self.next as int].0, elapsed) {
            (Replayer { next: (self.next + 1) as usize }, ReplayAction::Emit(self.next))
        } else {
            (self, ReplayAction::Wait)
        }
    }

    /// The keyframes emitted over a run of clock readings, each with the
    /// reading at which it went out.
    pub open spec fn emissions(self, frames: Seq<(u128, Seq<DeviceEvent>)>, readings: Seq<u128>) -> Seq<(usize, u128)>
        decreases readings.len(),
    {
        if readings.len() == 0 {
            seq![]
        } else {
            let (after, action) = self.step_spec(frames, readings[0]);
            let rest = after.emissions(frames, readings.skip(1));
            match action {
                ReplayAction::Emit(i) => seq![(i, readings[0])] + rest,
                _ => rest,
            }
        }
    }

    /// A pass that has emitted nothing yet.
    pub fn new() -> (r: Self)
        ensures
            r == Replayer::new_spec(),
    {
        Replayer { next: 0 }
    }

    /// Decides, at a reading of `elapsed_micros` since the pass started,
    /// whether to wait, to emit the next keyframe, or to stop.
    pub fn step(&mut self, timeline: &Timeline, elapsed_micros: u128) -> (a: ReplayAction)
        ensures
            (*final(self), a) == old(self).step_spec(timeline@, elapsed_micros),
    {
        if self.next >= timeline.keyframes.len() {
            return ReplayAction::Finished;
        }
        let time = timeline.keyframes[self.next].time;
        proof {
            lemma_due_in_millis(time, elapsed_micros);
        }
        if elapsed_micros / 1000 >= time {
            let i = self.next;
            self.next = self.next + 1;
            ReplayAction::Emit(i)
        } else {
            ReplayAction::Wait
        }
    }
}

proof fn lemma_due_in_millis(time: u128, elapsed: u128)
    ensures
        due(time, elapsed) <==> elapsed / 1000 >= time,
{
    vstd::arithmetic::div_mod::lemma_fundamental_div_mod(elapsed as int, 1000);
}

/// A pass emits keyframes in their order, starting from the first one not yet
/// emitted and skipping none, each only at a reading at which it is due, and
/// no keyframe twice.
pub proof fn lemma_replay_in_order(r: Replayer, frames: Seq<(u128, Seq<DeviceEvent>)>, readings: Seq<u128>)
    requires
        frames.len() <= usize::MAX,
    ensures
        r.next + r.emissions(frames, readings).len() <= if r.next <= frames.len() {
            frames.len() as int
        } else {
            r.next as int
        },
        forall|k: int|
            0 <= k < r.emissions(frames, readings).len() ==> {
                let (i, at) = #[trigger] r.emissions(frames, readings)[k];
                &&& i == r.next + k
                &&& i < frames.len()
                &&& due(frames[i as int].0, at)
            },
    decreases readings.len(),
{
    if readings.len() > 0 {
        let (after, action) = r.step_spec(frames, readings[0]);
        lemma_replay_in_order(after, frames, readings.skip(1));
        let rest = after.emissions(frames, readings.skip(1));
        let all = r.emissions(frames, readings);
        match action {
            ReplayAction::Emit(i) => {
                assert(all == seq![(i, readings[0])] + rest);
                assert forall|k: int| 0 <= k < all.len() implies {
                    let (i, at) = #[trigger] all[k];
                    &&& i == r.next + k
                    &&& i < frames.len()
                    &&& due(frames[i as int].0, at)
                } by {
                    if k > 0 {
                        assert(all[k] == rest[k - 1]);
                    }
                }
            },
            _ => {
                assert(all == rest);
            },
        }
    }
}

/// Replaying an empty timeline emits nothing: the first decision is already
/// to stop, whatever the clock reads.
pub proof fn lemma_replay_empty(frames: Seq<(u128, Seq<DeviceEvent>)>, readings: Seq<u128>, elapsed: u128)
    requires
        frames.len() == 0,
    ensures
        Replayer::new_spec().step_spec(frames, elapsed) == (Replayer::new_spec(), ReplayAction::Finished),
        Replayer::new_spec().emissions(frames, readings).len() == 0,
{
    lemma_replay_in_order(Replayer::new_spec(), frames, readings);
}

/// Replaying a timeline of one keyframe emits that keyframe once, at the
/// first reading at which it is due, and never before: over any run of
/// readings it goes out exactly once if some reading reaches its time, and
/// not at all otherwise.
pub proof fn lemma_replay_single(frames: Seq<(u128, Seq<DeviceEvent>)>, readings: Seq<u128>)
    requires
        frames.len() == 1,
    ensures
        Replayer::new_spec().emissions(frames, readings).len() == (if exists|j: int|
            0 <= j < readings.len() && due(frames[0].0, #[trigger] readings[j]) {
            1int
        } else {
            0int
        }),
        forall|k: int|
            0 <= k < Replayer::new_spec().emissions(frames, readings).len() ==> #[trigger] Replayer::new_spec().emissions(
                frames,
                readings,
            )[k].0 == 0 && due(frames[0].0, Replayer::new_spec().emissions(frames, readings)[k].1),
    decreases readings.len(),
{
    let r = Replayer::new_spec();
    lemma_replay_in_order(r, frames, readings);
    if readings.len() > 0 {
        let (after, action) = r.step_spec(frames, readings[0]);
        lemma_replay_single(frames, readings.skip(1));
        if due(frames[0].0, readings[0]) {
            assert(after.next == 1);
            lemma_replay_in_order(after, frames, readings.skip(1));
        } else {
            assert(after == r);
            if exists|j: int| 0 <= j < readings.len() && due(frames[0].0, #[trigger] readings[j]) {
                let j = choose|j: int| 0 <= j < readings.len() && due(frames[0].0, #[trigger] readings[j]);
                assert(readings.skip(1)[j - 1] == readings[j]);
            }
            if exists|j: int| 0 <= j < readings.skip(1).len() && due(frames[0].0, #[trigger] readings.skip(1)[j]) {
                let j = choose|j: int| 0 <= j < readings.skip(1).len() && due(frames[0].0, #[trigger] readings.skip(1)[j]);
                assert(readings[j + 1] == readings.skip(1)[j]);
            }
        }
    }
}

/// What a repeated replay does on a key typed between passes.
#[derive(Clone, Copy, Debug, PartialEq, Eq, Structural)]
pub enum SequenceAction {
    /// Play the timeline once more.
    Replay,
    /// Stop replaying.
    Quit,
}

/// The key that ends a repeated replay.
pub const QUIT_KEY: char = 'q';

/// Quits on `QUIT_KEY`; any other key asks for one more pass.
pub fn on_sequence_input(c: char) -> (a: SequenceAction)
    ensures
        a == (if c == QUIT_KEY {
            SequenceAction::Quit
        } else {
            SequenceAction::Replay
        }),
{
    if c == QUIT_KEY {
        SequenceAction::Quit
    } else {
        SequenceAction::Replay
    }
}

} // verus!
