use vstd::prelude::*;
use crate::descriptor::{
    create_device_descriptor, describes_key_list, EventDescriptor, Recording, EV_KEY,
};

verus! {

/// The key code that evdev's table of key names holds for `name`, if any.
pub uninterp spec fn key_code_named(name: Seq<char>) -> Option<u16>;

/// Relies on evdev's `FromStr for Key`: it looks a name such as `KEY_A` up in
/// evdev's table of key constants and returns that key, or an error for a
/// name the table does not hold.
#[verifier::external_body]
fn lookup_key_name(name: &str) -> (r: Option<u16>)
    ensures
        r == key_code_named(name@),
{
    name.parse::<evdev::Key>().ok().map(|k| k.0)
}

/// Why a list of key names could not be read.
#[derive(Clone, Debug, PartialEq, Eq)]
pub enum KeyError {
    /// The name is not the name of any key.
    UnknownKeySymbol(String),
}

/// `r` is what looking `name` up gives when the table returned `found`: the
/// code, or an error that names the key.
pub open spec fn key_lookup_outcome(name: Seq<char>, found: Option<u16>, r: Result<u16, KeyError>) -> bool {
    match found {
        Some(code) => r == Ok::<u16, KeyError>(code),
        None => r matches Err(KeyError::UnknownKeySymbol(n)) && n@ == name,
    }
}

/// Turns the table's answer for `name` into a key code or an error.
pub fn key_lookup_result(name: &str, found: Option<u16>) -> (r: Result<u16, KeyError>)
    ensures
        key_lookup_outcome(name@, found, r),
{
    match found {
        Some(code) => Ok(code),
        None => Err(KeyError::UnknownKeySymbol(name.to_owned())),
    }
}

/// The key code named by `s` (such as `KEY_ESC`), or `UnknownKeySymbol`.
pub fn get_key_from_str(s: &str) -> (r: Result<u16, KeyError>)
    ensures
        key_lookup_outcome(s@, key_code_named(s@), r),
{
    let found = lookup_key_name(s);
    key_lookup_result(s, found)
}

/// Reads one key name per line. On success the codes stand in the order of
/// the lines; otherwise the error names the first line that is no key.
pub fn parse_key_names(lines: &Vec<String>) -> (r: Result<Vec<u16>, KeyError>)
    ensures
        r is Ok <==> forall|i: int| 0 <= i < lines.len() ==> #[trigger] key_code_named(lines@[i]@) is Some,
        r matches Ok(codes) ==> codes.len() == lines.len() && forall|i: int|
            0 <= i < lines.len() ==> #[trigger] key_code_named(lines@[i]@) == Some(codes@[i]),
        r matches Err(KeyError::UnknownKeySymbol(n)) ==> exists|i: int|
            0 <= i < lines.len() && key_code_named(#[trigger] lines@[i]@) is None && n@ == lines@[i]@
                && forall|j: int| 0 <= j < i ==> #[trigger] key_code_named(lines@[j]@) is Some,
{
    let mut codes: Vec<u16> = Vec::new();
    let mut i: usize = 0;
    while i < lines.len()
        invariant
            i <= lines.len(),
            codes.len() == i,
            forall|j: int| 0 <= j < i ==> #[trigger] key_code_named(lines@[j]@) == Some(codes@[j]),
        decreases lines.len() - i,
    {
        match get_key_from_str(lines[i].as_str()) {
            Ok(code) => codes.push(code),
            Err(e) => {
                return Err(e);
            },
        }
        i = i + 1;
    }
    Ok(codes)
}

/// Generated sessions start no earlier than this, so that a freshly created
/// virtual device is registered before its first event arrives.
pub const MIN_INITIAL_DELAY_MILLIS: u128 = 1000;

/// When the press of the `i`-th key (from 0) happens: the initial delay,
/// raised to `MIN_INITIAL_DELAY_MILLIS`, plus `i` steps of `delta`.
pub open spec fn press_offset(initial_delay: u128, delta: u64, i: int) -> int {
    let start = if initial_delay < MIN_INITIAL_DELAY_MILLIS {
        MIN_INITIAL_DELAY_MILLIS
    } else {
        initial_delay
    };
    start + delta * i
}

/// When a key pressed at `press` is released: `press` times 1.1, rounded up.
pub open spec fn release_offset(press: int) -> int {
    (press * 11 + 9) / 10
}

/// Every release time of a session of `n` keys fits in a `u128`.
pub open spec fn schedule_fits(n: int, delta: u64, initial_delay: u128) -> bool {
    forall|i: int| 0 <= i < n ==> #[trigger] release_offset(press_offset(initial_delay, delta, i)) <= u128::MAX
}

/// The `j`-th record of a generated session: even places hold the press of
/// key `j / 2`, odd places its release.
pub open spec fn generated_record(keys: Seq<u16>, delta: u64, initial_delay: u128, j: int) -> EventDescriptor {
    let press = press_offset(initial_delay, delta, j / 2);
    if j % 2 == 0 {
        EventDescriptor { time: press as u128, event_type: EV_KEY, code: keys[j / 2], value: 1 }
    } else {
        EventDescriptor { time: release_offset(press) as u128, event_type: EV_KEY, code: keys[j / 2], value: 0 }
    }
}

/// The event list of a generated session: a press and a release per key.
pub open spec fn generated_events(keys: Seq<u16>, delta: u64, initial_delay: u128) -> Seq<EventDescriptor> {
    Seq::new((2 * keys.len()) as nat, |j: int| generated_record(keys, delta, initial_delay, j))
}

proof fn lemma_release_offset(p: int)
    requires
        p >= 0,
    ensures
        release_offset(p) == p + p / 10 + (if p % 10 == 0 { 0int } else { 1int }),
{
    let q = p / 10;
    let r = p % 10;
    vstd::arithmetic::div_mod::lemma_fundamental_div_mod(p, 10);
    if r == 0 {
        vstd::arithmetic::div_mod::lemma_fundamental_div_mod_converse(p * 11 + 9, 10, 11 * q, 9);
    } else {
        vstd::arithmetic::div_mod::lemma_fundamental_div_mod_converse(p * 11 + 9, 10, 11 * q + r + 1, r - 1);
    }
}

/// Builds the session that presses and releases each key of `keys` in turn:
/// the press of the `i`-th key comes at `press_offset`, its release at
/// `release_offset` of that, and the device exposes exactly those keys.
/// Gives `None` when some of those times would not fit in a `u128`.
pub fn generate(keys: &Vec<u16>, delta_millis: u64, initial_delay_millis: u128) -> (r: Option<Recording>)
    ensures
        r is Some <==> schedule_fits(keys.len() as int, delta_millis, initial_delay_millis),
        r matches Some(rec) ==> rec.device.wf() && describes_key_list(rec.device, keys@)
            && rec.event_list@ == generated_events(keys@, delta_millis, initial_delay_millis),
{
    let start = if initial_delay_millis < MIN_INITIAL_DELAY_MILLIS {
        MIN_INITIAL_DELAY_MILLIS
    } else {
        initial_delay_millis
    };
    let mut event_list: Vec<EventDescriptor> = Vec::new();
    let mut i: usize = 0;
    while i < keys.len()
        invariant
            i <= keys.len(),
            start as int == press_offset(initial_delay_millis, delta_millis, 0),
            event_list.len() == 2 * i,
            forall|j: int| 0 <= j < 2 * i ==> #[trigger] event_list@[j] == generated_record(keys@, delta_millis, initial_delay_millis, j),
            forall|k: int| 0 <= k < i ==> #[trigger] release_offset(press_offset(initial_delay_millis, delta_millis, k)) <= u128::MAX,
        decreases keys.len() - i,
    {
        let d = delta_millis as u128;
        let n = i as u128;
        assert(d * n <= u128::MAX) by (nonlinear_arith)
            requires d <= u64::MAX, n <= u64::MAX;
        let steps = d * n;
        if steps > u128::MAX - start {
            assert(release_offset(press_offset(initial_delay_millis, delta_millis, i as int)) > u128::MAX) by {
                lemma_release_offset(press_offset(initial_delay_millis, delta_millis, i as int));
            }
            return None;
        }
        let press = start + steps;
        let extra: u128 = press / 10 + if press % 10 == 0 { 0 } else { 1 };
        assert(press as int == press_offset(initial_delay_millis, delta_millis, i as int));
        proof {
            lemma_release_offset(press as int);
        }
        if extra > u128::MAX - press {
            assert(release_offset(press_offset(initial_delay_millis, delta_millis, i as int)) > u128::MAX);
            return None;
        }
        let release = press + extra;
        let ghost old_list = event_list@;
        event_list.push(EventDescriptor::new(press, EV_KEY, keys[i], 1));
        event_list.push(EventDescriptor::new(release, EV_KEY, keys[i], 0));
        proof {
            let j0 = 2 * i as int;
            assert((j0 / 2) == i as int && j0 % 2 == 0);
            assert(((j0 + 1) / 2) == i as int && (j0 + 1) % 2 == 1);
            assert forall|j: int| 0 <= j < 2 * (i + 1) implies #[trigger] event_list@[j]
                == generated_record(keys@, delta_millis, initial_delay_millis, j) by {
                if j < j0 {
                    assert(event_list@[j] == old_list[j]);
                }
            }
        }
        i = i + 1;
    }
    let device = create_device_descriptor(keys);
    let rec = Recording { device, event_list };
    assert(rec.event_list@ =~= generated_events(keys@, delta_millis, initial_delay_millis));
    Some(rec)
}

} // verus!
