//! Debouncing: acting only once a burst of triggers has been quiet for a
//! delay, within one process and across processes.
use vstd::prelude::*;

use crate::system::{instant_now, io_error_text, nanos_since, system_time_error_text,
    unix_epoch_millis};

verus! {

/// A debouncer that is ready once its delay has passed since the last
/// trigger. Times are nanoseconds since the debouncer was made; the delay is
/// given in milliseconds.
#[derive(Debug, Clone)]
pub struct Debouncer {
    delay_ms: u64,
    clock_start: std::time::Instant,
    deadline_ns: Option<u128>,
}

/// The state of a debouncer: its delay and, when triggered, its deadline.
pub struct DebouncerState {
    pub delay_ms: nat,
    pub deadline_ns: Option<nat>,
}

/// A delay of `delay_ms` milliseconds in nanoseconds.
pub open spec fn delay_nanos(delay_ms: nat) -> nat {
    delay_ms * 1_000_000
}

/// The deadline of a trigger at `now_ns`, kept within `u128`.
pub open spec fn deadline_after(now_ns: nat, delay_ms: nat) -> nat {
    if now_ns + delay_nanos(delay_ms) > u128::MAX {
        u128::MAX as nat
    } else {
        now_ns + delay_nanos(delay_ms)
    }
}

/// The state after a trigger at `now_ns`.
pub open spec fn triggered(state: DebouncerState, now_ns: nat) -> DebouncerState {
    DebouncerState {
        delay_ms: state.delay_ms,
        deadline_ns: Some(deadline_after(now_ns, state.delay_ms)),
    }
}

/// The state after a clear.
pub open spec fn cleared(state: DebouncerState) -> DebouncerState {
    DebouncerState { delay_ms: state.delay_ms, deadline_ns: None }
}

/// Whether a debouncer in `state` is ready at `now_ns`: it was triggered
/// and its deadline has come.
pub open spec fn ready_at(state: DebouncerState, now_ns: nat) -> bool {
    match state.deadline_ns {
        Some(deadline) => now_ns >= deadline,
        None => false,
    }
}

impl View for Debouncer {
    type V = DebouncerState;

    closed spec fn view(&self) -> DebouncerState {
        DebouncerState {
            delay_ms: self.delay_ms as nat,
            deadline_ns: match self.deadline_ns {
                Some(d) => Some(d as nat),
                None => None,
            },
        }
    }
}

impl Debouncer {
    /// An idle debouncer with the given delay in milliseconds.
    pub fn new(delay_ms: u64) -> (r: Self)
        ensures
            r@.delay_ms == delay_ms,
            r@.deadline_ns is None,
    {
        Debouncer { delay_ms, clock_start: instant_now(), deadline_ns: None }
    }

    /// Starts or restarts the delay, reading the clock.
    pub fn trigger(&mut self)
        ensures
            exists|now_ns: nat| final(self)@ == triggered(old(self)@, now_ns),
    {
        let now_ns = nanos_since(&self.clock_start);
        self.trigger_at(now_ns);
    }

    /// Starts or restarts the delay at `now_ns` nanoseconds.
    pub fn trigger_at(&mut self, now_ns: u128)
        ensures
            final(self)@ == triggered(old(self)@, now_ns as nat),
    {
        assert(self.delay_ms * 1_000_000 <= u64::MAX * 1_000_000) by (nonlinear_arith)
            requires
                self.delay_ms <= u64::MAX,
        ;
        let delay = (self.delay_ms as u128) * 1_000_000;
        let deadline = if now_ns > u128::MAX - delay {
            u128::MAX
        } else {
            now_ns + delay
        };
        self.deadline_ns = Some(deadline);
    }

    /// Whether the delay has passed since the last trigger, reading the
    /// clock.
    pub fn is_ready(&self) -> (r: bool)
        ensures
            exists|now_ns: nat| r == ready_at(self@, now_ns),
            self@.deadline_ns is None ==> !r,
    {
        let now_ns = nanos_since(&self.clock_start);
        self.is_ready_at(now_ns)
    }

    /// Whether the delay has passed at `now_ns` nanoseconds.
    pub fn is_ready_at(&self, now_ns: u128) -> (r: bool)
        ensures
            r == ready_at(self@, now_ns as nat),
    {
        match self.deadline_ns {
            Some(deadline) => now_ns >= deadline,
            None => false,
        }
    }

    /// Forgets the last trigger.
    pub fn clear(&mut self)
        ensures
            final(self)@ == cleared(old(self)@),
    {
        self.deadline_ns = None;
    }
}

/// A triggered debouncer is ready exactly once its delay has passed since
/// the trigger, and a cleared one is never ready.
pub proof fn lemma_ready_after_delay(state: DebouncerState, trigger_ns: nat, now_ns: nat)
    requires
        trigger_ns + delay_nanos(state.delay_ms) <= u128::MAX,
    ensures
        ready_at(triggered(state, trigger_ns), now_ns) <==> now_ns >= trigger_ns + delay_nanos(
            state.delay_ms,
        ),
        !ready_at(cleared(state), now_ns),
{
}

/// The name of the debounce marker file inside the plugin state directory.
pub fn debounce_marker_file() -> (r: &'static str)
    ensures
        r@ == "tab-title-debounce-ms"@,
{
    "tab-title-debounce-ms"
}

/// How a debounced action failed.
#[derive(Debug)]
pub enum DebounceError {
    /// The state directory or the marker file could not be used.
    Io(std::io::Error),
    /// The system clock is set before the Unix epoch.
    Clock(std::time::SystemTimeError),
    /// The action itself failed.
    Action(String),
}

impl DebounceError {
    /// The error as a sentence; the texts of I/O and clock errors come from
    /// those errors.
    pub fn message(&self) -> (r: String)
        ensures
            match self {
                DebounceError::Io(_) => exists|t: Seq<char>| r@ == "debounce I/O failed: "@ + t,
                DebounceError::Clock(_) => exists|t: Seq<char>|
                    r@ == "debounce clock failed: "@ + t,
                DebounceError::Action(text) => r@ == text@,
            },
    {
        match self {
            DebounceError::Io(error) => {
                let mut text = String::from_str("debounce I/O failed: ");
                let detail = io_error_text(error);
                text.append(detail.as_str());
                text
            },
            DebounceError::Clock(error) => {
                let mut text = String::from_str("debounce clock failed: ");
                let detail = system_time_error_text(error);
                text.append(detail.as_str());
                text
            },
            DebounceError::Action(text) => text.clone(),
        }
    }
}

/// Milliseconds since the Unix epoch, or the clock error.
pub fn unix_ms() -> (r: Result<u128, DebounceError>)
    ensures
        r matches Err(e) ==> e is Clock,
{
    clock_millis(unix_epoch_millis())
}

/// What a reading of the system clock gives: the milliseconds it read, or
/// its error as a clock error.
pub fn clock_millis(reading: Result<u128, std::time::SystemTimeError>) -> (r: Result<
    u128,
    DebounceError,
>)
    ensures
        match reading {
            Ok(ms) => r == Ok::<u128, DebounceError>(ms),
            Err(error) => r == Err::<u128, DebounceError>(DebounceError::Clock(error)),
        },
{
    match reading {
        Ok(ms) => Ok(ms),
        Err(error) => Err(DebounceError::Clock(error)),
    }
}

} // verus!
