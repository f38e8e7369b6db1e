//! The decisions of the cross-process refresh lock: every process writes its
//! own deadline into a marker file, waits, and runs its refresh only when
//! the file still holds its own marker, so that of a burst of processes only
//! the last one refreshes.
use vstd::prelude::*;

use crate::system::{io_error_text, system_time_error_text, unix_epoch_millis};
use crate::text::{decimal, decimal_string, is_ascii_digit, is_white_space, str_trim, trim_end,
    trim_start, trimmed};

verus! {

/// How long, in milliseconds, a process waits before it checks the lock.
pub const REFRESH_LOCK_DELAY_MS: u64 = 100;

/// The name of the refresh lock's marker file inside the plugin state
/// directory.
pub fn refresh_lock_marker_file() -> (r: &'static str)
    ensures
        r@ == "tab-title-refresh-lock-ms"@,
{
    "tab-title-refresh-lock-ms"
}

/// The marker a process writes: its deadline, `now_ms + delay_ms`, in
/// decimal.
pub fn deadline_marker(now_ms: u128, delay_ms: u64) -> (r: String)
    requires
        now_ms + delay_ms <= u128::MAX,
    ensures
        r@ == decimal((now_ms + delay_ms) as nat),
{
    decimal_string(now_ms + delay_ms as u128)
}

/// Whether the marker file, read back as `latest`, still holds `marker`
/// once surrounding white space is trimmed.
pub fn marker_is_current(latest: &str, marker: &str) -> (r: bool)
    ensures
        r == (trimmed(latest@) == marker@),
{
    crate::text::str_equal(str_trim(latest), marker)
}

/// Every character of a decimal is a digit.
pub proof fn lemma_decimal_digits(n: nat)
    ensures
        decimal(n).len() > 0,
        forall|j: int| 0 <= j < decimal(n).len() ==> is_ascii_digit(#[trigger] decimal(n)[j]),
    decreases n,
{
    if n >= 10 {
        lemma_decimal_digits(n / 10);
        let d = n % 10;
        assert(is_ascii_digit(crate::text::digit_char(d)));
        assert forall|j: int| 0 <= j < decimal(n).len() implies is_ascii_digit(
            #[trigger] decimal(n)[j],
        ) by {
            if j < decimal(n / 10).len() {
                assert(decimal(n)[j] == decimal(n / 10)[j]);
            }
        }
    }
}

/// The process whose marker is still in the file holds the lock: a marker
/// reads back as itself.
pub proof fn lemma_own_marker_is_current(deadline: nat)
    ensures
        trimmed(decimal(deadline)) == decimal(deadline),
{
    lemma_decimal_digits(deadline);
    let s = decimal(deadline);
    assert(!is_white_space(s[0]));
    assert(!is_white_space(s.last()));
    assert(trim_start(s) == s);
    assert(trim_end(s) == s);
}

/// Once another process has written a different deadline, an earlier
/// process no longer holds the lock, and the later one does.
pub proof fn lemma_latest_marker_wins(earlier: nat, later: nat)
    requires
        earlier != later,
    ensures
        trimmed(decimal(later)) != decimal(earlier),
        trimmed(decimal(later)) == decimal(later),
{
    lemma_own_marker_is_current(later);
    lemma_decimal_injective(earlier, later);
}

/// Different numbers have different decimals.
pub proof fn lemma_decimal_injective(a: nat, b: nat)
    requires
        a != b,
    ensures
        decimal(a) != decimal(b),
    decreases a + b,
{
    if a < 10 && b < 10 {
        assert(decimal(a)[0] != decimal(b)[0]);
    } else if a < 10 {
        lemma_decimal_digits(b / 10);
        assert(decimal(a).len() == 1);
        assert(decimal(b).len() >= 2);
    } else if b < 10 {
        lemma_decimal_digits(a / 10);
        assert(decimal(b).len() == 1);
        assert(decimal(a).len() >= 2);
    } else if a % 10 != b % 10 {
        assert(decimal(a).last() != decimal(b).last());
    } else {
        assert(a / 10 != b / 10);
        lemma_decimal_injective(a / 10, b / 10);
        if decimal(a) == decimal(b) {
            assert(decimal(a).drop_last() =~= decimal(a / 10));
            assert(decimal(b).drop_last() =~= decimal(b / 10));
        }
    }
}

/// How a refresh under the lock failed.
#[derive(Debug)]
pub enum RefreshLockError {
    /// The state directory or the marker file could not be used.
    Io(std::io::Error),
    /// The system clock is set before the Unix epoch.
    Clock(std::time::SystemTimeError),
    /// The refresh itself failed.
    Action(String),
}

impl RefreshLockError {
    /// The error as a sentence; the texts of I/O and clock errors come from
    /// those errors.
    pub fn message(&self) -> (r: String)
        ensures
            match self {
                RefreshLockError::Io(_) => exists|t: Seq<char>|
                    r@ == "refresh lock I/O failed: "@ + t,
                RefreshLockError::Clock(_) => exists|t: Seq<char>|
                    r@ == "refresh lock clock failed: "@ + t,
                RefreshLockError::Action(text) => r@ == text@,
            },
    {
        match self {
            RefreshLockError::Io(error) => {
                let mut text = String::from_str("refresh lock I/O failed: ");
                let detail = io_error_text(error);
                text.append(detail.as_str());
                text
            },
            RefreshLockError::Clock(error) => {
                let mut text = String::from_str("refresh lock clock failed: ");
                let detail = system_time_error_text(error);
                text.append(detail.as_str());
                text
            },
            RefreshLockError::Action(text) => text.clone(),
        }
    }
}

/// Milliseconds since the Unix epoch, or the clock error.
pub fn unix_ms() -> (r: Result<u128, RefreshLockError>)
    ensures
        r matches Err(e) ==> e is Clock,
{
    clock_millis(unix_epoch_millis())
}

/// What a reading of the system clock gives: the milliseconds it read, or
/// its error as a clock error.
pub fn clock_millis(reading: Result<u128, std::time::SystemTimeError>) -> (r: Result<
    u128,
    RefreshLockError,
>)
    ensures
        match reading {
            Ok(ms) => r == Ok::<u128, RefreshLockError>(ms),
            Err(error) => r == Err::<u128, RefreshLockError>(RefreshLockError::Clock(error)),
        },
{
    match reading {
        Ok(ms) => Ok(ms),
        Err(error) => Err(RefreshLockError::Clock(error)),
    }
}

} // verus!
