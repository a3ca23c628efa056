//! Brief notifications that dismiss themselves.
use vstd::prelude::*;

verus! {

/// How long a toast stays visible, in milliseconds.
pub const TOAST_DURATION_MS: u128 = 2000;

/// How long the fade-out at the end lasts, in milliseconds.
pub const FADE_DURATION_MS: u128 = 500;

#[verifier::external_type_specification]
#[verifier::external_body]
pub struct ExInstant(std::time::Instant);

/// `Instant::now`. Nothing is claimed of the value: it is the clock's.
#[verifier::external_body]
pub(crate) fn now() -> std::time::Instant {
    std::time::Instant::now()
}

/// `Instant::elapsed` in whole milliseconds. Nothing is claimed of the
/// value: it depends on the clock.
#[verifier::external_body]
fn elapsed_ms(t: &std::time::Instant) -> u128 {
    t.elapsed().as_millis()
}

/// A brief, auto-dismissing notification.
pub struct Toast {
    pub message: String,
    pub created_at: std::time::Instant,
}

/// Whether a toast `age_ms` milliseconds old has run its course.
pub open spec fn expired_at(age_ms: nat) -> bool {
    age_ms >= TOAST_DURATION_MS
}

/// Whether a toast `age_ms` milliseconds old has expired.
pub fn expired_after(age_ms: u128) -> (r: bool)
    ensures
        r == expired_at(age_ms as nat),
{
    age_ms >= TOAST_DURATION_MS
}

/// How far a fading toast is into its fade, in milliseconds out of
/// `FADE_DURATION_MS`; zero before the fade starts.
pub fn fade_progress_ms(age_ms: u128) -> (r: u128)
    ensures
        age_ms <= TOAST_DURATION_MS - FADE_DURATION_MS ==> r == 0,
        TOAST_DURATION_MS - FADE_DURATION_MS < age_ms < TOAST_DURATION_MS ==> r == age_ms - (
        TOAST_DURATION_MS - FADE_DURATION_MS),
        expired_at(age_ms as nat) ==> r == FADE_DURATION_MS,
{
    if age_ms >= TOAST_DURATION_MS {
        FADE_DURATION_MS
    } else if age_ms <= TOAST_DURATION_MS - FADE_DURATION_MS {
        0
    } else {
        age_ms - (TOAST_DURATION_MS - FADE_DURATION_MS)
    }
}

impl Toast {
    /// A toast shown from now.
    pub fn new(message: String) -> (t: Self)
        ensures
            t.message@ == message@,
    {
        Toast { message, created_at: now() }
    }

    /// Whether the toast has expired and should be removed. The clock
    /// decides; what the age decides is `expired_after`.
    pub fn is_expired(&self) -> (r: bool)
        ensures
            exists|age: u128| r == expired_at(age as nat),
    {
        let age = elapsed_ms(&self.created_at);
        expired_after(age)
    }
}

} // verus!
