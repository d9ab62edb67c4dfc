use vstd::prelude::*;

verus! {

/// A value kept for a limited time. Instants are seconds on a monotonic
/// clock that the caller reads.
pub struct CachedValue<T> {
    value: Option<T>,
    instant: u64,
    duration_seconds: u64,
}

/// The abstract contents of a `CachedValue`.
pub ghost struct CachedView<T> {
    pub value: Option<T>,
    /// When the value was stored.
    pub instant: u64,
    /// How long a stored value stays usable.
    pub duration_seconds: u64,
}

impl<T> View for CachedValue<T> {
    type V = CachedView<T>;

    closed spec fn view(&self) -> CachedView<T> {
        CachedView {
            value: self.value,
            instant: self.instant,
            duration_seconds: self.duration_seconds,
        }
    }
}

/// Seconds from `start` to `now`; zero when `now` is earlier.
pub open spec fn elapsed(start: u64, now: u64) -> int {
    if now >= start {
        now - start
    } else {
        0
    }
}

/// A stored value is still usable at `now`.
pub open spec fn is_fresh<T>(c: CachedView<T>, now: u64) -> bool {
    c.value is Some && elapsed(c.instant, now) < c.duration_seconds
}

impl<T> CachedValue<T> {
    /// An empty cache whose values last `duration_seconds`.
    pub fn new(duration_seconds: u64, now: u64) -> (r: CachedValue<T>)
        ensures
            r@.value is None,
            r@.instant == now,
            r@.duration_seconds == duration_seconds,
    {
        CachedValue { value: None, instant: now, duration_seconds }
    }

    /// The stored value, if there is one and it has not expired at `now`.
    pub fn get_value(&self, now: u64) -> (r: Option<&T>)
        ensures
            r is Some <==> is_fresh(self@, now),
            r is Some ==> *r->Some_0 == self@.value->Some_0,
    {
        let elapsed: u64 = if now >= self.instant {
            now - self.instant
        } else {
            0
        };
        match &self.value {
            Some(v) => {
                if elapsed < self.duration_seconds {
                    Some(v)
                } else {
                    None
                }
            },
            None => None,
        }
    }

    /// Stores `value` as fetched at `now`.
    pub fn with_value(&mut self, value: T, now: u64)
        ensures
            final(self)@ == (CachedView {
                value: Some(value),
                instant: now,
                duration_seconds: old(self)@.duration_seconds,
            }),
    {
        self.value = Some(value);
        self.instant = now;
    }

    /// How long stored values last.
    pub fn duration_seconds(&self) -> (r: u64)
        ensures
            r == self@.duration_seconds,
    {
        self.duration_seconds
    }
}

} // verus!
