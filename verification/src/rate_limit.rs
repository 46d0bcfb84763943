//! The server-advertised call quota and the pause that keeps within it.
//!
//! Points in time and durations are whole nanoseconds. A point in time counts
//! from an origin that the caller's clock fixes once.

use vstd::prelude::*;
use vstd::utf8::decode_utf8;
use vstd::utf8::encode_utf8_decode_utf8;
use vstd::utf8::valid_utf8;
use vstd::string::StringSliceAdditionalSpecFns;
use crate::text::chars_of;
use crate::text::parse_unsigned;
use crate::text::unsigned_number;

verus! {

/// The nanoseconds in one second.
pub const NANOS_PER_SECOND: u128 = 1_000_000_000;

/// The quota that holds before the server has reported one.
pub const DEFAULT_LIMIT: u32 = 10;

/// The state of the quota as far as the server has reported it.
#[derive(Clone, Copy, Debug)]
pub struct RateLimit {
    /// The time after which the quota is fresh again.
    pub decay_period: u128,
    /// The calls that a fresh quota allows.
    pub limit: u32,
    /// The calls that the quota still allows.
    pub remaining: u32,
    /// The point in time at which the decay period was last reported.
    pub time: u128,
}

/// Why the value of a quota header was passed over.
#[derive(Clone, Copy, Debug, PartialEq, Eq, Structural)]
pub enum HeaderParseWarning {
    /// The value is not valid UTF-8.
    InvalidUtf8,
    /// The value is text, but not an unsigned number that fits.
    NotANumber,
}

/// What the value `value` of a quota header counts.
pub open spec fn header_count(value: Seq<u8>) -> Result<u32, HeaderParseWarning> {
    if !valid_utf8(value) {
        Err(HeaderParseWarning::InvalidUtf8)
    } else {
        match unsigned_number(decode_utf8(value), u32::MAX as nat) {
            Some(n) => Ok(n as u32),
            None => Err(HeaderParseWarning::NotANumber),
        }
    }
}

/// `std::str::from_utf8`: the text that `bytes` encode, or nothing where
/// they are not valid UTF-8.
#[verifier::external_body]
fn utf8_text(bytes: &[u8]) -> (text: Option<&str>)
    ensures
        text is Some <==> valid_utf8(bytes@),
        text matches Some(s) ==> s.spec_bytes() == bytes@,
{
    std::str::from_utf8(bytes).ok()
}

/// Reads the value of a quota header that holds a count.
pub fn parse_count_header(value: &[u8]) -> (result: Result<u32, HeaderParseWarning>)
    ensures
        result == header_count(value@),
{
    match utf8_text(value) {
        None => Err(HeaderParseWarning::InvalidUtf8),
        Some(text) => {
            proof {
                encode_utf8_decode_utf8(text@);
            }
            let chars = chars_of(text);
            assert(chars@.subrange(0, chars@.len() as int) == chars@);
            match parse_unsigned(&chars, 0, chars.len(), u32::MAX as u64) {
                Some(n) => Ok(n as u32),
                None => Err(HeaderParseWarning::NotANumber),
            }
        },
    }
}

impl RateLimit {
    /// The quota before any response: ten calls in a period of one second
    /// that starts at `now`.
    pub fn new(now: u128) -> (quota: RateLimit)
        ensures
            quota.decay_period == NANOS_PER_SECOND,
            quota.limit == DEFAULT_LIMIT,
            quota.remaining == DEFAULT_LIMIT,
            quota.time == now,
    {
        RateLimit {
            decay_period: NANOS_PER_SECOND,
            limit: DEFAULT_LIMIT,
            remaining: DEFAULT_LIMIT,
            time: now,
        }
    }

    /// Takes over what a response, received at `now`, reports of the quota.
    ///
    /// Each of the three values stands for one header: the value that the
    /// header reports, or nothing where the header is missing or cannot be
    /// read. A value that is reported replaces the one held; one that is not
    /// leaves it. The point in time moves to `now` only with a reported decay
    /// period.
    pub fn update_from_response(
        &mut self,
        now: u128,
        decay_period: Option<u128>,
        limit: Option<u32>,
        remaining: Option<u32>,
    )
        ensures
            final(self).decay_period == match decay_period {
                Some(period) => period,
                None => old(self).decay_period,
            },
            final(self).time == if decay_period is Some {
                now
            } else {
                old(self).time
            },
            final(self).limit == match limit {
                Some(limit) => limit,
                None => old(self).limit,
            },
            final(self).remaining == match remaining {
                Some(remaining) => remaining,
                None => old(self).remaining,
            },
    {
        if let Some(period) = decay_period {
            self.decay_period = period;
            self.time = now;
        }
        if let Some(limit) = limit {
            self.limit = limit;
        }
        if let Some(remaining) = remaining {
            self.remaining = remaining;
        }
    }

    /// The point in time at which an exhausted quota is fresh again.
    pub open spec fn deadline(&self) -> int {
        self.time + self.decay_period
    }

    /// The pause that a call at `now` has to be put off by.
    pub open spec fn pause_at(&self, now: u128) -> int {
        if self.remaining == 0 && now < self.deadline() {
            self.deadline() - now
        } else {
            0
        }
    }

    /// Decides, before a call at `now`, how long the caller has to pause.
    ///
    /// While calls remain, there is no pause and nothing changes. Once none
    /// remains, the pause lasts until the deadline, and one call is granted
    /// for the time after it.
    pub fn wait(&mut self, now: u128) -> (pause: u128)
        requires
            old(self).deadline() <= u128::MAX,
        ensures
            pause == old(self).pause_at(now),
            old(self).remaining == 0 ==> now + pause >= old(self).deadline(),
            final(self).remaining == if old(self).remaining == 0 {
                1
            } else {
                old(self).remaining
            },
            final(self).limit == old(self).limit,
            final(self).decay_period == old(self).decay_period,
            final(self).time == old(self).time,
    {
        if self.remaining == 0 {
            let deadline = self.time + self.decay_period;
            self.remaining = 1;
            if now < deadline {
                deadline - now
            } else {
                0
            }
        } else {
            0
        }
    }
}

} // verus!
