//! Wall-clock time as the commit message shows it.

use vstd::prelude::*;

verus! {

/// A calendar date and time broken down into its parts.
#[derive(Clone, Copy, Debug, PartialEq, Eq, Structural)]
pub struct Timestamp {
    /// Seconds after the minute.
    pub sec: i32,
    /// Minutes after the hour.
    pub min: i32,
    /// Hours after midnight.
    pub hour: i32,
    /// Day of the month.
    pub mday: i32,
    /// Months since January.
    pub mon: i32,
    /// Years since 1900.
    pub year: i32,
    /// Days since Sunday.
    pub wday: i32,
    /// Days since January 1.
    pub yday: i32,
    /// Daylight saving time flag.
    pub isdst: i32,
    /// Seconds east of UTC.
    pub utcoff: i32,
    /// Nanoseconds after the second.
    pub nsec: i32,
}

/// The text that `time::Tm::rfc822` displays for the broken-down time `stamp`.
pub uninterp spec fn rfc822_text(stamp: Timestamp) -> Seq<char>;

impl Timestamp {
    /// Whether the date can be written out: the week day and the month must
    /// name a day and a month, and the year must fit once 1900 is added.
    pub open spec fn printable(&self) -> bool {
        &&& 0 <= self.wday <= 6
        &&& 0 <= self.mon <= 11
        &&& self.year <= i32::MAX - 1900
    }

    pub fn is_printable(&self) -> (ok: bool)
        ensures
            ok == self.printable(),
    {
        0 <= self.wday && self.wday <= 6 && 0 <= self.mon && self.mon <= 11 && self.year
            <= i32::MAX - 1900
    }

    /// Reads the clock. Calls `time::now`; nothing is claimed of the reading.
    #[verifier::external_body]
    pub(crate) fn now() -> (stamp: Timestamp) {
        let tm = time::now();
        Timestamp {
            sec: tm.tm_sec,
            min: tm.tm_min,
            hour: tm.tm_hour,
            mday: tm.tm_mday,
            mon: tm.tm_mon,
            year: tm.tm_year,
            wday: tm.tm_wday,
            yday: tm.tm_yday,
            isdst: tm.tm_isdst,
            utcoff: tm.tm_utcoff,
            nsec: tm.tm_nsec,
        }
    }
}

/// Writes `stamp` out as RFC 822 does. Calls `time::Tm::rfc822` on a `Tm` with
/// the fields of `stamp`, and claims only that the text depends on nothing but
/// those fields. The outside code cannot name a week day outside 0..=6 or a
/// month outside 0..=11, and adds 1900 to the year.
#[verifier::external_body]
pub(crate) fn rfc822(stamp: &Timestamp) -> (text: String)
    requires
        stamp.printable(),
    ensures
        text@ == rfc822_text(*stamp),
{
    let tm = time::Tm {
        tm_sec: stamp.sec,
        tm_min: stamp.min,
        tm_hour: stamp.hour,
        tm_mday: stamp.mday,
        tm_mon: stamp.mon,
        tm_year: stamp.year,
        tm_wday: stamp.wday,
        tm_yday: stamp.yday,
        tm_isdst: stamp.isdst,
        tm_utcoff: stamp.utcoff,
        tm_nsec: stamp.nsec,
    };
    tm.rfc822().to_string()
}

/// The message of a commit made at `stamp`.
pub open spec fn commit_message_text(stamp: Timestamp) -> Seq<char> {
    "Autocommit "@ + rfc822_text(stamp)
}

/// Builds the message of a commit made at `stamp`.
pub fn commit_message(stamp: &Timestamp) -> (message: String)
    requires
        stamp.printable(),
    ensures
        message@ == commit_message_text(*stamp),
{
    let text = rfc822(stamp);
    let message = String::from_str("Autocommit ");
    message.concat(text.as_str())
}

} // verus!
