//! The search history: which word was looked up, when and how often.
use vstd::prelude::*;
use chrono::Utc;
use crate::text::{concat, decimal, usize_to_string};

verus! {

/// A point in time, in UTC: seconds since the Unix epoch and the
/// nanoseconds within that second.
#[derive(Clone, Copy, PartialEq, Eq, Structural, Debug)]
pub struct Timestamp {
    pub seconds: i64,
    pub nanoseconds: u32,
}

/// The current time: `chrono::Utc::now`, taken apart into its Unix
/// timestamp and the nanoseconds within that second. It depends on the
/// clock, so nothing is stated of it but the range that `chrono`
/// documents for the nanoseconds (below 2,000,000,000, leap seconds
/// included).
#[verifier::external_body]
pub(crate) fn utc_now() -> (res: Timestamp)
    ensures
        res.nanoseconds < 2_000_000_000,
{
    let now = Utc::now();
    Timestamp { seconds: now.timestamp(), nanoseconds: now.timestamp_subsec_nanos() }
}

/// A word of the history: when it was seen the time before last and last,
/// and how often it was seen again after the first time.
#[derive(Clone, Debug)]
pub struct HistoryEntry {
    pub word: String,
    pub last_seen_at: Timestamp,
    pub now_seen_at: Timestamp,
    pub count: usize,
}

impl HistoryEntry {
    /// A word seen for the first time, at `now`.
    pub fn first_seen_at(word: String, now: Timestamp) -> (res: HistoryEntry)
        ensures
            res.word == word,
            res.now_seen_at == now,
            res.last_seen_at == now,
            res.count == 0,
    {
        HistoryEntry { word, now_seen_at: now, last_seen_at: now, count: 0 }
    }

    /// The word is seen again, at `now`.
    pub fn seen_again_at(&mut self, now: Timestamp)
        requires
            old(self).count < usize::MAX,
        ensures
            final(self).word == old(self).word,
            final(self).last_seen_at == old(self).now_seen_at,
            final(self).now_seen_at == now,
            final(self).count == old(self).count + 1,
    {
        self.last_seen_at = self.now_seen_at;
        self.now_seen_at = now;
        self.count = self.count + 1;
    }

    /// A word seen for the first time, now: at the time the clock gives.
    pub fn from(word: String) -> (res: HistoryEntry)
        ensures
            res.word == word,
            res.last_seen_at == res.now_seen_at,
            res.now_seen_at.nanoseconds < 2_000_000_000,
            res.count == 0,
    {
        HistoryEntry::first_seen_at(word, utc_now())
    }

    /// The word is seen again, now: at the time the clock gives.
    pub fn tick(&mut self)
        requires
            old(self).count < usize::MAX,
        ensures
            final(self).word == old(self).word,
            final(self).last_seen_at == old(self).now_seen_at,
            final(self).now_seen_at.nanoseconds < 2_000_000_000,
            final(self).count == old(self).count + 1,
    {
        let now = utc_now();
        self.seen_again_at(now);
    }

    /// The entry as it is displayed, given how its two moments are written:
    /// the word, when it was seen before and now, and how often.
    pub fn describe(&self, last_seen_at: &str, now_seen_at: &str) -> (res: String)
        ensures
            res@ == "found "@ + self.word@ + "\n"@ + "last seen at "@ + last_seen_at@ + "\n"@
                + "now seen at "@ + now_seen_at@ + "\n"@ + "count is "@ + decimal(
                self.count as nat,
            ) + "\n"@,
    {
        let res = concat("found ", self.word.as_str());
        let res = concat(res.as_str(), "\n");
        let res = concat(res.as_str(), "last seen at ");
        let res = concat(res.as_str(), last_seen_at);
        let res = concat(res.as_str(), "\n");
        let res = concat(res.as_str(), "now seen at ");
        let res = concat(res.as_str(), now_seen_at);
        let res = concat(res.as_str(), "\n");
        let res = concat(res.as_str(), "count is ");
        let res = concat(res.as_str(), usize_to_string(self.count).as_str());
        concat(res.as_str(), "\n")
    }
}

} // verus!
