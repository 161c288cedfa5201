//! Cumulative savings: running totals, the tail of a response body, and the
//! prompt-cache usage that the tail reports.

use crate::calendar::{rfc3339_from_unix, shows};
use crate::decimal::{parse_u64, read_u64};
use crate::outside::{
    captures, contiguous, from_utf8_lossy, regex_captures, seconds_since_epoch, texts, utf8_lossy,
    CACHED_TOKENS,
};
use std::collections::VecDeque;
use vstd::prelude::*;

verus! {

// --- Totals --------------------------------------------------------------------

/// The totals at one moment.
#[derive(Debug)]
pub struct TotalsSnapshot {
    pub requests: u64,
    pub before_tokens: u64,
    pub after_tokens: u64,
    pub upstream_cached_tokens: u64,
    pub responses_with_cache_info: u64,
    /// When the counting began, as an RFC 3339 timestamp.
    pub since: String,
}

/// What totals stand for.
pub struct Counters {
    pub requests: u64,
    pub before_tokens: u64,
    pub after_tokens: u64,
    pub upstream_cached_tokens: u64,
    pub responses_with_cache_info: u64,
    pub since: Seq<char>,
}

impl View for TotalsSnapshot {
    type V = Counters;

    open spec fn view(&self) -> Counters {
        Counters {
            requests: self.requests,
            before_tokens: self.before_tokens,
            after_tokens: self.after_tokens,
            upstream_cached_tokens: self.upstream_cached_tokens,
            responses_with_cache_info: self.responses_with_cache_info,
            since: self.since@,
        }
    }
}

impl TotalsSnapshot {
    /// Tokens saved; an expansion saves none.
    pub fn saved_tokens(&self) -> (r: u64)
        ensures
            r == if self.before_tokens >= self.after_tokens {
                self.before_tokens - self.after_tokens
            } else {
                0
            },
    {
        self.before_tokens.saturating_sub(self.after_tokens)
    }
}

/// Running totals. The counters wrap around at the end of their range.
#[derive(Debug)]
pub struct Totals {
    now: TotalsSnapshot,
}

impl View for Totals {
    type V = Counters;

    closed spec fn view(&self) -> Counters {
        self.now@
    }
}

/// Totals of nothing, counted since `since`.
pub open spec fn zero_counters(since: Seq<char>) -> Counters {
    Counters {
        requests: 0,
        before_tokens: 0,
        after_tokens: 0,
        upstream_cached_tokens: 0,
        responses_with_cache_info: 0,
        since,
    }
}

/// `c` with one more request counted.
pub open spec fn with_request(c: Counters, before: u64, after: u64) -> Counters {
    Counters {
        requests: c.requests.wrapping_add(1),
        before_tokens: c.before_tokens.wrapping_add(before),
        after_tokens: c.after_tokens.wrapping_add(after),
        ..c
    }
}

/// `c` with one more response counted that told of `cached` tokens.
pub open spec fn with_cache_info(c: Counters, cached: u64) -> Counters {
    Counters {
        upstream_cached_tokens: c.upstream_cached_tokens.wrapping_add(cached),
        responses_with_cache_info: c.responses_with_cache_info.wrapping_add(1),
        ..c
    }
}

impl Totals {
    /// Totals of nothing, counted from now on.
    pub fn fresh() -> (r: Self)
        ensures
            r@ == zero_counters(r@.since),
            is_timestamp(r@.since),
    {
        Self::starting(now_rfc3339())
    }

    /// Totals of nothing, counted since `since`.
    pub fn starting(since: String) -> (r: Self)
        ensures
            r@ == zero_counters(since@),
    {
        Self::from_snapshot(
            TotalsSnapshot {
                requests: 0,
                before_tokens: 0,
                after_tokens: 0,
                upstream_cached_tokens: 0,
                responses_with_cache_info: 0,
                since,
            },
        )
    }

    /// Goes on from a snapshot.
    pub fn from_snapshot(s: TotalsSnapshot) -> (r: Self)
        ensures
            r@ == s@,
    {
        Totals { now: s }
    }

    /// Goes on from a stored snapshot where there is one that could be read, and
    /// starts from nothing where there is not.
    pub fn load(persisted: Option<TotalsSnapshot>) -> (r: Self)
        ensures
            match persisted {
                Some(s) => r@ == s@,
                None => r@ == zero_counters(r@.since) && is_timestamp(r@.since),
            },
    {
        match persisted {
            Some(s) => Self::from_snapshot(s),
            None => Self::fresh(),
        }
    }

    /// The totals as they are.
    pub fn snapshot(&self) -> (r: TotalsSnapshot)
        ensures
            r@ == self@,
    {
        TotalsSnapshot {
            requests: self.now.requests,
            before_tokens: self.now.before_tokens,
            after_tokens: self.now.after_tokens,
            upstream_cached_tokens: self.now.upstream_cached_tokens,
            responses_with_cache_info: self.now.responses_with_cache_info,
            since: self.now.since.clone(),
        }
    }

    /// Counts one request, and says how many there were.
    pub fn record_request(&mut self, before: u64, after: u64) -> (r: u64)
        ensures
            final(self)@ == with_request(old(self)@, before, after),
            r == final(self)@.requests,
    {
        self.now.before_tokens = self.now.before_tokens.wrapping_add(before);
        self.now.after_tokens = self.now.after_tokens.wrapping_add(after);
        self.now.requests = self.now.requests.wrapping_add(1);
        self.now.requests
    }

    /// Counts one response that told how many tokens came from the prompt cache.
    pub fn record_cache_info(&mut self, cached_tokens: u64)
        ensures
            final(self)@ == with_cache_info(old(self)@, cached_tokens),
    {
        self.now.upstream_cached_tokens = self.now.upstream_cached_tokens.wrapping_add(cached_tokens);
        self.now.responses_with_cache_info = self.now.responses_with_cache_info.wrapping_add(1);
    }
}

/// How many requests pass between two writes of the totals.
pub const FLUSH_EVERY: u64 = 32;

/// Whether the totals are due to be written after request number `requests`.
pub fn flush_due(requests: u64) -> (r: bool)
    ensures
        r == (requests % FLUSH_EVERY == 0),
{
    requests % FLUSH_EVERY == 0
}

/// Counting requests and counting cache information do not get in each other's way.
pub proof fn law_counts_are_independent(c: Counters, before: u64, after: u64, cached: u64)
    ensures
        with_cache_info(with_request(c, before, after), cached) == with_request(
            with_cache_info(c, cached),
            before,
            after,
        ),
        with_request(c, before, after).since == c.since,
        with_cache_info(c, cached).since == c.since,
{
}

// --- Tail ----------------------------------------------------------------------

/// How many bytes of a body's tail are kept.
pub const TAIL_CAP: usize = 16384;

/// The last [`TAIL_CAP`] elements of `s`, or all of them if there are fewer.
pub open spec fn tail_of(s: Seq<u8>) -> Seq<u8> {
    if s.len() <= TAIL_CAP {
        s
    } else {
        s.skip(s.len() - TAIL_CAP)
    }
}

/// The last bytes of what was pushed.
pub struct TailBuffer {
    buf: VecDeque<u8>,
}

impl View for TailBuffer {
    type V = Seq<u8>;

    closed spec fn view(&self) -> Seq<u8> {
        self.buf@
    }
}

impl Default for TailBuffer {
    fn default() -> (r: Self)
        ensures
            r@ == Seq::<u8>::empty(),
    {
        Self::new()
    }
}

impl TailBuffer {
    pub fn new() -> (r: Self)
        ensures
            r@ == Seq::<u8>::empty(),
    {
        TailBuffer { buf: VecDeque::with_capacity(TAIL_CAP) }
    }

    /// Appends `chunk` and keeps the last bytes of it all.
    pub fn push(&mut self, chunk: &[u8])
        ensures
            final(self)@ == tail_of(old(self)@ + chunk@),
    {
        let ghost before = self.buf@;
        let mut i: usize = 0;
        if chunk.len() >= TAIL_CAP {
            self.buf.clear();
            i = chunk.len() - TAIL_CAP;
            assert(tail_of(before + chunk@) == chunk@.skip(i as int));
            while i < chunk.len()
                invariant
                    chunk@.len() >= TAIL_CAP,
                    chunk@.len() - TAIL_CAP <= i <= chunk@.len(),
                    self.buf@ == chunk@.subrange(chunk@.len() - TAIL_CAP, i as int),
                decreases chunk@.len() - i,
            {
                self.buf.push_back(chunk[i]);
                assert(self.buf@ == chunk@.subrange(chunk@.len() - TAIL_CAP, i + 1));
                i = i + 1;
            }
            assert(self.buf@ == chunk@.skip(chunk@.len() - TAIL_CAP));
            return;
        }
        while i < chunk.len()
            invariant
                i <= chunk@.len(),
                self.buf@ == before + chunk@.take(i as int),
            decreases chunk@.len() - i,
        {
            self.buf.push_back(chunk[i]);
            assert(chunk@.take(i + 1) == chunk@.take(i as int).push(chunk@[i as int]));
            i = i + 1;
        }
        let ghost all = before + chunk@;
        assert(chunk@.take(chunk@.len() as int) == chunk@);
        assert(all.skip(0) == all);
        let ghost mut cut: int = 0;
        while self.buf.len() > TAIL_CAP
            invariant
                0 <= cut <= all.len(),
                self.buf@ == all.skip(cut),
                tail_of(all.skip(cut)) == tail_of(all),
            decreases self.buf@.len(),
        {
            let _ = self.buf.pop_front();
            proof {
                cut = cut + 1;
                assert(self.buf@ == all.skip(cut));
            }
        }
    }

    /// The tail as one slice, in the order in which it was pushed.
    pub fn as_bytes(&mut self) -> (r: &[u8])
        ensures
            r@ == old(self)@,
            final(self)@ == old(self)@,
    {
        contiguous(&mut self.buf)
    }
}

/// It makes no difference how a body is cut into chunks: the tail after two pushes
/// is the tail after one push of both chunks. And it never outgrows its cap.
pub proof fn law_chunking_does_not_matter(s: Seq<u8>, a: Seq<u8>, b: Seq<u8>)
    ensures
        tail_of(tail_of(s + a) + b) == tail_of(s + (a + b)),
        tail_of(s).len() <= TAIL_CAP,
{
    assert((s + a) + b == s + (a + b));
    let whole = (s + a) + b;
    let part = tail_of(s + a);
    if (s + a).len() > TAIL_CAP {
        let cut = (s + a).len() - TAIL_CAP;
        assert(part + b == whole.skip(cut));
        assert(tail_of(part + b) == tail_of(whole));
    }
}

// --- Recent requests -----------------------------------------------------------

/// How many of the last requests are remembered.
pub const RECENT_CAP: usize = 50;

/// A request that was compressed.
#[derive(Debug)]
pub struct RecentRequest {
    pub endpoint: String,
    pub before_tokens: usize,
    pub after_tokens: usize,
}

/// What a [`RecentRequest`] stands for.
pub struct Passed {
    pub endpoint: Seq<char>,
    pub before_tokens: usize,
    pub after_tokens: usize,
}

impl View for RecentRequest {
    type V = Passed;

    open spec fn view(&self) -> Passed {
        Passed {
            endpoint: self.endpoint@,
            before_tokens: self.before_tokens,
            after_tokens: self.after_tokens,
        }
    }
}

/// What a list of requests stands for.
pub open spec fn passed(v: Seq<RecentRequest>) -> Seq<Passed> {
    v.map_values(|r: RecentRequest| r@)
}

/// The last [`RECENT_CAP`] elements of `s`, or all of them if there are fewer.
pub open spec fn last_ones(s: Seq<Passed>) -> Seq<Passed> {
    if s.len() <= RECENT_CAP {
        s
    } else {
        s.skip(s.len() - RECENT_CAP)
    }
}

/// The last requests, from oldest to newest.
pub struct RecentRequests {
    ring: VecDeque<RecentRequest>,
}

impl View for RecentRequests {
    type V = Seq<Passed>;

    closed spec fn view(&self) -> Seq<Passed> {
        passed(self.ring@)
    }
}

impl RecentRequests {
    pub fn new() -> (r: Self)
        ensures
            r@ == Seq::<Passed>::empty(),
    {
        let r: RecentRequests = RecentRequests { ring: VecDeque::new() };
        assert(passed(r.ring@) == Seq::<Passed>::empty());
        r
    }

    /// Remembers a request, and forgets the oldest ones beyond the cap.
    pub fn push(&mut self, request: RecentRequest)
        ensures
            final(self)@ == last_ones(old(self)@.push(request@)),
    {
        let ghost all = passed(self.ring@).push(request@);
        self.ring.push_back(request);
        assert(passed(self.ring@) == all);
        assert(all.skip(0) == all);
        let ghost mut cut: int = 0;
        while self.ring.len() > RECENT_CAP
            invariant
                0 <= cut <= all.len(),
                passed(self.ring@) == all.skip(cut),
                last_ones(all.skip(cut)) == last_ones(all),
            decreases self.ring@.len(),
        {
            let ghost before = self.ring@;
            let _ = self.ring.pop_front();
            proof {
                assert(passed(self.ring@) == passed(before).skip(1));
                assert(all.skip(cut).skip(1) == all.skip(cut + 1));
                cut = cut + 1;
            }
        }
    }

    /// How many requests are remembered.
    pub fn len(&self) -> (r: usize)
        ensures
            r == self@.len(),
    {
        self.ring.len()
    }

    /// A request that is remembered, counted from the oldest.
    pub fn get(&self, i: usize) -> (r: Option<RecentRequest>)
        ensures
            match r {
                Some(x) => i < self@.len() && x@ == self@[i as int],
                None => i >= self@.len(),
            },
    {
        if i < self.ring.len() {
            let x: &RecentRequest = &self.ring[i];
            Some(
                RecentRequest {
                    endpoint: x.endpoint.as_str().to_owned(),
                    before_tokens: x.before_tokens,
                    after_tokens: x.after_tokens,
                },
            )
        } else {
            None
        }
    }
}

// --- Cached tokens -------------------------------------------------------------

/// The last of the counts, if there is one and it is a number that fits.
pub open spec fn last_count(counts: Seq<Seq<char>>) -> Option<u64> {
    if counts.len() == 0 {
        None
    } else {
        read_u64(counts.last())
    }
}

/// The last of the counts: the final one of a stream arrives at its end.
pub fn last_cached_tokens(counts: &Vec<String>) -> (r: Option<u64>)
    ensures
        r == last_count(texts(counts@)),
{
    if counts.len() == 0 {
        None
    } else {
        assert(texts(counts@).last() == counts@[counts@.len() - 1]@);
        parse_u64(counts[counts.len() - 1].as_str())
    }
}

/// How many tokens came from the prompt cache, as the tail of a response tells it:
/// `"cached_tokens"` or `"cache_read_input_tokens"`, and the last of them counts.
pub fn extract_cached_tokens(tail: &[u8]) -> (r: Option<u64>)
    ensures
        r == last_count(regex_captures(CACHED_TOKENS@, utf8_lossy(tail@))),
{
    let text: String = from_utf8_lossy(tail);
    let counts: Vec<String> = captures(CACHED_TOKENS, text.as_str());
    last_cached_tokens(&counts)
}

// --- Clock ---------------------------------------------------------------------

/// What a clock's reading counts as: 0 where it is behind the epoch. A count beyond the
/// range of `i64` wraps around.
pub open spec fn clock_seconds(reading: Option<u64>) -> int {
    match reading {
        Some(s) => if s <= i64::MAX {
            s as int
        } else {
            s - 0x1_0000_0000_0000_0000
        },
        None => 0,
    }
}

/// Seconds since the Unix epoch; 0 on a clock that is behind it.
pub fn now_unix() -> (r: i64)
    ensures
        exists|reading: Option<u64>| r == #[trigger] clock_seconds(reading),
{
    let reading: Option<u64> = seconds_since_epoch();
    let r: i64 = unix_seconds(reading);
    assert(r == clock_seconds(reading));
    r
}

/// What a clock's reading counts as.
pub fn unix_seconds(reading: Option<u64>) -> (r: i64)
    ensures
        r == clock_seconds(reading),
{
    match reading {
        Some(s) => if s <= i64::MAX as u64 {
            s as i64
        } else {
            -((u64::MAX - s) as i64) - 1
        },
        None => 0,
    }
}

/// `text` is the timestamp of some point in time.
pub open spec fn is_timestamp(text: Seq<char>) -> bool {
    exists|secs: i64| #[trigger] shows(text, secs as int)
}

/// The current time as an RFC 3339 timestamp in UTC.
pub fn now_rfc3339() -> (r: String)
    ensures
        is_timestamp(r@),
{
    let secs: i64 = now_unix();
    rfc3339_from_unix(secs)
}

} // verus!
