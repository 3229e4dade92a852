//! The indexer's decisions: when to index, where candle backfill starts, the
//! candle catch-up as a state machine driven by fetched batches, and the
//! price point recorded for a height.
use vstd::prelude::*;
use crate::binance::{FIFTEEN_MINUTES_SECS, MAX_KLINES_PER_REQUEST};
use crate::store::{
    kv_get, lemma_indexed_heights_read_back, meta_last_indexed_height, meta_next_height,
    spec_height_key, spec_latest_price_point_key, spec_next_height, store_price_points,
    lemma_find_cached_candle, lemma_store_candle_batches_dom, seek_reverse, spec_candle_key,
    spec_find_candle, store_candle_batches, StoreError,
};
use crate::types::{CachedCandle, PricePoint};

verus! {

/// Why indexing stopped.
#[derive(Debug, Clone, Copy, PartialEq, Eq, Structural)]
pub enum IndexError {
    /// The first candle asked for opens after the current candle.
    RequestedStartAfterLatest { requested: u64, latest: u64 },
    /// The candle after the last one does not fit in `u64`.
    CursorOverflow,
    /// The end of a batch does not fit in `u64`.
    BatchEndOverflow,
    /// Binance returned no candle for a requested range.
    EmptyBatch { start: u64, end: u64 },
    /// A batch skips or shifts a candle.
    BatchGap { expected: u64, actual: u64 },
    /// The candle after a validated one does not fit in `u64`.
    ValidationOverflow,
    /// No cached candle covers a block's timestamp.
    MissingCandle { height: u64, timestamp: u64 },
}

/// What one poll of the indexing tip decides.
#[derive(Debug, Clone, Copy, PartialEq, Eq, Structural)]
pub enum SyncPlan {
    /// Every height up to the tip is indexed.
    UpToDate,
    /// Heights `from` through `to` are to be indexed, after the candle catch-up.
    Index { from: u64, to: u64 },
}

/// Decides whether a poll has heights to index: those from the next height
/// through the tip.
pub fn plan_sync(next_height: u64, tip: u64) -> (r: SyncPlan)
    ensures
        next_height > tip ==> r == SyncPlan::UpToDate,
        next_height <= tip ==> r == (SyncPlan::Index { from: next_height, to: tip }),
{
    if next_height > tip {
        SyncPlan::UpToDate
    } else {
        SyncPlan::Index { from: next_height, to: tip }
    }
}

/// The height whose block timestamp anchors the candle backfill: the last
/// indexed height, or the next one where none past the minimum is indexed.
pub fn anchor_height(next_height: u64, min_height: u64) -> (r: u64)
    ensures
        r == (if next_height > min_height {
            next_height - 1
        } else {
            next_height as int
        }),
{
    if next_height > min_height {
        next_height - 1
    } else {
        next_height
    }
}

/// One sync pass over the heights `from` through `to`: the candle catch-up
/// comes first, then the heights are indexed one by one in order.
#[derive(Debug, Clone, Copy, PartialEq, Eq, Structural)]
pub struct SyncPass {
    pub from: u64,
    pub to: u64,
    /// Whether the candle catch-up has completed.
    pub candles_ready: bool,
    /// The next height to index.
    pub next: u64,
    /// Whether every height through `to` is indexed.
    pub finished: bool,
}

/// The pass after one more height is indexed.
pub open spec fn spec_after_indexed(p: SyncPass) -> SyncPass {
    if !p.candles_ready || p.finished {
        p
    } else if p.next >= p.to {
        SyncPass { finished: true, ..p }
    } else {
        SyncPass { next: (p.next + 1) as u64, ..p }
    }
}

/// The height a pass hands out next, if any.
pub open spec fn spec_height_to_index(p: SyncPass) -> Option<u64> {
    if p.candles_ready && !p.finished {
        Some(p.next)
    } else {
        None
    }
}

/// The pass after `k` heights are indexed.
pub open spec fn spec_after_indexed_n(p: SyncPass, k: nat) -> SyncPass
    decreases k,
{
    if k == 0 {
        p
    } else {
        spec_after_indexed(spec_after_indexed_n(p, (k - 1) as nat))
    }
}

impl SyncPass {
    /// The pass that `new` gives.
    pub open spec fn spec_new(next_height: u64, tip: u64) -> Option<SyncPass> {
        if next_height > tip {
            None
        } else {
            Some(
                SyncPass {
                    from: next_height,
                    to: tip,
                    candles_ready: false,
                    next: next_height,
                    finished: false,
                },
            )
        }
    }

    /// The pass over the heights from the next height through the tip;
    /// `None` where every height up to the tip is indexed.
    pub fn new(next_height: u64, tip: u64) -> (r: Option<SyncPass>)
        ensures
            r == SyncPass::spec_new(next_height, tip),
            next_height > tip ==> r is None,
            next_height <= tip ==> r == Some(
                SyncPass {
                    from: next_height,
                    to: tip,
                    candles_ready: false,
                    next: next_height,
                    finished: false,
                },
            ),
    {
        match plan_sync(next_height, tip) {
            SyncPlan::UpToDate => None,
            SyncPlan::Index { from, to } => Some(
                SyncPass { from, to, candles_ready: false, next: from, finished: false },
            ),
        }
    }

    /// Records that the candle catch-up has completed.
    pub fn candles_caught_up(&mut self)
        ensures
            *final(self) == (SyncPass { candles_ready: true, ..*old(self) }),
    {
        self.candles_ready = true;
    }

    /// The next height to index: none before the candle catch-up has
    /// completed, nor after the last height.
    pub fn next_height_to_index(&self) -> (r: Option<u64>)
        ensures
            r == spec_height_to_index(*self),
    {
        if self.candles_ready && !self.finished {
            Some(self.next)
        } else {
            None
        }
    }

    /// Records that the height handed out has been indexed.
    pub fn height_indexed(&mut self)
        ensures
            *final(self) == spec_after_indexed(*old(self)),
    {
        if !self.candles_ready || self.finished {
            return;
        }
        if self.next >= self.to {
            self.finished = true;
        } else {
            self.next = self.next + 1;
        }
    }
}

/// A sync pass indexes nothing before the candle catch-up, and after it
/// hands out the heights `from` through `to` one by one, in order, then
/// none.
pub proof fn lemma_sync_pass_order(next_height: u64, tip: u64, k: nat)
    requires
        next_height <= tip,
    ensures
        ({
            let fresh = SyncPass {
                from: next_height,
                to: tip,
                candles_ready: false,
                next: next_height,
                finished: false,
            };
            let ready = SyncPass { candles_ready: true, ..fresh };
            &&& spec_height_to_index(spec_after_indexed_n(fresh, k)) is None
            &&& (k <= tip - next_height ==> spec_height_to_index(spec_after_indexed_n(ready, k))
                == Some((next_height + k) as u64))
            &&& (k > tip - next_height ==> spec_height_to_index(spec_after_indexed_n(ready, k))
                is None)
        }),
    decreases k,
{
    let fresh = SyncPass {
        from: next_height,
        to: tip,
        candles_ready: false,
        next: next_height,
        finished: false,
    };
    let ready = SyncPass { candles_ready: true, ..fresh };
    if k > 0 {
        lemma_sync_pass_order(next_height, tip, (k - 1) as nat);
        let prev = spec_after_indexed_n(ready, (k - 1) as nat);
        lemma_sync_pass_shape(next_height, tip, (k - 1) as nat);
        assert(spec_after_indexed_n(ready, k) == spec_after_indexed(prev));
        assert(spec_after_indexed_n(fresh, k) == spec_after_indexed(
            spec_after_indexed_n(fresh, (k - 1) as nat),
        ));
        lemma_fresh_pass_stays(next_height, tip, k);
    }
}

proof fn lemma_fresh_pass_stays(next_height: u64, tip: u64, k: nat)
    ensures
        ({
            let fresh = SyncPass {
                from: next_height,
                to: tip,
                candles_ready: false,
                next: next_height,
                finished: false,
            };
            spec_after_indexed_n(fresh, k) == fresh
        }),
    decreases k,
{
    if k > 0 {
        lemma_fresh_pass_stays(next_height, tip, (k - 1) as nat);
    }
}

proof fn lemma_sync_pass_shape(next_height: u64, tip: u64, k: nat)
    requires
        next_height <= tip,
    ensures
        ({
            let ready = SyncPass {
                from: next_height,
                to: tip,
                candles_ready: true,
                next: next_height,
                finished: false,
            };
            let p = spec_after_indexed_n(ready, k);
            &&& p.candles_ready
            &&& p.to == tip
            &&& (k <= tip - next_height ==> !p.finished && p.next == next_height + k)
            &&& (k > tip - next_height ==> p.finished)
        }),
    decreases k,
{
    if k > 0 {
        lemma_sync_pass_shape(next_height, tip, (k - 1) as nat);
    }
}

/// A sync pass over the heights `next_height` through `tip` indexes nothing
/// before the candle catch-up, so a failed catch-up leaves the store and its
/// cursor as they were. After the catch-up it hands out every height through
/// the tip in order, and once the price point of each (encoded as
/// `encoded[h - next_height]`) is recorded, every one of those heights reads
/// back with its price point, the cursor stands at `tip + 1` and `tip` is the
/// latest height.
pub proof fn lemma_sync_indexes_every_height(
    m: Map<Seq<u8>, Seq<u8>>,
    next_height: u64,
    tip: u64,
    encoded: Seq<Seq<u8>>,
)
    requires
        next_height <= tip < u64::MAX,
        encoded.len() == tip - next_height + 1,
    ensures
        ({
            let fresh = SyncPass {
                from: next_height,
                to: tip,
                candles_ready: false,
                next: next_height,
                finished: false,
            };
            let ready = SyncPass { candles_ready: true, ..fresh };
            &&& SyncPass::spec_new(next_height, tip) == Some(fresh)
            &&& forall|k: nat| spec_height_to_index(#[trigger] spec_after_indexed_n(fresh, k))
                is None
            &&& store_price_points(m, next_height, Seq::empty()) == m
            &&& forall|k: nat|
                k <= tip - next_height ==> spec_height_to_index(
                    #[trigger] spec_after_indexed_n(ready, k),
                ) == Some((next_height + k) as u64)
            &&& spec_height_to_index(spec_after_indexed_n(ready, (tip - next_height + 1) as nat))
                is None
        }),
        ({
            let m2 = store_price_points(m, next_height, encoded);
            &&& forall|h: u64|
                next_height <= h <= tip ==> kv_get(m2, #[trigger] spec_height_key(h)) == Some(
                    encoded[h - next_height],
                )
            &&& spec_next_height(kv_get(m2, meta_next_height())) == Ok::<u64, StoreError>(
                (tip + 1) as u64,
            )
            &&& spec_latest_price_point_key(kv_get(m2, meta_last_indexed_height())) == Ok::<
                Option<Seq<u8>>,
                StoreError,
            >(Some(spec_height_key(tip)))
        }),
{
    let fresh = SyncPass {
        from: next_height,
        to: tip,
        candles_ready: false,
        next: next_height,
        finished: false,
    };
    let ready = SyncPass { candles_ready: true, ..fresh };
    assert forall|k: nat| spec_height_to_index(#[trigger] spec_after_indexed_n(fresh, k)) is None by {
        lemma_sync_pass_order(next_height, tip, k);
    }
    assert forall|k: nat| k <= tip - next_height implies spec_height_to_index(
        #[trigger] spec_after_indexed_n(ready, k),
    ) == Some((next_height + k) as u64) by {
        lemma_sync_pass_order(next_height, tip, k);
    }
    lemma_sync_pass_order(next_height, tip, (tip - next_height + 1) as nat);
    lemma_indexed_heights_read_back(m, next_height, encoded);
    let m2 = store_price_points(m, next_height, encoded);
    assert forall|h: u64| next_height <= h <= tip implies kv_get(m2, #[trigger] spec_height_key(h))
        == Some(encoded[h - next_height]) by {
        let i = h - next_height;
        assert(((next_height + i) as u64) == h);
        assert(kv_get(m2, spec_height_key((next_height + i) as u64)) == Some(encoded[i]));
    }
}

/// What validating a batch gives, for a batch that should start at `expected`.
pub open spec fn spec_validate_batch(expected: u64, open_times: Seq<u64>) -> Result<(), IndexError>
    decreases open_times.len(),
{
    if open_times.len() == 0 {
        Ok(())
    } else if open_times[0] != expected {
        Err(IndexError::BatchGap { expected, actual: open_times[0] })
    } else if expected + 900 > u64::MAX {
        Err(IndexError::ValidationOverflow)
    } else {
        spec_validate_batch((expected + 900) as u64, open_times.drop_first())
    }
}

/// The open times of a slice of candles.
pub open spec fn batch_open_times(candles: Seq<CachedCandle>) -> Seq<u64> {
    candles.map_values(|c: CachedCandle| c.candle_open_time)
}

/// A valid batch is contiguous: candle `i` opens `i` intervals after the start.
pub proof fn lemma_valid_batch_contiguous(expected: u64, open_times: Seq<u64>)
    requires
        spec_validate_batch(expected, open_times) is Ok,
    ensures
        forall|i: int|
            0 <= i < open_times.len() ==> #[trigger] open_times[i] == expected + 900 * i,
        expected + 900 * open_times.len() <= u64::MAX,
    decreases open_times.len(),
{
    if open_times.len() > 0 {
        let rest = open_times.drop_first();
        lemma_valid_batch_contiguous((expected + 900) as u64, rest);
        assert forall|i: int| 0 <= i < open_times.len() implies #[trigger] open_times[i]
            == expected + 900 * i by {
            if i > 0 {
                assert(open_times[i] == rest[i - 1]);
            }
        }
    }
}

/// Checks that a batch of candles starts at `expected_start_open_time` and
/// has no gap: each candle opens 15 minutes after the one before it.
pub fn validate_candle_batch(expected_start_open_time: u64, candles: &[CachedCandle]) -> (r: Result<
    (),
    IndexError,
>)
    ensures
        r == spec_validate_batch(expected_start_open_time, batch_open_times(candles@)),
{
    let n = candles.len();
    let mut expected = expected_start_open_time;
    let mut i: usize = 0;
    let ghost times = batch_open_times(candles@);
    assert(times.subrange(0, n as int) =~= times);
    while i < n
        invariant
            n == candles@.len(),
            times == batch_open_times(candles@),
            i <= n,
            spec_validate_batch(expected_start_open_time, times) == spec_validate_batch(
                expected,
                times.subrange(i as int, n as int),
            ),
        decreases n - i,
    {
        let ghost rest = times.subrange(i as int, n as int);
        assert(rest[0] == candles@[i as int].candle_open_time);
        assert(rest.drop_first() =~= times.subrange(i + 1, n as int));
        let actual = candles[i].candle_open_time;
        if actual != expected {
            return Err(IndexError::BatchGap { expected, actual });
        }
        if expected > u64::MAX - 900 {
            return Err(IndexError::ValidationOverflow);
        }
        expected = expected + 900;
        i = i + 1;
    }
    Ok(())
}

/// The cursor after `accept_batch` takes `batches` in turn from `cursor`;
/// `None` where one of them is refused.
pub open spec fn spec_accept_batches(cursor: u64, batches: Seq<Seq<u64>>) -> Option<u64>
    decreases batches.len(),
{
    if batches.len() == 0 {
        Some(cursor)
    } else if batches[0].len() == 0 || spec_validate_batch(cursor, batches[0]) is Err {
        None
    } else {
        spec_accept_batches((cursor + 900 * batches[0].len()) as u64, batches.drop_first())
    }
}

/// A catch-up fills every candle: the batches it accepts, taken together,
/// are the 15 minute open times from its first cursor on, with none missing
/// or repeated, and its cursor ends right after the last of them. Once the
/// cursor is past the current candle, every candle through the current one
/// has been accepted.
pub proof fn lemma_catchup_fills_every_candle(cursor: u64, batches: Seq<Seq<u64>>)
    requires
        spec_accept_batches(cursor, batches) is Some,
    ensures
        spec_accept_batches(cursor, batches).unwrap() == cursor + 900 * batches.flatten().len(),
        forall|j: int|
            0 <= j < batches.flatten().len() ==> #[trigger] batches.flatten()[j] == cursor + 900
                * j,
    decreases batches.len(),
{
    if batches.len() > 0 {
        let first = batches[0];
        let rest = batches.drop_first();
        lemma_valid_batch_contiguous(cursor, first);
        let next = (cursor + 900 * first.len()) as u64;
        lemma_catchup_fills_every_candle(next, rest);
        let all = batches.flatten();
        assert(all == first + rest.flatten());
        assert forall|j: int| 0 <= j < all.len() implies #[trigger] all[j] == cursor + 900 * j by {
            if j < first.len() {
                assert(all[j] == first[j]);
            } else {
                assert(all[j] == rest.flatten()[j - first.len()]);
            }
        }
    }
}

/// The first cursor of a catch-up that starts: after the newest cached
/// candle where that one is at or after the requested start, at the
/// requested start otherwise, never past the current candle.
pub open spec fn spec_catchup_start_cursor(requested: u64, latest: u64, last_cached: Option<u64>) -> u64 {
    let c = match last_cached {
        Some(last) => if last >= requested {
            (last + 900) as u64
        } else {
            requested
        },
        None => requested,
    };
    if c > latest {
        latest
    } else {
        c
    }
}

/// A completed catch-up caches every candle: where the store held the
/// candles from the requested start `start` through the newest cached one,
/// the catch-up's batches are accepted and cached in turn, and its cursor
/// ends past the current candle `latest`, every 15 minute candle from
/// `start` through `latest` is cached and found by its open time.
pub proof fn lemma_catchup_caches_every_candle(
    m: Map<Seq<u8>, Seq<u8>>,
    start: u64,
    latest: u64,
    last_cached: Option<u64>,
    batches: Seq<Seq<u64>>,
    encoded: Seq<Seq<Seq<u8>>>,
    t: u64,
)
    requires
        start % 900 == 0,
        latest % 900 == 0,
        start <= latest,
        latest + 900 <= u64::MAX,
        last_cached matches Some(newest) ==> {
            &&& newest % 900 == 0
            &&& newest + 900 <= u64::MAX
            &&& newest >= start ==> forall|u: u64|
                start <= u <= newest && u % 900 == 0 ==> m.dom().contains(
                    #[trigger] spec_candle_key(u),
                )
        },
        spec_accept_batches(spec_catchup_start_cursor(start, latest, last_cached), batches) matches Some(
            end,
        ) && end > latest,
        batches.len() == encoded.len(),
        forall|i: int| 0 <= i < batches.len() ==> (#[trigger] batches[i]).len() == encoded[i].len(),
        start <= t <= latest,
        t % 900 == 0,
    ensures
        ({
            let m2 = store_candle_batches(m, batches, encoded);
            let key = spec_candle_key(t);
            &&& m2.dom().contains(key)
            &&& spec_find_candle(t, seek_reverse(m2, key)) == Ok::<Option<Seq<u8>>, StoreError>(
                Some(m2[key]),
            )
        }),
{
    let c = spec_catchup_start_cursor(start, latest, last_cached);
    let m2 = store_candle_batches(m, batches, encoded);
    let key = spec_candle_key(t);
    lemma_store_candle_batches_dom(m, batches, encoded);
    lemma_catchup_fills_every_candle(c, batches);
    let all = batches.flatten();
    if t < c {
        let newest = last_cached.unwrap();
        assert(t <= newest);
        assert(m.dom().contains(key));
    } else {
        assert(c % 900 == 0);
        let j = (t - c) / 900;
        assert(c + 900 * j == t);
        assert(0 <= j < all.len()) by (nonlinear_arith)
            requires
                c + 900 * j == t,
                t <= latest,
                latest < c + 900 * all.len(),
                j >= 0,
        ;
        assert(all[j] == t);
    }
    assert(m2.dom().contains(key));
    assert(t - t % 900 == t);
    lemma_find_cached_candle(m2, t);
}

/// Refuses a catch-up whose first requested candle opens after the current one.
pub fn check_catchup_start(requested_start_open_time: u64, latest_open_time: u64) -> (r: Result<
    (),
    IndexError,
>)
    ensures
        requested_start_open_time > latest_open_time ==> r == Err::<(), IndexError>(
            IndexError::RequestedStartAfterLatest {
                requested: requested_start_open_time,
                latest: latest_open_time,
            },
        ),
        requested_start_open_time <= latest_open_time ==> r is Ok,
{
    if requested_start_open_time > latest_open_time {
        return Err(
            IndexError::RequestedStartAfterLatest {
                requested: requested_start_open_time,
                latest: latest_open_time,
            },
        );
    }
    Ok(())
}

/// The candle catch-up: the next candle to fetch and the newest candle to
/// fetch up to.
#[derive(Debug, Clone, Copy, PartialEq, Eq, Structural)]
pub struct CandleCatchup {
    /// The open time of the next candle to fetch.
    pub cursor: u64,
    /// The open time of the current candle.
    pub latest_open_time: u64,
}

impl CandleCatchup {
    /// Where a catch-up starts: after the newest cached candle where that one
    /// is at or after the requested start, at the requested start otherwise,
    /// and never past the current candle, which is fetched again on every
    /// pass because it may still have been open when it was cached.
    pub fn start(
        requested_start_open_time: u64,
        latest_open_time: u64,
        last_cached_open_time: Option<u64>,
    ) -> (r: Result<Self, IndexError>)
        ensures
            requested_start_open_time > latest_open_time ==> r == Err::<Self, IndexError>(
                IndexError::RequestedStartAfterLatest {
                    requested: requested_start_open_time,
                    latest: latest_open_time,
                },
            ),
            requested_start_open_time <= latest_open_time ==> match last_cached_open_time {
                Some(last) => if last >= requested_start_open_time {
                    if last + 900 > u64::MAX {
                        r == Err::<Self, IndexError>(IndexError::CursorOverflow)
                    } else {
                        r == Ok::<Self, IndexError>(
                            CandleCatchup {
                                cursor: if last + 900 > latest_open_time {
                                    latest_open_time
                                } else {
                                    (last + 900) as u64
                                },
                                latest_open_time,
                            },
                        )
                    }
                } else {
                    r == Ok::<Self, IndexError>(
                        CandleCatchup { cursor: requested_start_open_time, latest_open_time },
                    )
                },
                None => r == Ok::<Self, IndexError>(
                    CandleCatchup { cursor: requested_start_open_time, latest_open_time },
                ),
            },
            r matches Ok(c) ==> c.cursor <= c.latest_open_time && c.latest_open_time
                == latest_open_time && c.cursor >= requested_start_open_time,
            r matches Ok(c) ==> c.cursor == spec_catchup_start_cursor(
                requested_start_open_time,
                latest_open_time,
                last_cached_open_time,
            ),
    {
        check_catchup_start(requested_start_open_time, latest_open_time)?;
        let mut cursor = match last_cached_open_time {
            Some(last) => if last >= requested_start_open_time {
                if last > u64::MAX - 900 {
                    return Err(IndexError::CursorOverflow);
                }
                last + 900
            } else {
                requested_start_open_time
            },
            None => requested_start_open_time,
        };
        if cursor > latest_open_time {
            cursor = latest_open_time;
        }
        Ok(CandleCatchup { cursor, latest_open_time })
    }

    /// The next batch to fetch, as its first and last open times: from the
    /// cursor through at most 999 intervals later, not past the current
    /// candle; `None` once the cursor is past the current candle.
    pub fn next_batch(&self) -> (r: Result<Option<(u64, u64)>, IndexError>)
        ensures
            self.cursor > self.latest_open_time ==> r matches Ok(None),
            self.cursor <= self.latest_open_time && self.cursor + 899100 > u64::MAX ==> r
                == Err::<Option<(u64, u64)>, IndexError>(IndexError::BatchEndOverflow),
            self.cursor <= self.latest_open_time && self.cursor + 899100 <= u64::MAX ==> r
                == Ok::<Option<(u64, u64)>, IndexError>(
                Some(
                    (
                        self.cursor,
                        if self.cursor + 899100 < self.latest_open_time {
                            (self.cursor + 899100) as u64
                        } else {
                            self.latest_open_time
                        },
                    ),
                ),
            ),
            r matches Ok(Some((s, e))) ==> s == self.cursor && s <= e <= self.latest_open_time && e
                - s <= 899100,
    {
        if self.cursor > self.latest_open_time {
            return Ok(None);
        }
        // A batch spans at most `MAX_KLINES_PER_REQUEST` candles.
        let max_batch_span: u64 = (MAX_KLINES_PER_REQUEST - 1) as u64 * FIFTEEN_MINUTES_SECS;
        if self.cursor > u64::MAX - max_batch_span {
            return Err(IndexError::BatchEndOverflow);
        }
        let candidate = self.cursor + max_batch_span;
        let end = if candidate < self.latest_open_time {
            candidate
        } else {
            self.latest_open_time
        };
        Ok(Some((self.cursor, end)))
    }

    /// Takes the candles fetched for the batch that ends at `batch_end`: they
    /// must be there, start at the cursor and have no gap; the cursor then
    /// moves past the last of them. On an error the catch-up is unchanged.
    pub fn accept_batch(&mut self, batch_end: u64, candles: &[CachedCandle]) -> (r: Result<
        (),
        IndexError,
    >)
        ensures
            candles@.len() == 0 ==> r == Err::<(), IndexError>(
                IndexError::EmptyBatch { start: old(self).cursor, end: batch_end },
            ),
            candles@.len() > 0 ==> match spec_validate_batch(
                old(self).cursor,
                batch_open_times(candles@),
            ) {
                Err(e) => r == Err::<(), IndexError>(e),
                Ok(()) => r is Ok,
            },
            r is Err ==> *final(self) == *old(self),
            r is Err <==> spec_accept_batches(old(self).cursor, seq![batch_open_times(candles@)])
                is None,
            r is Ok ==> spec_accept_batches(old(self).cursor, seq![batch_open_times(candles@)])
                == Some(final(self).cursor),
            r is Ok ==> {
                &&& final(self).latest_open_time == old(self).latest_open_time
                &&& final(self).cursor == old(self).cursor + 900 * candles@.len()
                &&& final(self).cursor > old(self).cursor
                &&& final(self).cursor == candles@.last().candle_open_time + 900
                &&& forall|i: int|
                    0 <= i < candles@.len() ==> (#[trigger] candles@[i]).candle_open_time
                        == old(self).cursor + 900 * i
            },
    {
        let n = candles.len();
        let ghost one = seq![batch_open_times(candles@)];
        proof {
            reveal_with_fuel(spec_accept_batches, 2);
            assert(one[0] == batch_open_times(candles@));
            assert(one.drop_first().len() == 0);
        }
        if n == 0 {
            return Err(IndexError::EmptyBatch { start: self.cursor, end: batch_end });
        }
        validate_candle_batch(self.cursor, candles)?;
        proof {
            lemma_valid_batch_contiguous(self.cursor, batch_open_times(candles@));
            assert(batch_open_times(candles@)[n - 1] == candles@[n - 1].candle_open_time);
            assert forall|i: int| 0 <= i < candles@.len() implies (
            #[trigger] candles@[i]).candle_open_time == old(self).cursor + 900 * i by {
                assert(batch_open_times(candles@)[i] == candles@[i].candle_open_time);
            }
        }
        let last = candles[n - 1].candle_open_time;
        if last > u64::MAX - 900 {
            return Err(IndexError::CursorOverflow);
        }
        self.cursor = last + 900;
        Ok(())
    }
}

/// The price point of a height whose block has `timestamp`, from the cached
/// candle that covers the timestamp; an error where none is cached.
pub fn price_point_for_height(height: u64, timestamp: u64, candle: Option<CachedCandle>) -> (r: Result<
    PricePoint,
    IndexError,
>)
    ensures
        candle is None ==> r == Err::<PricePoint, IndexError>(
            IndexError::MissingCandle { height, timestamp },
        ),
        candle matches Some(c) ==> (r matches Ok(p) && p == (PricePoint {
            height,
            timestamp,
            candle_open_time: c.candle_open_time,
            price_scaled: c.price_scaled,
            price_raw: c.price_raw,
        })),
{
    match candle {
        None => Err(IndexError::MissingCandle { height, timestamp }),
        Some(c) => Ok(
            PricePoint {
                height,
                timestamp,
                candle_open_time: c.candle_open_time,
                price_scaled: c.price_scaled,
                price_raw: c.price_raw,
            },
        ),
    }
}

} // verus!
