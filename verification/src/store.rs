//! The key layout of the price store and every decision the store makes
//! between a read and a write. The key-value database itself is driven from
//! outside: these functions take what was read, and return what to read or
//! write next. A model of the database as a map gives the laws their meaning.
use vstd::prelude::*;
use crate::binance::normalize_to_15m;
use crate::types::{CachedCandle, PricePoint};

verus! {

/// One key-value write of a batch.
pub type KvWrite = (Vec<u8>, Vec<u8>);

/// Why a stored record could not be read or written.
#[derive(Debug, Clone, Copy, PartialEq, Eq, Structural)]
pub enum StoreError {
    /// A metadata value is not 8 bytes long.
    NotU64,
    /// A key does not start with `candle/`.
    NotCandleKey,
    /// A candle key is not followed by exactly 8 bytes.
    InvalidCandleKeyLength,
    /// The height after the indexed one does not fit in `u64`.
    HeightOverflow,
    /// The close time of a cached candle does not fit in `u64`.
    CandleCloseOverflow,
    /// The next-height cursor has not been initialized.
    MissingCursor,
}

/// `height/`.
pub open spec fn height_prefix() -> Seq<u8> {
    seq![104u8, 101, 105, 103, 104, 116, 47]
}

/// `candle/`.
pub open spec fn candle_prefix() -> Seq<u8> {
    seq![99u8, 97, 110, 100, 108, 101, 47]
}

/// `meta/next_height`: the next height to index.
pub open spec fn meta_next_height() -> Seq<u8> {
    seq![109u8, 101, 116, 97, 47, 110, 101, 120, 116, 95, 104, 101, 105, 103, 104, 116]
}

/// `meta/last_indexed_height`: the last indexed height.
pub open spec fn meta_last_indexed_height() -> Seq<u8> {
    seq![
        109u8, 101, 116, 97, 47, 108, 97, 115, 116, 95, 105, 110, 100, 101, 120, 101, 100, 95,
        104, 101, 105, 103, 104, 116,
    ]
}

/// `meta/min_height`: the height indexing started from.
pub open spec fn meta_min_height() -> Seq<u8> {
    seq![109u8, 101, 116, 97, 47, 109, 105, 110, 95, 104, 101, 105, 103, 104, 116]
}

/// The 8 big-endian bytes of `v`.
pub open spec fn u64_be(v: u64) -> Seq<u8> {
    seq![
        (v >> 56u64) as u8,
        (v >> 48u64) as u8,
        (v >> 40u64) as u8,
        (v >> 32u64) as u8,
        (v >> 24u64) as u8,
        (v >> 16u64) as u8,
        (v >> 8u64) as u8,
        v as u8,
    ]
}

/// The number whose big-endian bytes are the first 8 of `b`.
pub open spec fn be_u64(b: Seq<u8>) -> u64 {
    ((b[0] as u64) << 56u64) | ((b[1] as u64) << 48u64) | ((b[2] as u64) << 40u64) | ((
    b[3] as u64) << 32u64) | ((b[4] as u64) << 24u64) | ((b[5] as u64) << 16u64) | ((
    b[6] as u64) << 8u64) | (b[7] as u64)
}

/// The key of the price point of a height.
pub open spec fn spec_height_key(height: u64) -> Seq<u8> {
    height_prefix() + u64_be(height)
}

/// The key of the cached candle that opens at `open_time`.
pub open spec fn spec_candle_key(open_time: u64) -> Seq<u8> {
    candle_prefix() + u64_be(open_time)
}

/// Whether `key` starts with `prefix`.
pub open spec fn has_prefix(key: Seq<u8>, prefix: Seq<u8>) -> bool {
    key.len() >= prefix.len() && key.subrange(0, prefix.len() as int) == prefix
}

/// The open time a candle key names.
pub open spec fn spec_candle_open_time_from_key(key: Seq<u8>) -> Result<u64, StoreError> {
    if !has_prefix(key, candle_prefix()) {
        Err(StoreError::NotCandleKey)
    } else if key.len() != 15 {
        Err(StoreError::InvalidCandleKeyLength)
    } else {
        Ok(be_u64(key.subrange(7, 15)))
    }
}

/// A metadata value read as a big-endian `u64`.
pub open spec fn spec_read_u64(raw: Option<Seq<u8>>) -> Result<Option<u64>, StoreError> {
    match raw {
        None => Ok(None),
        Some(b) => if b.len() == 8 {
            Ok(Some(be_u64(b)))
        } else {
            Err(StoreError::NotU64)
        },
    }
}

/// The view of a slice that may be missing.
pub open spec fn opt_bytes(raw: Option<&[u8]>) -> Option<Seq<u8>> {
    match raw {
        Some(b) => Some(b@),
        None => None,
    }
}

/// The view of a batch of writes.
pub open spec fn writes_view(writes: Seq<KvWrite>) -> Seq<(Seq<u8>, Seq<u8>)> {
    writes.map_values(|w: KvWrite| (w.0@, w.1@))
}

/// A key-value store after a batch of writes, applied in order.
pub open spec fn apply_writes(m: Map<Seq<u8>, Seq<u8>>, writes: Seq<(Seq<u8>, Seq<u8>)>) -> Map<
    Seq<u8>,
    Seq<u8>,
>
    decreases writes.len(),
{
    if writes.len() == 0 {
        m
    } else {
        apply_writes(m, writes.drop_last()).insert(writes.last().0, writes.last().1)
    }
}

/// What a read of `key` gives.
pub open spec fn kv_get(m: Map<Seq<u8>, Seq<u8>>, key: Seq<u8>) -> Option<Seq<u8>> {
    if m.dom().contains(key) {
        Some(m[key])
    } else {
        None
    }
}

/// Bytewise lexicographic order, the store's key order.
pub open spec fn lex_le(a: Seq<u8>, b: Seq<u8>) -> bool
    decreases a.len(),
{
    if a.len() == 0 {
        true
    } else if b.len() == 0 {
        false
    } else if a[0] != b[0] {
        a[0] < b[0]
    } else {
        lex_le(a.drop_first(), b.drop_first())
    }
}

/// `k` is the greatest key of `m` at or before `target`.
pub open spec fn is_last_at_or_before(m: Map<Seq<u8>, Seq<u8>>, target: Seq<u8>, k: Seq<u8>) -> bool {
    &&& m.dom().contains(k)
    &&& lex_le(k, target)
    &&& forall|x: Seq<u8>| #[trigger] m.dom().contains(x) && lex_le(x, target) ==> lex_le(x, k)
}

/// The first entry that a reverse iteration from `target` meets: the entry
/// with the greatest key at or before `target`.
pub open spec fn seek_reverse(m: Map<Seq<u8>, Seq<u8>>, target: Seq<u8>) -> Option<
    (Seq<u8>, Seq<u8>),
> {
    if exists|k: Seq<u8>| is_last_at_or_before(m, target, k) {
        let k = choose|k: Seq<u8>| is_last_at_or_before(m, target, k);
        Some((k, m[k]))
    } else {
        None
    }
}

/// The bytes of a key prefix.
fn prefix_vec(which: u8) -> (r: Vec<u8>)
    requires
        which < 2,
    ensures
        which == 0 ==> r@ == height_prefix(),
        which == 1 ==> r@ == candle_prefix(),
{
    let r = if which == 0 {
        vec![104u8, 101, 105, 103, 104, 116, 47]
    } else {
        vec![99u8, 97, 110, 100, 108, 101, 47]
    };
    assert(which == 0 ==> r@ =~= height_prefix());
    assert(which == 1 ==> r@ =~= candle_prefix());
    r
}

/// The key `meta/next_height`.
pub fn meta_next_height_key() -> (r: Vec<u8>)
    ensures
        r@ == meta_next_height(),
{
    let r = vec![109u8, 101, 116, 97, 47, 110, 101, 120, 116, 95, 104, 101, 105, 103, 104, 116];
    assert(r@ =~= meta_next_height());
    r
}

/// The key `meta/last_indexed_height`.
pub fn meta_last_indexed_height_key() -> (r: Vec<u8>)
    ensures
        r@ == meta_last_indexed_height(),
{
    let r = vec![
        109u8, 101, 116, 97, 47, 108, 97, 115, 116, 95, 105, 110, 100, 101, 120, 101, 100, 95,
        104, 101, 105, 103, 104, 116,
    ];
    assert(r@ =~= meta_last_indexed_height());
    r
}

/// The key `meta/min_height`.
pub fn meta_min_height_key() -> (r: Vec<u8>)
    ensures
        r@ == meta_min_height(),
{
    let r = vec![109u8, 101, 116, 97, 47, 109, 105, 110, 95, 104, 101, 105, 103, 104, 116];
    assert(r@ =~= meta_min_height());
    r
}

/// Appends the 8 big-endian bytes of `v`.
fn push_u64_be(out: &mut Vec<u8>, v: u64)
    ensures
        final(out)@ == old(out)@ + u64_be(v),
{
    out.push((v >> 56u64) as u8);
    out.push((v >> 48u64) as u8);
    out.push((v >> 40u64) as u8);
    out.push((v >> 32u64) as u8);
    out.push((v >> 24u64) as u8);
    out.push((v >> 16u64) as u8);
    out.push((v >> 8u64) as u8);
    out.push(v as u8);
    assert(out@ =~= old(out)@ + u64_be(v));
}

/// The 8 big-endian bytes of `v` (`u64::to_be_bytes`).
pub fn u64_to_be_vec(v: u64) -> (r: Vec<u8>)
    ensures
        r@ == u64_be(v),
{
    let mut out: Vec<u8> = Vec::new();
    push_u64_be(&mut out, v);
    assert(out@ =~= u64_be(v));
    out
}

/// The number whose big-endian bytes are `b` (`u64::from_be_bytes`).
fn be_slice_to_u64(b: &[u8]) -> (r: u64)
    requires
        b@.len() == 8,
    ensures
        r == be_u64(b@),
{
    ((b[0] as u64) << 56u64) | ((b[1] as u64) << 48u64) | ((b[2] as u64) << 40u64) | ((
    b[3] as u64) << 32u64) | ((b[4] as u64) << 24u64) | ((b[5] as u64) << 16u64) | ((
    b[6] as u64) << 8u64) | (b[7] as u64)
}

/// The key of the price point of a height: `height/` then the height's 8 big-endian bytes.
pub fn height_key(height: u64) -> (r: Vec<u8>)
    ensures
        r@ == spec_height_key(height),
{
    let mut key = prefix_vec(0);
    push_u64_be(&mut key, height);
    key
}

/// The key of a cached candle: `candle/` then its open time's 8 big-endian bytes.
pub fn candle_key(candle_open_time: u64) -> (r: Vec<u8>)
    ensures
        r@ == spec_candle_key(candle_open_time),
{
    let mut key = prefix_vec(1);
    push_u64_be(&mut key, candle_open_time);
    key
}

/// Whether `key` starts with `candle/`.
fn is_candle_key(key: &[u8]) -> (r: bool)
    ensures
        r == has_prefix(key@, candle_prefix()),
{
    let prefix = prefix_vec(1);
    if key.len() < 7 {
        return false;
    }
    let mut i: usize = 0;
    while i < 7
        invariant
            prefix@ == candle_prefix(),
            key@.len() >= 7,
            i <= 7,
            forall|j: int| 0 <= j < i ==> key@[j] == prefix@[j],
        decreases 7 - i,
    {
        if key[i] != prefix[i] {
            assert(key@.subrange(0, 7)[i as int] != candle_prefix()[i as int]);
            return false;
        }
        i = i + 1;
    }
    assert(key@.subrange(0, 7) =~= candle_prefix());
    true
}

/// The open time a candle key names.
pub fn candle_open_time_from_key(key: &[u8]) -> (r: Result<u64, StoreError>)
    ensures
        r == spec_candle_open_time_from_key(key@),
{
    if !is_candle_key(key) {
        return Err(StoreError::NotCandleKey);
    }
    if key.len() != 15 {
        return Err(StoreError::InvalidCandleKeyLength);
    }
    let b0 = key[7];
    let b1 = key[8];
    let b2 = key[9];
    let b3 = key[10];
    let b4 = key[11];
    let b5 = key[12];
    let b6 = key[13];
    let b7 = key[14];
    let v = ((b0 as u64) << 56u64) | ((b1 as u64) << 48u64) | ((b2 as u64) << 40u64) | ((
    b3 as u64) << 32u64) | ((b4 as u64) << 24u64) | ((b5 as u64) << 16u64) | ((b6 as u64)
        << 8u64) | (b7 as u64);
    assert(key@.subrange(7, 15)[0] == b0);
    assert(key@.subrange(7, 15)[7] == b7);
    Ok(v)
}

/// A metadata value read as a big-endian `u64` (the value check of a metadata read).
pub fn read_u64(raw: Option<&[u8]>) -> (r: Result<Option<u64>, StoreError>)
    ensures
        r == spec_read_u64(opt_bytes(raw)),
{
    match raw {
        None => Ok(None),
        Some(b) => if b.len() == 8 {
            Ok(Some(be_slice_to_u64(b)))
        } else {
            Err(StoreError::NotU64)
        },
    }
}

/// What the cursor initialization decides.
#[derive(Debug)]
pub enum CursorInit {
    /// The cursor was already stored: nothing to write.
    Existing(u64),
    /// The cursor starts at `next_height`; the writes store it.
    Initialize { next_height: u64, writes: Vec<KvWrite> },
}

/// The writes that start the cursor at `min_height`.
pub open spec fn spec_cursor_writes(min_height: u64) -> Seq<(Seq<u8>, Seq<u8>)> {
    seq![(meta_next_height(), u64_be(min_height)), (meta_min_height(), u64_be(min_height))]
}

/// What the cursor initialization decides, given what `meta/next_height` holds:
/// the next height, and the writes to make.
pub open spec fn spec_initialize_cursor(stored_next: Option<Seq<u8>>, min_height: u64) -> Result<
    (u64, Seq<(Seq<u8>, Seq<u8>)>),
    StoreError,
> {
    match spec_read_u64(stored_next) {
        Err(e) => Err(e),
        Ok(Some(next)) => Ok((next, Seq::empty())),
        Ok(None) => Ok((min_height, spec_cursor_writes(min_height))),
    }
}

/// The view of a cursor initialization: the next height and the writes.
pub open spec fn cursor_init_view(c: CursorInit) -> (u64, Seq<(Seq<u8>, Seq<u8>)>) {
    match c {
        CursorInit::Existing(n) => (n, Seq::empty()),
        CursorInit::Initialize { next_height, writes } => (next_height, writes_view(writes@)),
    }
}

/// Starts the next-height cursor at `min_height` unless one is stored, so
/// that the first height is indexed exactly once. `stored_next` is what
/// `meta/next_height` holds.
pub fn initialize_cursor(stored_next: Option<&[u8]>, min_height: u64) -> (r: Result<
    CursorInit,
    StoreError,
>)
    ensures
        match r {
            Ok(c) => spec_initialize_cursor(opt_bytes(stored_next), min_height) == Ok::<
                (u64, Seq<(Seq<u8>, Seq<u8>)>),
                StoreError,
            >(cursor_init_view(c)),
            Err(e) => spec_initialize_cursor(opt_bytes(stored_next), min_height) == Err::<
                (u64, Seq<(Seq<u8>, Seq<u8>)>),
                StoreError,
            >(e),
        },
        r matches Ok(CursorInit::Existing(_)) ==> stored_next is Some,
        r matches Ok(CursorInit::Initialize { .. }) ==> stored_next is None,
{
    match read_u64(stored_next)? {
        Some(next) => Ok(CursorInit::Existing(next)),
        None => {
            let mut writes: Vec<KvWrite> = Vec::new();
            writes.push((meta_next_height_key(), u64_to_be_vec(min_height)));
            writes.push((meta_min_height_key(), u64_to_be_vec(min_height)));
            assert(writes_view(writes@) =~= spec_cursor_writes(min_height));
            Ok(CursorInit::Initialize { next_height: min_height, writes })
        },
    }
}

/// The next height to index, given what `meta/next_height` holds.
pub open spec fn spec_next_height(stored_next: Option<Seq<u8>>) -> Result<u64, StoreError> {
    match spec_read_u64(stored_next) {
        Err(e) => Err(e),
        Ok(Some(n)) => Ok(n),
        Ok(None) => Err(StoreError::MissingCursor),
    }
}

/// The next height to index, given what `meta/next_height` holds.
pub fn next_height(stored_next: Option<&[u8]>) -> (r: Result<u64, StoreError>)
    ensures
        r == spec_next_height(opt_bytes(stored_next)),
{
    match read_u64(stored_next)? {
        Some(n) => Ok(n),
        None => Err(StoreError::MissingCursor),
    }
}

/// The writes that record the price point of `height`, encoded as `encoded`.
pub open spec fn spec_price_point_writes(height: u64, encoded: Seq<u8>) -> Seq<
    (Seq<u8>, Seq<u8>),
> {
    seq![
        (spec_height_key(height), encoded),
        (meta_last_indexed_height(), u64_be(height)),
        (meta_next_height(), u64_be((height + 1) as u64)),
    ]
}

/// The writes that record a price point (encoded as `encoded`), make its
/// height the last indexed one, and move the cursor past it.
pub fn put_price_point(point: &PricePoint, encoded: Vec<u8>) -> (r: Result<
    Vec<KvWrite>,
    StoreError,
>)
    ensures
        point.height == u64::MAX ==> r == Err::<Vec<KvWrite>, StoreError>(
            StoreError::HeightOverflow,
        ),
        point.height < u64::MAX ==> (r matches Ok(w) && writes_view(w@)
            == spec_price_point_writes(point.height, encoded@)),
{
    if point.height == u64::MAX {
        return Err(StoreError::HeightOverflow);
    }
    let next = point.height + 1;
    let ghost enc = encoded@;
    let mut writes: Vec<KvWrite> = Vec::new();
    writes.push((height_key(point.height), encoded));
    writes.push((meta_last_indexed_height_key(), u64_to_be_vec(point.height)));
    writes.push((meta_next_height_key(), u64_to_be_vec(next)));
    assert(writes_view(writes@) =~= spec_price_point_writes(point.height, enc));
    Ok(writes)
}

/// The key of the latest price point, given what `meta/last_indexed_height` holds.
pub open spec fn spec_latest_price_point_key(stored_last: Option<Seq<u8>>) -> Result<
    Option<Seq<u8>>,
    StoreError,
> {
    match spec_read_u64(stored_last) {
        Err(e) => Err(e),
        Ok(None) => Ok(None),
        Ok(Some(h)) => Ok(Some(spec_height_key(h))),
    }
}

/// The key to read for the latest price point, given what
/// `meta/last_indexed_height` holds; `None` where no height was indexed.
pub fn latest_price_point(stored_last: Option<&[u8]>) -> (r: Result<
    Option<Vec<u8>>,
    StoreError,
>)
    ensures
        match r {
            Ok(Some(k)) => spec_latest_price_point_key(opt_bytes(stored_last)) == Ok::<
                Option<Seq<u8>>,
                StoreError,
            >(Some(k@)),
            Ok(None) => spec_latest_price_point_key(opt_bytes(stored_last)) == Ok::<
                Option<Seq<u8>>,
                StoreError,
            >(None),
            Err(e) => spec_latest_price_point_key(opt_bytes(stored_last)) == Err::<
                Option<Seq<u8>>,
                StoreError,
            >(e),
        },
{
    match read_u64(stored_last)? {
        None => Ok(None),
        Some(h) => Ok(Some(height_key(h))),
    }
}

/// The writes that cache candles, each under its open time's key, with the
/// matching encoding.
pub open spec fn spec_candle_writes(open_times: Seq<u64>, encoded: Seq<Seq<u8>>) -> Seq<
    (Seq<u8>, Seq<u8>),
> {
    Seq::new(open_times.len(), |i: int| (spec_candle_key(open_times[i]), encoded[i]))
}

/// The open times of a slice of candles.
pub open spec fn open_times(candles: Seq<CachedCandle>) -> Seq<u64> {
    candles.map_values(|c: CachedCandle| c.candle_open_time)
}

/// The views of a sequence of byte vectors.
pub open spec fn bytes_views(v: Seq<Vec<u8>>) -> Seq<Seq<u8>> {
    v.map_values(|b: Vec<u8>| b@)
}

/// The writes that cache a batch of candles, `encoded[i]` being the encoding
/// of `candles[i]`. An empty batch writes nothing.
pub fn put_candles(candles: &[CachedCandle], encoded: Vec<Vec<u8>>) -> (r: Vec<KvWrite>)
    requires
        encoded@.len() == candles@.len(),
    ensures
        writes_view(r@) == spec_candle_writes(open_times(candles@), bytes_views(encoded@)),
{
    let n = candles.len();
    let mut writes: Vec<KvWrite> = Vec::new();
    let mut rest = encoded;
    let ghost enc = bytes_views(encoded@);
    // Move the encodings out front to back.
    let mut reversed: Vec<Vec<u8>> = Vec::new();
    while rest.len() > 0
        invariant
            rest@.len() + reversed@.len() == n,
            forall|j: int|
                0 <= j < reversed@.len() ==> #[trigger] reversed@[j]@ == enc[n - 1 - j],
            forall|j: int| 0 <= j < rest@.len() ==> #[trigger] rest@[j]@ == enc[j],
            enc.len() == n,
        decreases rest@.len(),
    {
        let b = rest.pop().unwrap();
        reversed.push(b);
    }
    let mut i: usize = 0;
    while i < n
        invariant
            n == candles@.len(),
            i <= n,
            enc.len() == n,
            reversed@.len() == n - i,
            forall|j: int|
                0 <= j < reversed@.len() ==> #[trigger] reversed@[j]@ == enc[n - 1 - j],
            writes@.len() == i,
            forall|j: int|
                0 <= j < i ==> #[trigger] writes_view(writes@)[j] == (
                    spec_candle_key(candles@[j].candle_open_time),
                    enc[j],
                ),
        decreases n - i,
    {
        let b = reversed.pop().unwrap();
        let ghost before = writes@;
        let k = candle_key(candles[i].candle_open_time);
        assert(b@ == enc[i as int]);
        writes.push((k, b));
        assert(writes_view(writes@) =~= writes_view(before).push((k@, b@)));
        i = i + 1;
    }
    assert(writes_view(writes@) =~= spec_candle_writes(open_times(candles@), enc));
    writes
}

/// The key a reverse iteration starts from to find the newest cached candle.
pub fn last_candle_seek_key() -> (r: Vec<u8>)
    ensures
        r@ == spec_candle_key(u64::MAX),
{
    candle_key(u64::MAX)
}

/// The newest cached candle's open time, given the key of the first entry
/// that a reverse iteration from `candle_key(u64::MAX)` meets.
pub open spec fn spec_last_candle_open_time(first_key: Option<Seq<u8>>) -> Result<
    Option<u64>,
    StoreError,
> {
    match first_key {
        None => Ok(None),
        Some(k) => if !has_prefix(k, candle_prefix()) {
            Ok(None)
        } else {
            match spec_candle_open_time_from_key(k) {
                Ok(t) => Ok(Some(t)),
                Err(e) => Err(e),
            }
        },
    }
}

/// The newest cached candle's open time, given the key of the first entry
/// that a reverse iteration from `last_candle_seek_key()` meets.
pub fn last_candle_open_time(first_key: Option<&[u8]>) -> (r: Result<Option<u64>, StoreError>)
    ensures
        r == spec_last_candle_open_time(opt_bytes(first_key)),
{
    match first_key {
        None => Ok(None),
        Some(key) => {
            if !is_candle_key(key) {
                return Ok(None);
            }
            let t = candle_open_time_from_key(key)?;
            Ok(Some(t))
        },
    }
}

/// The key a reverse iteration starts from to find the candle of a timestamp.
pub fn candle_seek_key(timestamp: u64) -> (r: Vec<u8>)
    ensures
        r@ == spec_candle_key((timestamp - timestamp % 900) as u64),
{
    candle_key(normalize_to_15m(timestamp))
}

/// The encoded candle covering `timestamp`, given the first entry that a
/// reverse iteration from `candle_seek_key(timestamp)` meets: that entry's
/// value where its key is a candle key whose 15 minutes hold `timestamp`.
pub open spec fn spec_find_candle(timestamp: u64, entry: Option<(Seq<u8>, Seq<u8>)>) -> Result<
    Option<Seq<u8>>,
    StoreError,
> {
    match entry {
        None => Ok(None),
        Some((k, v)) => if !has_prefix(k, candle_prefix()) {
            Ok(None)
        } else {
            match spec_candle_open_time_from_key(k) {
                Err(e) => Err(e),
                Ok(open) => if open + 900 > u64::MAX {
                    Err(StoreError::CandleCloseOverflow)
                } else if timestamp < open || timestamp >= open + 900 {
                    Ok(None)
                } else {
                    Ok(Some(v))
                },
            }
        },
    }
}

/// The view of an entry that may be missing.
pub open spec fn opt_entry(entry: Option<(&[u8], &[u8])>) -> Option<(Seq<u8>, Seq<u8>)> {
    match entry {
        Some((k, v)) => Some((k@, v@)),
        None => None,
    }
}

/// The encoded candle covering `timestamp`, given the first entry that a
/// reverse iteration from `candle_seek_key(timestamp)` meets; `None` where
/// that entry is no candle or a candle of another 15 minutes.
pub fn find_candle_for_timestamp(timestamp: u64, entry: Option<(&[u8], &[u8])>) -> (r: Result<
    Option<Vec<u8>>,
    StoreError,
>)
    ensures
        match r {
            Ok(Some(v)) => spec_find_candle(timestamp, opt_entry(entry)) == Ok::<
                Option<Seq<u8>>,
                StoreError,
            >(Some(v@)),
            Ok(None) => spec_find_candle(timestamp, opt_entry(entry)) == Ok::<
                Option<Seq<u8>>,
                StoreError,
            >(None),
            Err(e) => spec_find_candle(timestamp, opt_entry(entry)) == Err::<
                Option<Seq<u8>>,
                StoreError,
            >(e),
        },
{
    match entry {
        None => Ok(None),
        Some((key, value)) => {
            if !is_candle_key(key) {
                return Ok(None);
            }
            let open = candle_open_time_from_key(key)?;
            if open > u64::MAX - 900 {
                return Err(StoreError::CandleCloseOverflow);
            }
            let close = open + 900;
            if timestamp < open || timestamp >= close {
                return Ok(None);
            }
            Ok(Some(vstd::slice::slice_to_vec(value)))
        },
    }
}

/// Reading back the big-endian bytes of a number gives the number.
pub proof fn lemma_be_roundtrip(v: u64)
    ensures
        be_u64(u64_be(v)) == v,
        u64_be(v).len() == 8,
{
    let b = u64_be(v);
    let b0 = (v >> 56u64) as u8;
    let b1 = (v >> 48u64) as u8;
    let b2 = (v >> 40u64) as u8;
    let b3 = (v >> 32u64) as u8;
    let b4 = (v >> 24u64) as u8;
    let b5 = (v >> 16u64) as u8;
    let b6 = (v >> 8u64) as u8;
    let b7 = v as u8;
    assert(b[0] == b0 && b[1] == b1 && b[2] == b2 && b[3] == b3);
    assert(b[4] == b4 && b[5] == b5 && b[6] == b6 && b[7] == b7);
    assert(((b0 as u64) << 56u64) | ((b1 as u64) << 48u64) | ((b2 as u64) << 40u64) | ((
    b3 as u64) << 32u64) | ((b4 as u64) << 24u64) | ((b5 as u64) << 16u64) | ((b6 as u64)
        << 8u64) | (b7 as u64) == v) by (bit_vector)
        requires
            b0 == (v >> 56u64) as u8,
            b1 == (v >> 48u64) as u8,
            b2 == (v >> 40u64) as u8,
            b3 == (v >> 32u64) as u8,
            b4 == (v >> 24u64) as u8,
            b5 == (v >> 16u64) as u8,
            b6 == (v >> 8u64) as u8,
            b7 == v as u8,
    ;
}

/// A candle key names the open time it was made from.
pub proof fn lemma_candle_key_roundtrip(open_time: u64)
    ensures
        spec_candle_open_time_from_key(spec_candle_key(open_time)) == Ok::<u64, StoreError>(
            open_time,
        ),
{
    let k = spec_candle_key(open_time);
    lemma_be_roundtrip(open_time);
    assert(k.subrange(0, 7) =~= candle_prefix());
    assert(k.subrange(7, 15) =~= u64_be(open_time));
}

/// Different heights, and different open times, have different keys.
pub proof fn lemma_keys_injective(a: u64, b: u64)
    ensures
        spec_height_key(a) == spec_height_key(b) ==> a == b,
        spec_candle_key(a) == spec_candle_key(b) ==> a == b,
{
    lemma_be_roundtrip(a);
    lemma_be_roundtrip(b);
    if spec_height_key(a) == spec_height_key(b) {
        assert(spec_height_key(a).subrange(7, 15) =~= u64_be(a));
        assert(spec_height_key(b).subrange(7, 15) =~= u64_be(b));
    }
    if spec_candle_key(a) == spec_candle_key(b) {
        assert(spec_candle_key(a).subrange(7, 15) =~= u64_be(a));
        assert(spec_candle_key(b).subrange(7, 15) =~= u64_be(b));
    }
}

/// The metadata keys, the height keys and the candle keys are all different.
pub proof fn lemma_key_spaces_disjoint(h: u64, t: u64)
    ensures
        spec_height_key(h) != meta_next_height(),
        spec_height_key(h) != meta_last_indexed_height(),
        spec_height_key(h) != meta_min_height(),
        spec_height_key(h) != spec_candle_key(t),
        spec_candle_key(t) != meta_next_height(),
        spec_candle_key(t) != meta_last_indexed_height(),
        spec_candle_key(t) != meta_min_height(),
        meta_next_height() != meta_last_indexed_height(),
        meta_next_height() != meta_min_height(),
        meta_last_indexed_height() != meta_min_height(),
{
    assert(spec_height_key(h).len() == 15);
    assert(spec_candle_key(t).len() == 15);
    assert(spec_height_key(h)[0] == 104u8);
    assert(spec_candle_key(t)[0] == 99u8);
    assert(meta_min_height()[0] == 109u8);
    assert(meta_next_height().len() == 16);
    assert(meta_last_indexed_height().len() == 24);
    assert(meta_min_height().len() == 15);
}

/// A store after a batch: a key that the batch does not write keeps its value.
pub proof fn lemma_apply_writes_other(
    m: Map<Seq<u8>, Seq<u8>>,
    writes: Seq<(Seq<u8>, Seq<u8>)>,
    key: Seq<u8>,
)
    requires
        forall|i: int| 0 <= i < writes.len() ==> (#[trigger] writes[i]).0 != key,
    ensures
        kv_get(apply_writes(m, writes), key) == kv_get(m, key),
    decreases writes.len(),
{
    if writes.len() > 0 {
        let rest = writes.drop_last();
        assert forall|i: int| 0 <= i < rest.len() implies (#[trigger] rest[i]).0 != key by {
            assert(rest[i] == writes[i]);
        }
        lemma_apply_writes_other(m, rest, key);
        assert(writes.last() == writes[writes.len() - 1]);
    }
}

/// A store after a batch: a key holds the value of the batch's last write to it.
pub proof fn lemma_apply_writes_last(
    m: Map<Seq<u8>, Seq<u8>>,
    writes: Seq<(Seq<u8>, Seq<u8>)>,
    i: int,
)
    requires
        0 <= i < writes.len(),
        forall|j: int| i < j < writes.len() ==> (#[trigger] writes[j]).0 != writes[i].0,
    ensures
        kv_get(apply_writes(m, writes), writes[i].0) == Some(writes[i].1),
    decreases writes.len(),
{
    if i < writes.len() - 1 {
        let rest = writes.drop_last();
        assert forall|j: int| i < j < rest.len() implies (#[trigger] rest[j]).0 != rest[i].0 by {
            assert(rest[j] == writes[j]);
        }
        lemma_apply_writes_last(m, rest, i);
        assert(writes.last() == writes[writes.len() - 1]);
        assert(rest[i] == writes[i]);
    } else {
        assert(writes.last() == writes[i]);
    }
}

/// Starting the cursor on a store that holds none sets it to `min_height`,
/// and starting it again, with whatever minimum, keeps it there and writes
/// nothing: the first height is indexed exactly once.
pub proof fn lemma_initialize_cursor_once(m: Map<Seq<u8>, Seq<u8>>, min_height: u64, again: u64)
    requires
        !m.dom().contains(meta_next_height()),
    ensures
        spec_initialize_cursor(kv_get(m, meta_next_height()), min_height) == Ok::<
            (u64, Seq<(Seq<u8>, Seq<u8>)>),
            StoreError,
        >((min_height, spec_cursor_writes(min_height))),
        ({
            let m2 = apply_writes(m, spec_cursor_writes(min_height));
            &&& spec_next_height(kv_get(m2, meta_next_height())) == Ok::<u64, StoreError>(
                min_height,
            )
            &&& spec_initialize_cursor(kv_get(m2, meta_next_height()), again) == Ok::<
                (u64, Seq<(Seq<u8>, Seq<u8>)>),
                StoreError,
            >((min_height, Seq::empty()))
        }),
{
    let w = spec_cursor_writes(min_height);
    lemma_be_roundtrip(min_height);
    lemma_key_spaces_disjoint(0, 0);
    assert(w[1].0 != w[0].0);
    lemma_apply_writes_last(m, w, 0);
}

/// Recording a price point makes it readable under its height's key, makes
/// its height the latest one, moves the cursor to the height after it, and
/// leaves every other height's price point as it was.
pub proof fn lemma_price_point_read_back(
    m: Map<Seq<u8>, Seq<u8>>,
    height: u64,
    encoded: Seq<u8>,
    other: u64,
)
    requires
        height < u64::MAX,
    ensures
        ({
            let m2 = apply_writes(m, spec_price_point_writes(height, encoded));
            &&& kv_get(m2, spec_height_key(height)) == Some(encoded)
            &&& spec_next_height(kv_get(m2, meta_next_height())) == Ok::<u64, StoreError>(
                (height + 1) as u64,
            )
            &&& spec_latest_price_point_key(kv_get(m2, meta_last_indexed_height())) == Ok::<
                Option<Seq<u8>>,
                StoreError,
            >(Some(spec_height_key(height)))
            &&& (other != height ==> kv_get(m2, spec_height_key(other)) == kv_get(
                m,
                spec_height_key(other),
            ))
        }),
{
    let w = spec_price_point_writes(height, encoded);
    lemma_be_roundtrip(height);
    lemma_be_roundtrip((height + 1) as u64);
    lemma_key_spaces_disjoint(height, 0);
    lemma_key_spaces_disjoint(other, 0);
    lemma_apply_writes_last(m, w, 0);
    lemma_apply_writes_last(m, w, 1);
    lemma_apply_writes_last(m, w, 2);
    if other != height {
        lemma_keys_injective(other, height);
        assert forall|i: int| 0 <= i < w.len() implies (#[trigger] w[i]).0 != spec_height_key(
            other,
        ) by {}
        lemma_apply_writes_other(m, w, spec_height_key(other));
    }
}

/// Caching a batch of candles with distinct open times makes each readable
/// under its open time's key.
pub proof fn lemma_candles_read_back(
    m: Map<Seq<u8>, Seq<u8>>,
    times: Seq<u64>,
    encoded: Seq<Seq<u8>>,
    i: int,
)
    requires
        times.len() == encoded.len(),
        0 <= i < times.len(),
        forall|a: int, b: int| 0 <= a < b < times.len() ==> times[a] != times[b],
    ensures
        kv_get(apply_writes(m, spec_candle_writes(times, encoded)), spec_candle_key(times[i]))
            == Some(encoded[i]),
{
    let w = spec_candle_writes(times, encoded);
    assert forall|j: int| i < j < w.len() implies (#[trigger] w[j]).0 != w[i].0 by {
        lemma_keys_injective(times[j], times[i]);
    }
    lemma_apply_writes_last(m, w, i);
}

/// Bytewise order is reflexive.
pub proof fn lemma_lex_le_refl(a: Seq<u8>)
    ensures
        lex_le(a, a),
    decreases a.len(),
{
    if a.len() > 0 {
        lemma_lex_le_refl(a.drop_first());
    }
}

/// Bytewise order is antisymmetric.
pub proof fn lemma_lex_le_antisym(a: Seq<u8>, b: Seq<u8>)
    requires
        lex_le(a, b),
        lex_le(b, a),
    ensures
        a == b,
    decreases a.len(),
{
    if a.len() > 0 {
        lemma_lex_le_antisym(a.drop_first(), b.drop_first());
        assert(a =~= seq![a[0]] + a.drop_first());
        assert(b =~= seq![b[0]] + b.drop_first());
    } else {
        assert(b.len() == 0);
        assert(a =~= b);
    }
}

/// A reverse iteration from a key that the store holds starts at that key.
pub proof fn lemma_seek_reverse_present(m: Map<Seq<u8>, Seq<u8>>, target: Seq<u8>)
    requires
        m.dom().contains(target),
    ensures
        seek_reverse(m, target) == Some((target, m[target])),
{
    lemma_lex_le_refl(target);
    assert(is_last_at_or_before(m, target, target));
    let k = choose|k: Seq<u8>| is_last_at_or_before(m, target, k);
    assert(lex_le(target, k));
    lemma_lex_le_antisym(k, target);
}

/// Where the candle of a timestamp's 15 minutes is cached, the lookup from
/// its seek key finds it.
pub proof fn lemma_find_cached_candle(m: Map<Seq<u8>, Seq<u8>>, timestamp: u64)
    requires
        m.dom().contains(spec_candle_key((timestamp - timestamp % 900) as u64)),
        (timestamp - timestamp % 900) + 900 <= u64::MAX,
    ensures
        ({
            let key = spec_candle_key((timestamp - timestamp % 900) as u64);
            spec_find_candle(timestamp, seek_reverse(m, key)) == Ok::<
                Option<Seq<u8>>,
                StoreError,
            >(Some(m[key]))
        }),
{
    let open = (timestamp - timestamp % 900) as u64;
    let key = spec_candle_key(open);
    lemma_seek_reverse_present(m, key);
    lemma_candle_key_roundtrip(open);
    assert(key.subrange(0, 7) =~= candle_prefix());
}

/// Bytewise order of two keys with a common prefix is the order of what follows it.
pub proof fn lemma_lex_le_common_prefix(p: Seq<u8>, x: Seq<u8>, y: Seq<u8>)
    ensures
        lex_le(p + x, p + y) == lex_le(x, y),
    decreases p.len(),
{
    if p.len() > 0 {
        assert((p + x).drop_first() =~= p.drop_first() + x);
        assert((p + y).drop_first() =~= p.drop_first() + y);
        assert((p + x)[0] == (p + y)[0]);
        lemma_lex_le_common_prefix(p.drop_first(), x, y);
    } else {
        assert(p + x =~= x);
        assert(p + y =~= y);
    }
}

/// One step of bytewise order on sequences of equal length.
proof fn lemma_lex_le_step(s: Seq<u8>, t: Seq<u8>, i: int)
    requires
        0 <= i < s.len(),
        s.len() == t.len(),
    ensures
        lex_le(s.subrange(i, s.len() as int), t.subrange(i, t.len() as int)) == (if s[i]
            != t[i] {
            s[i] < t[i]
        } else {
            lex_le(s.subrange(i + 1, s.len() as int), t.subrange(i + 1, t.len() as int))
        }),
{
    assert(s.subrange(i, s.len() as int).drop_first() =~= s.subrange(i + 1, s.len() as int));
    assert(t.subrange(i, t.len() as int).drop_first() =~= t.subrange(i + 1, t.len() as int));
}

/// Big-endian bytes order as the numbers do.
pub proof fn lemma_be_order(a: u64, b: u64)
    ensures
        lex_le(u64_be(a), u64_be(b)) == (a <= b),
{
    let s = u64_be(a);
    let t = u64_be(b);
    lemma_lex_le_step(s, t, 0);
    lemma_lex_le_step(s, t, 1);
    lemma_lex_le_step(s, t, 2);
    lemma_lex_le_step(s, t, 3);
    lemma_lex_le_step(s, t, 4);
    lemma_lex_le_step(s, t, 5);
    lemma_lex_le_step(s, t, 6);
    lemma_lex_le_step(s, t, 7);
    assert(s.subrange(0, 8) =~= s);
    assert(t.subrange(0, 8) =~= t);
    assert(s.subrange(8, 8).len() == 0);
    let a0 = (a >> 56u64) as u8;
    let a1 = (a >> 48u64) as u8;
    let a2 = (a >> 40u64) as u8;
    let a3 = (a >> 32u64) as u8;
    let a4 = (a >> 24u64) as u8;
    let a5 = (a >> 16u64) as u8;
    let a6 = (a >> 8u64) as u8;
    let a7 = a as u8;
    let b0 = (b >> 56u64) as u8;
    let b1 = (b >> 48u64) as u8;
    let b2 = (b >> 40u64) as u8;
    let b3 = (b >> 32u64) as u8;
    let b4 = (b >> 24u64) as u8;
    let b5 = (b >> 16u64) as u8;
    let b6 = (b >> 8u64) as u8;
    let b7 = b as u8;
    assert(s[0] == a0 && s[1] == a1 && s[2] == a2 && s[3] == a3);
    assert(s[4] == a4 && s[5] == a5 && s[6] == a6 && s[7] == a7);
    assert(t[0] == b0 && t[1] == b1 && t[2] == b2 && t[3] == b3);
    assert(t[4] == b4 && t[5] == b5 && t[6] == b6 && t[7] == b7);
    assert((a <= b) == (if a0 != b0 {
        a0 < b0
    } else if a1 != b1 {
        a1 < b1
    } else if a2 != b2 {
        a2 < b2
    } else if a3 != b3 {
        a3 < b3
    } else if a4 != b4 {
        a4 < b4
    } else if a5 != b5 {
        a5 < b5
    } else if a6 != b6 {
        a6 < b6
    } else if a7 != b7 {
        a7 < b7
    } else {
        true
    })) by (bit_vector)
        requires
            a0 == (a >> 56u64) as u8,
            a1 == (a >> 48u64) as u8,
            a2 == (a >> 40u64) as u8,
            a3 == (a >> 32u64) as u8,
            a4 == (a >> 24u64) as u8,
            a5 == (a >> 16u64) as u8,
            a6 == (a >> 8u64) as u8,
            a7 == a as u8,
            b0 == (b >> 56u64) as u8,
            b1 == (b >> 48u64) as u8,
            b2 == (b >> 40u64) as u8,
            b3 == (b >> 32u64) as u8,
            b4 == (b >> 24u64) as u8,
            b5 == (b >> 16u64) as u8,
            b6 == (b >> 8u64) as u8,
            b7 == b as u8,
    ;
}

/// Candle keys order as their open times do, so the candle a reverse
/// iteration from a candle key meets is the newest one at or before it.
pub proof fn lemma_candle_key_order(a: u64, b: u64)
    ensures
        lex_le(spec_candle_key(a), spec_candle_key(b)) == (a <= b),
{
    lemma_lex_le_common_prefix(candle_prefix(), u64_be(a), u64_be(b));
    lemma_be_order(a, b);
}

/// A batch of writes keeps every key a store holds and adds every key it writes.
pub proof fn lemma_apply_writes_dom(m: Map<Seq<u8>, Seq<u8>>, writes: Seq<(Seq<u8>, Seq<u8>)>)
    ensures
        forall|k: Seq<u8>| m.dom().contains(k) ==> #[trigger] apply_writes(m, writes).dom().contains(k),
        forall|i: int| 0 <= i < writes.len() ==> apply_writes(m, writes).dom().contains(
            #[trigger] writes[i].0,
        ),
    decreases writes.len(),
{
    if writes.len() > 0 {
        let rest = writes.drop_last();
        lemma_apply_writes_dom(m, rest);
        assert forall|k: Seq<u8>| m.dom().contains(k) implies #[trigger] apply_writes(
            m,
            writes,
        ).dom().contains(k) by {
            assert(apply_writes(m, rest).dom().contains(k));
        }
        assert forall|i: int| 0 <= i < writes.len() implies apply_writes(m, writes).dom().contains(
            #[trigger] writes[i].0,
        ) by {
            if i < writes.len() - 1 {
                assert(rest[i] == writes[i]);
            } else {
                assert(writes.last() == writes[i]);
            }
        }
    }
}

/// A store after caching a run of candle batches in turn, batch `i` with the
/// encodings `encoded[i]`.
pub open spec fn store_candle_batches(
    m: Map<Seq<u8>, Seq<u8>>,
    batches: Seq<Seq<u64>>,
    encoded: Seq<Seq<Seq<u8>>>,
) -> Map<Seq<u8>, Seq<u8>>
    decreases batches.len(),
{
    if batches.len() == 0 || encoded.len() == 0 {
        m
    } else {
        store_candle_batches(
            apply_writes(m, spec_candle_writes(batches[0], encoded[0])),
            batches.drop_first(),
            encoded.drop_first(),
        )
    }
}

/// Caching a run of candle batches keeps every key and adds the key of every
/// candle of every batch.
pub proof fn lemma_store_candle_batches_dom(
    m: Map<Seq<u8>, Seq<u8>>,
    batches: Seq<Seq<u64>>,
    encoded: Seq<Seq<Seq<u8>>>,
)
    requires
        batches.len() == encoded.len(),
        forall|i: int| 0 <= i < batches.len() ==> (#[trigger] batches[i]).len() == encoded[i].len(),
    ensures
        forall|k: Seq<u8>| m.dom().contains(k) ==> #[trigger] store_candle_batches(
            m,
            batches,
            encoded,
        ).dom().contains(k),
        forall|j: int|
            0 <= j < batches.flatten().len() ==> store_candle_batches(m, batches, encoded).dom().contains(
                spec_candle_key(#[trigger] batches.flatten()[j]),
            ),
    decreases batches.len(),
{
    if batches.len() > 0 {
        let first = batches[0];
        let w = spec_candle_writes(first, encoded[0]);
        let m1 = apply_writes(m, w);
        let rest = batches.drop_first();
        let erest = encoded.drop_first();
        assert forall|i: int| 0 <= i < rest.len() implies (#[trigger] rest[i]).len() == erest[i].len() by {
            assert(rest[i] == batches[i + 1]);
            assert(erest[i] == encoded[i + 1]);
        }
        lemma_apply_writes_dom(m, w);
        lemma_store_candle_batches_dom(m1, rest, erest);
        let all = batches.flatten();
        assert(all == first + rest.flatten());
        assert(store_candle_batches(m, batches, encoded) == store_candle_batches(m1, rest, erest));
        assert forall|k: Seq<u8>| m.dom().contains(k) implies #[trigger] store_candle_batches(
            m,
            batches,
            encoded,
        ).dom().contains(k) by {
            assert(m1.dom().contains(k));
        }
        assert forall|j: int| 0 <= j < all.len() implies store_candle_batches(
            m,
            batches,
            encoded,
        ).dom().contains(spec_candle_key(#[trigger] all[j])) by {
            if j < first.len() {
                assert(all[j] == first[j]);
                assert(w[j].0 == spec_candle_key(first[j]));
                assert(m1.dom().contains(w[j].0));
            } else {
                assert(all[j] == rest.flatten()[j - first.len()]);
            }
        }
    }
}

/// A store after recording price points for the heights `from`,
/// `from + 1`, ..., in turn, height `from + i` encoded as `encoded[i]`.
pub open spec fn store_price_points(m: Map<Seq<u8>, Seq<u8>>, from: u64, encoded: Seq<Seq<u8>>) -> Map<
    Seq<u8>,
    Seq<u8>,
>
    decreases encoded.len(),
{
    if encoded.len() == 0 {
        m
    } else {
        apply_writes(
            store_price_points(m, from, encoded.drop_last()),
            spec_price_point_writes((from + encoded.len() - 1) as u64, encoded.last()),
        )
    }
}

/// Indexing the heights `from` through `from + n - 1` in turn makes each of
/// them readable with its own price point, moves the cursor to
/// `from + n` and makes `from + n - 1` the latest height.
pub proof fn lemma_indexed_heights_read_back(
    m: Map<Seq<u8>, Seq<u8>>,
    from: u64,
    encoded: Seq<Seq<u8>>,
)
    requires
        encoded.len() > 0,
        from + encoded.len() <= u64::MAX,
    ensures
        ({
            let m2 = store_price_points(m, from, encoded);
            &&& forall|i: int|
                0 <= i < encoded.len() ==> kv_get(m2, spec_height_key((from + i) as u64))
                    == Some(#[trigger] encoded[i])
            &&& spec_next_height(kv_get(m2, meta_next_height())) == Ok::<u64, StoreError>(
                (from + encoded.len()) as u64,
            )
            &&& spec_latest_price_point_key(kv_get(m2, meta_last_indexed_height())) == Ok::<
                Option<Seq<u8>>,
                StoreError,
            >(Some(spec_height_key((from + encoded.len() - 1) as u64)))
        }),
    decreases encoded.len(),
{
    let n = encoded.len();
    let last = (from + n - 1) as u64;
    let rest = encoded.drop_last();
    let m1 = store_price_points(m, from, rest);
    let m2 = store_price_points(m, from, encoded);
    assert(m2 == apply_writes(m1, spec_price_point_writes(last, encoded.last())));
    lemma_price_point_read_back(m1, last, encoded.last(), last);
    if n > 1 {
        lemma_indexed_heights_read_back(m, from, rest);
    }
    assert forall|i: int| 0 <= i < encoded.len() implies kv_get(
        m2,
        spec_height_key((from + i) as u64),
    ) == Some(#[trigger] encoded[i]) by {
        if i < n - 1 {
            lemma_price_point_read_back(m1, last, encoded.last(), (from + i) as u64);
            assert(rest[i] == encoded[i]);
        } else {
            assert(encoded.last() == encoded[i]);
        }
    }
}

/// A key at or before a key of the `p` block but without the prefix `p`
/// sorts before every key of that block.
pub proof fn lemma_below_prefix_block(p: Seq<u8>, x: Seq<u8>, a: Seq<u8>, b: Seq<u8>)
    requires
        lex_le(x, p + b),
        !has_prefix(x, p),
    ensures
        lex_le(x, p + a),
    decreases p.len(),
{
    if p.len() == 0 {
        assert(x.subrange(0, 0) =~= p);
    } else if x.len() == 0 {
    } else {
        assert((p + b)[0] == p[0]);
        assert((p + a)[0] == p[0]);
        if x[0] == p[0] {
            assert((p + b).drop_first() =~= p.drop_first() + b);
            assert((p + a).drop_first() =~= p.drop_first() + a);
            if has_prefix(x.drop_first(), p.drop_first()) {
                assert(x.subrange(0, p.len() as int) =~= seq![x[0]] + x.drop_first().subrange(
                    0,
                    p.drop_first().len() as int,
                ));
                assert(p =~= seq![p[0]] + p.drop_first());
            }
            lemma_below_prefix_block(p.drop_first(), x.drop_first(), a, b);
        }
    }
}

/// The newest-candle lookup over a store whose `candle/` keys are all
/// candle keys: with no candle stored it finds none; otherwise it finds the
/// largest stored open time `newest`.
pub proof fn lemma_last_candle_is_newest(m: Map<Seq<u8>, Seq<u8>>, newest: Option<u64>)
    requires
        forall|k: Seq<u8>|
            #[trigger] m.dom().contains(k) && has_prefix(k, candle_prefix()) ==> exists|t: u64|
                k == spec_candle_key(t) && (newest matches Some(n) && t <= n),
        newest matches Some(n) ==> m.dom().contains(spec_candle_key(n)),
    ensures
        spec_last_candle_open_time(
            match seek_reverse(m, spec_candle_key(u64::MAX)) {
                Some(e) => Some(e.0),
                None => None,
            },
        ) == Ok::<Option<u64>, StoreError>(newest),
{
    let target = spec_candle_key(u64::MAX);
    match newest {
        None => {
            if exists|k: Seq<u8>| is_last_at_or_before(m, target, k) {
                let k = choose|k: Seq<u8>| is_last_at_or_before(m, target, k);
                assert(m.dom().contains(k));
                assert(!has_prefix(k, candle_prefix()));
            }
        },
        Some(n) => {
            let kn = spec_candle_key(n);
            lemma_candle_key_order(n, u64::MAX);
            assert forall|x: Seq<u8>| #[trigger] m.dom().contains(x) && lex_le(x, target) implies lex_le(
                x,
                kn,
            ) by {
                if has_prefix(x, candle_prefix()) {
                    let t = choose|t: u64| x == spec_candle_key(t) && (newest matches Some(n) && t <= n);
                    lemma_candle_key_order(t, n);
                } else {
                    lemma_below_prefix_block(candle_prefix(), x, u64_be(n), u64_be(u64::MAX));
                }
            }
            assert(is_last_at_or_before(m, target, kn));
            let k = choose|k: Seq<u8>| is_last_at_or_before(m, target, k);
            assert(lex_le(kn, k));
            lemma_lex_le_antisym(k, kn);
            lemma_candle_key_roundtrip(n);
            assert(kn.subrange(0, 7) =~= candle_prefix());
        },
    }
}

} // verus!
