use espopricer::store::{
    candle_key, candle_open_time_from_key, candle_seek_key, find_candle_for_timestamp, height_key,
    initialize_cursor, last_candle_open_time, last_candle_seek_key, latest_price_point,
    meta_next_height_key, next_height, put_candles, put_price_point, read_u64, CursorInit,
    StoreError,
};
use espopricer::types::{CachedCandle, PricePoint};
use std::collections::BTreeMap;

type Db = BTreeMap<Vec<u8>, Vec<u8>>;

fn apply(db: &mut Db, writes: Vec<(Vec<u8>, Vec<u8>)>) {
    for (k, v) in writes {
        db.insert(k, v);
    }
}

fn seek_reverse<'a>(db: &'a Db, key: &[u8]) -> Option<(&'a [u8], &'a [u8])> {
    db.range(..=key.to_vec()).next_back().map(|(k, v)| (k.as_slice(), v.as_slice()))
}

#[test]
fn keys_have_prefix_and_big_endian_number() {
    assert_eq!(height_key(1), b"height/\x00\x00\x00\x00\x00\x00\x00\x01".to_vec());
    assert_eq!(candle_key(0x0102), b"candle/\x00\x00\x00\x00\x00\x00\x01\x02".to_vec());
    assert_eq!(candle_open_time_from_key(&candle_key(1_700_000_100)), Ok(1_700_000_100));
    assert_eq!(candle_open_time_from_key(&height_key(5)), Err(StoreError::NotCandleKey));
    assert_eq!(
        candle_open_time_from_key(b"candle/\x01"),
        Err(StoreError::InvalidCandleKeyLength)
    );
    assert!(candle_key(899) < candle_key(900));
    assert!(candle_key(255) < candle_key(256));
}

#[test]
fn metadata_values_are_eight_bytes() {
    assert_eq!(read_u64(None), Ok(None));
    assert_eq!(read_u64(Some(&7u64.to_be_bytes()[..])), Ok(Some(7)));
    assert_eq!(read_u64(Some(&[1u8, 2, 3][..])), Err(StoreError::NotU64));
    assert_eq!(next_height(None), Err(StoreError::MissingCursor));
}

#[test]
fn cursor_is_initialized_once() {
    let mut db = Db::new();
    let first = initialize_cursor(db.get(&meta_next_height_key()).map(|v| v.as_slice()), 100)
        .unwrap();
    match first {
        CursorInit::Initialize { next_height, writes } => {
            assert_eq!(next_height, 100);
            apply(&mut db, writes);
        }
        CursorInit::Existing(_) => panic!("expected an initialization"),
    }
    let again = initialize_cursor(db.get(&meta_next_height_key()).map(|v| v.as_slice()), 5)
        .unwrap();
    assert!(matches!(again, CursorInit::Existing(100)));
    assert_eq!(next_height(db.get(&meta_next_height_key()).map(|v| v.as_slice())), Ok(100));
}

#[test]
fn price_point_reads_back() {
    let mut db = Db::new();
    let point = PricePoint {
        height: 840000,
        timestamp: 1,
        candle_open_time: 0,
        price_scaled: "1".to_string(),
        price_raw: "1".to_string(),
    };
    apply(&mut db, put_price_point(&point, b"encoded".to_vec()).unwrap());
    assert_eq!(db.get(&height_key(840000)).unwrap(), &b"encoded".to_vec());
    assert_eq!(next_height(db.get(&meta_next_height_key()).map(|v| v.as_slice())), Ok(840001));
    let last_key = espopricer::store::meta_last_indexed_height_key();
    let latest = latest_price_point(db.get(&last_key).map(|v| v.as_slice())).unwrap();
    assert_eq!(latest, Some(height_key(840000)));
    let top = PricePoint { height: u64::MAX, ..point };
    assert_eq!(put_price_point(&top, vec![]), Err(StoreError::HeightOverflow));
    assert_eq!(latest_price_point(None), Ok(None));
}

#[test]
fn candles_are_found_by_timestamp() {
    let mut db = Db::new();
    let candles: Vec<CachedCandle> = [900u64, 1800, 3600]
        .iter()
        .map(|&t| CachedCandle {
            candle_open_time: t,
            price_scaled: t.to_string(),
            price_raw: t.to_string(),
        })
        .collect();
    let encoded: Vec<Vec<u8>> = candles.iter().map(|c| c.price_raw.clone().into_bytes()).collect();
    let writes = put_candles(&candles, encoded);
    assert_eq!(writes.len(), 3);
    apply(&mut db, writes);
    apply(&mut db, vec![(height_key(1), b"x".to_vec())]);

    let seek = candle_seek_key(1801);
    let hit = find_candle_for_timestamp(1801, seek_reverse(&db, &seek)).unwrap();
    assert_eq!(hit, Some(b"1800".to_vec()));
    // 2700..3600 has no candle: the lookup meets the 1800 candle and refuses it.
    let seek = candle_seek_key(2800);
    assert_eq!(find_candle_for_timestamp(2800, seek_reverse(&db, &seek)), Ok(None));
    // Before the first candle the lookup meets a height key.
    let seek = candle_seek_key(10);
    assert_eq!(find_candle_for_timestamp(10, seek_reverse(&db, &seek)), Ok(None));
    let last = last_candle_open_time(seek_reverse(&db, &last_candle_seek_key()).map(|(k, _)| k));
    assert_eq!(last, Ok(Some(3600)));
    assert_eq!(last_candle_open_time(None), Ok(None));
    assert!(put_candles(&[], vec![]).is_empty());
    let top = candle_key(u64::MAX - 10);
    assert_eq!(
        find_candle_for_timestamp(u64::MAX, Some((top.as_slice(), &b"v"[..]))),
        Err(StoreError::CandleCloseOverflow)
    );
}
