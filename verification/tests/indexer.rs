use espopricer::indexer::{
    anchor_height, plan_sync, price_point_for_height, validate_candle_batch, CandleCatchup,
    IndexError, SyncPlan,
};
use espopricer::types::CachedCandle;

fn candle(t: u64) -> CachedCandle {
    CachedCandle { candle_open_time: t, price_scaled: "1".to_string(), price_raw: "1".to_string() }
}

#[test]
fn sync_plan_and_anchor() {
    assert_eq!(plan_sync(11, 10), SyncPlan::UpToDate);
    assert_eq!(plan_sync(10, 12), SyncPlan::Index { from: 10, to: 12 });
    assert_eq!(anchor_height(100, 100), 100);
    assert_eq!(anchor_height(101, 100), 100);
}

#[test]
fn batches_must_be_contiguous() {
    assert_eq!(validate_candle_batch(900, &[candle(900), candle(1800)]), Ok(()));
    assert_eq!(
        validate_candle_batch(900, &[candle(900), candle(2700)]),
        Err(IndexError::BatchGap { expected: 1800, actual: 2700 })
    );
    assert_eq!(
        validate_candle_batch(0, &[candle(900)]),
        Err(IndexError::BatchGap { expected: 0, actual: 900 })
    );
    assert_eq!(
        validate_candle_batch(u64::MAX, &[candle(u64::MAX)]),
        Err(IndexError::ValidationOverflow)
    );
    assert_eq!(validate_candle_batch(5, &[]), Ok(()));
}

#[test]
fn catchup_start_positions() {
    assert_eq!(
        CandleCatchup::start(1800, 900, None),
        Err(IndexError::RequestedStartAfterLatest { requested: 1800, latest: 900 })
    );
    let c = CandleCatchup::start(900, 9000, None).unwrap();
    assert_eq!(c.cursor, 900);
    let c = CandleCatchup::start(900, 9000, Some(1800)).unwrap();
    assert_eq!(c.cursor, 2700);
    let c = CandleCatchup::start(900, 9000, Some(0)).unwrap();
    assert_eq!(c.cursor, 900);
    // The newest candle is fetched again.
    let c = CandleCatchup::start(900, 9000, Some(9000)).unwrap();
    assert_eq!(c.cursor, 9000);
}

#[test]
fn catchup_runs_to_latest() {
    let latest = 900 * 2500;
    let mut c = CandleCatchup::start(0, latest, None).unwrap();
    let mut batches = 0;
    while let Some((s, e)) = c.next_batch().unwrap() {
        assert!(e - s <= 999 * 900);
        let candles: Vec<CachedCandle> = (0..=(e - s) / 900).map(|i| candle(s + 900 * i)).collect();
        c.accept_batch(e, &candles).unwrap();
        batches += 1;
    }
    assert_eq!(batches, 3);
    assert_eq!(c.cursor, latest + 900);
    let mut d = CandleCatchup::start(0, latest, None).unwrap();
    assert_eq!(
        d.accept_batch(10, &[]),
        Err(IndexError::EmptyBatch { start: 0, end: 10 })
    );
    assert_eq!(d.accept_batch(10, &[candle(900)]), Err(IndexError::BatchGap { expected: 0, actual: 900 }));
    assert_eq!(d.cursor, 0);
}

#[test]
fn price_point_needs_a_candle() {
    assert_eq!(
        price_point_for_height(5, 77, None),
        Err(IndexError::MissingCandle { height: 5, timestamp: 77 })
    );
    let p = price_point_for_height(5, 901, Some(candle(900))).unwrap();
    assert_eq!((p.height, p.timestamp, p.candle_open_time), (5, 901, 900));
}

#[test]
fn sync_pass_waits_for_candles_then_walks_heights() {
    assert!(espopricer::indexer::SyncPass::new(11, 10).is_none());
    let mut pass = espopricer::indexer::SyncPass::new(10, 12).unwrap();
    assert_eq!(pass.next_height_to_index(), None);
    pass.height_indexed();
    assert_eq!(pass.next_height_to_index(), None);
    pass.candles_caught_up();
    let mut seen = Vec::new();
    while let Some(h) = pass.next_height_to_index() {
        seen.push(h);
        pass.height_indexed();
    }
    assert_eq!(seen, vec![10, 11, 12]);
    let mut top = espopricer::indexer::SyncPass::new(u64::MAX, u64::MAX).unwrap();
    top.candles_caught_up();
    assert_eq!(top.next_height_to_index(), Some(u64::MAX));
    top.height_indexed();
    assert_eq!(top.next_height_to_index(), None);
}

#[test]
fn catchup_start_check() {
    assert_eq!(
        espopricer::indexer::check_catchup_start(1800, 900),
        Err(IndexError::RequestedStartAfterLatest { requested: 1800, latest: 900 })
    );
    assert_eq!(espopricer::indexer::check_catchup_start(900, 900), Ok(()));
}
