use stellarflow_contracts::analytics::{AnalyticsEngine, EmaRecord, ALPHA_SCALE};

#[test]
fn first_price_becomes_average_then_smooths() {
    let mut alpha = None;
    AnalyticsEngine::initialize(&mut alpha, 2_000);
    assert_eq!(alpha, Some(2_000));
    let mut record: Option<EmaRecord> = None;
    assert_eq!(AnalyticsEngine::get_ema(&record), 0);
    AnalyticsEngine::submit_price(&alpha, &mut record, 1_000, 10);
    assert_eq!(record, Some(EmaRecord { value: 1_000, last_updated: 10 }));
    // (2_000 * 2_000 + 1_000 * 8_000) / 10_000 = 1_200
    AnalyticsEngine::submit_price(&alpha, &mut record, 2_000, 20);
    assert_eq!(AnalyticsEngine::get_ema(&record), 1_200);
    assert_eq!(record.unwrap().last_updated, 20);
}

#[test]
fn average_stays_between_old_value_and_price() {
    let alpha = Some(3_333);
    let mut record = Some(EmaRecord { value: 500, last_updated: 0 });
    AnalyticsEngine::submit_price(&alpha, &mut record, 100, 1);
    let v = AnalyticsEngine::get_ema(&record);
    assert!((100..=500).contains(&v));
    // (100 * 3_333 + 500 * 6_667) / 10_000 = 366 (rounded down)
    assert_eq!(v, 366);
    let full = Some(ALPHA_SCALE);
    AnalyticsEngine::submit_price(&full, &mut record, 777, 2);
    assert_eq!(AnalyticsEngine::get_ema(&record), 777);
}
