use polymarket_scraper::market::Market;
use polymarket_scraper::metrics::Metrics;
use polymarket_scraper::store::{count_new, plan_upsert, MarketStore, StoreError};

fn market(id: &str, title: &str) -> Market {
    Market {
        id: id.to_string(),
        title: title.to_string(),
        description: None,
        current_price: Some("0.5".to_string()),
        volume: None,
        end_date: None,
        discovered_at: None,
        updated_at: None,
    }
}

#[test]
fn test_metrics_recording() {
    let mut metrics = Metrics::new();

    assert_eq!(metrics.get_total_scrapes(), 0);
    assert_eq!(metrics.get_successful_scrapes(), 0);
    assert_eq!(metrics.get_failed_scrapes(), 0);

    metrics.record_scrape(true);
    assert_eq!(metrics.get_total_scrapes(), 1);
    assert_eq!(metrics.get_successful_scrapes(), 1);
    assert_eq!(metrics.get_failed_scrapes(), 0);

    metrics.record_scrape(false);
    assert_eq!(metrics.get_total_scrapes(), 2);
    assert_eq!(metrics.get_successful_scrapes(), 1);
    assert_eq!(metrics.get_failed_scrapes(), 1);

    let last_time = metrics.get_last_scrape_time();
    assert!(last_time.is_some());
}

#[test]
fn upsert_twice_keeps_one_row() {
    let mut store = MarketStore::new();
    assert_eq!(store.upsert_market(&market("m1", "First"), 100), Ok(true));
    assert_eq!(store.upsert_market(&market("m1", "Second"), 250), Ok(false));
    assert_eq!(store.len(), 1);
    let row = store.get_market_by_id("m1").unwrap();
    assert_eq!(row.title, "Second");
    assert_eq!(row.discovered_at, Some(100));
    assert_eq!(row.updated_at, Some(250));
}

#[test]
fn first_seen_reported_once_per_id() {
    let mut store = MarketStore::new();
    let mut flags = Vec::new();
    for (i, id) in ["a", "b", "a", "c", "b", "a"].iter().enumerate() {
        flags.push(store.upsert_market(&market(id, "t"), i as i64).unwrap());
    }
    assert_eq!(flags, vec![true, true, false, true, false, false]);
    assert_eq!(store.len(), 3);
    assert_eq!(store.get_market_by_id("a").unwrap().discovered_at, Some(0));
    assert_eq!(store.get_market_by_id("a").unwrap().updated_at, Some(5));
    assert!(store.get_market_by_id("zzz").is_none());
}

#[test]
fn empty_identity_never_stored() {
    let mut store = MarketStore::new();
    assert_eq!(store.upsert_market(&market("", "t"), 1), Err(StoreError::EmptyId));
    assert_eq!(store.len(), 0);
}

#[test]
fn update_time_never_precedes_first_seen() {
    let mut store = MarketStore::new();
    store.upsert_market(&market("x", "t"), 500).unwrap();
    store.upsert_market(&market("x", "u"), 200).unwrap();
    let row = store.get_market_by_id("x").unwrap();
    assert_eq!(row.discovered_at, Some(500));
    assert_eq!(row.updated_at, Some(500));
}

#[test]
fn plan_for_new_and_known_rows() {
    let (row, is_new) = plan_upsert(None, &market("n", "t"), 42);
    assert!(is_new);
    assert_eq!(row.discovered_at, Some(42));
    assert_eq!(row.updated_at, Some(42));
    assert_eq!(row.current_price, Some("0.5".to_string()));
    let (row2, is_new2) = plan_upsert(Some(&row), &market("n", "t2"), 50);
    assert!(!is_new2);
    assert_eq!(row2.discovered_at, Some(42));
    assert_eq!(row2.updated_at, Some(50));
    assert_eq!(row2.title, "t2");
}

#[test]
fn counts_only_new_records() {
    assert_eq!(count_new(&vec![]), 0);
    assert_eq!(count_new(&vec![Some(true), Some(false), None, Some(true)]), 2);
    assert_eq!(count_new(&vec![None, Some(false)]), 0);
}

#[test]
fn second_store_time_becomes_update_time() {
    let mut store = MarketStore::new();
    store.upsert_market(&market("p", "old"), 10).unwrap();
    store.upsert_market(&market("p", "new"), 30).unwrap();
    let row = store.get_market_by_id("p").unwrap();
    assert_eq!(row.title, "new");
    assert_eq!(row.discovered_at, Some(10));
    assert_eq!(row.updated_at, Some(30));
}
