use coin_portfolio::worker::{
    catalog, history_url, price_row, price_rows, refresh_coins, refresh_prices, refresh_rates,
    ticker_url, Asset, Coin, Quote, Reading, RefreshError, Sample, State, Ticker, Turn,
    MIN_INTERVAL, PAGE_LIMIT,
};

fn sample(ms: u64, price: f64) -> Sample<f64> {
    Sample {
        timestamp_ms: Some(ms),
        price_usd: Reading::Value(price),
        price_btc: Some(0.5),
        volume_usd: Some(1000.0),
        price_platform: None,
    }
}

fn quote(price: f64) -> Quote<f64> {
    Quote {
        price: Some(price),
        volume_24h: Some(2.0),
        market_cap: Some(3.0),
        percent_change_1h: Some(4.0),
        percent_change_24h: Some(5.0),
        percent_change_7d: Some(6.0),
    }
}

fn ticker(slug: &str, rank: i64) -> Ticker<f64> {
    Ticker {
        id: Some(rank + 1000),
        name: Some(slug.to_uppercase()),
        symbol: Some(slug[..3].to_string()),
        website_slug: Some(slug.to_string()),
        rank: Some(rank),
        circulating_supply: Some(7.0),
        total_supply: Some(8.0),
        max_supply: None,
        usd: quote(10.0),
        cny: quote(65.0),
        last_updated: Some(1500000000),
    }
}

#[test]
fn sample_without_volume_is_stored_with_volume_zero() {
    let mut s = sample(1500000123456, 42.0);
    s.volume_usd = None;
    let row = price_row(&s, 0.0).unwrap();
    assert_eq!(row.volume_usd, 0.0);
    assert_eq!(row.price_usd, 42.0);
    assert_eq!(row.price_btc, 0.5);
    assert_eq!(row.price_platform, None);
    assert_eq!(row.created, 1500000123);
}

#[test]
fn samples_without_a_price_are_skipped() {
    let mut zero = sample(2000, 1.0);
    zero.price_usd = Reading::Zero;
    let mut missing = sample(3000, 1.0);
    missing.price_usd = Reading::Missing;
    let mut untimed = sample(4000, 1.0);
    untimed.timestamp_ms = None;
    let mut platform = sample(5999, 2.0);
    platform.price_platform = Some(None);
    platform.price_btc = None;
    let mut platform_value = sample(6000, 3.0);
    platform_value.price_platform = Some(Some(0.25));
    let rows =
        price_rows(&vec![sample(1000, 1.5), zero, missing, untimed, platform, platform_value], 0.0);
    assert_eq!(rows.len(), 3);
    assert_eq!((rows[0].created, rows[0].price_usd), (1, 1.5));
    assert_eq!((rows[1].created, rows[1].price_usd), (5, 2.0));
    assert_eq!((rows[1].price_platform, rows[1].price_btc), (Some(0.0), 0.0));
    assert_eq!((rows[2].created, rows[2].price_platform), (6, Some(0.25)));
}

#[test]
fn refresh_books_success_and_failure() {
    let mut assets = vec![
        Asset { id: "bitcoin".to_string(), last_updated: 100, priority_score: -3 },
        Asset { id: "ethereum".to_string(), last_updated: 200, priority_score: 0 },
    ];
    // the stalest asset is booked, whichever the caller has in mind
    let fetched = Some(vec![sample(150000, 9.0)]);
    match refresh_prices(&mut assets, 300, 7, &fetched, 0.0) {
        Turn::Stored { index, rows } => {
            assert_eq!(index, 0);
            assert_eq!(rows.len(), 1);
        }
        _ => panic!("a refresh was due"),
    }
    assert_eq!((assets[0].last_updated, assets[0].priority_score), (300, 0));
    assert_eq!((assets[1].last_updated, assets[1].priority_score), (200, 0));

    let failed: Option<Vec<Sample<f64>>> = None;
    assert!(matches!(
        refresh_prices(&mut assets, 400, 7, &failed, 0.0),
        Turn::Failed { index: 1, reason: RefreshError::FetchFailed }
    ));
    assert_eq!((assets[1].last_updated, assets[1].priority_score), (200, -1));

    let empty: Option<Vec<Sample<f64>>> = Some(Vec::new());
    assert!(matches!(
        refresh_prices(&mut assets, 400, 7, &empty, 0.0),
        Turn::Failed { index: 1, reason: RefreshError::EmptyWindow }
    ));
    assert_eq!((assets[1].last_updated, assets[1].priority_score), (200, -2));
    assert_eq!((assets[0].last_updated, assets[0].priority_score), (300, 0));

    // samples that all lack a price still count as a refresh
    let mut zero = sample(1000, 1.0);
    zero.price_usd = Reading::Zero;
    match refresh_prices(&mut assets, 500, 7, &Some(vec![zero]), 0.0) {
        Turn::Stored { index, rows } => {
            assert_eq!(index, 1);
            assert!(rows.is_empty());
        }
        _ => panic!("a refresh was due"),
    }
    assert_eq!((assets[1].last_updated, assets[1].priority_score), (500, 0));
}

#[test]
fn nothing_is_booked_before_the_interval_is_over() {
    let mut assets = vec![
        Asset { id: "a".to_string(), last_updated: 100, priority_score: 0 },
        Asset { id: "b".to_string(), last_updated: 200, priority_score: 0 },
    ];
    let fetched = Some(vec![sample(150000, 9.0)]);
    assert!(matches!(refresh_prices(&mut assets, 203, 7, &fetched, 0.0), Turn::Wait { secs: 4 }));
    assert!(matches!(refresh_prices(&mut assets, 206, 7, &None, 0.0), Turn::Wait { secs: 1 }));
    assert_eq!((assets[0].last_updated, assets[0].priority_score), (100, 0));
    assert_eq!((assets[1].last_updated, assets[1].priority_score), (200, 0));
    assert!(matches!(refresh_prices(&mut assets, 207, 7, &fetched, 0.0), Turn::Stored { index: 0, .. }));
    assert_eq!(assets[0].last_updated, 207);
    let mut none: Vec<Asset> = Vec::new();
    assert!(matches!(refresh_prices(&mut none, 207, 7, &fetched, 0.0), Turn::Idle));
}

#[test]
fn ticker_entry_becomes_a_coin() {
    let coin = Coin::from_json(&ticker("bitcoin", 1), 0.0).unwrap();
    assert_eq!(coin.id, "bitcoin");
    assert_eq!(coin.name, "BITCOIN");
    assert_eq!(coin.symbol, "bit");
    assert_eq!((coin.rank, coin.no, coin.last_updated), (1, 1001, 1500000000));
    assert_eq!((coin.price_usd, coin.volume_usd, coin.market_cap_usd), (10.0, 2.0, 3.0));
    assert_eq!((coin.price_cny, coin.volume_cny, coin.market_cap_cny), (65.0, 2.0, 3.0));
    assert_eq!(
        (coin.percent_change_1h, coin.percent_change_24h, coin.percent_change_7d),
        (4.0, 5.0, 6.0)
    );
    assert_eq!((coin.available_supply, coin.total_supply, coin.max_supply), (7.0, 8.0, 0.0));
    assert_eq!(coin.price_btc, 0.0);
}

#[test]
fn ticker_entry_without_identity_is_skipped() {
    let mut unnamed = ticker("ripple", 3);
    unnamed.name = None;
    let mut unranked = ticker("litecoin", 4);
    unranked.rank = None;
    let mut bare = ticker("dogecoin", 5);
    bare.id = None;
    bare.last_updated = None;
    bare.usd.price = None;
    let coins = catalog(&vec![ticker("bitcoin", 1), unnamed, unranked, bare], -1.0);
    assert_eq!(coins.len(), 2);
    assert_eq!(coins[0].id, "bitcoin");
    assert_eq!(coins[1].id, "dogecoin");
    assert_eq!((coins[1].no, coins[1].last_updated, coins[1].price_usd), (0, 0, -1.0));
    assert_eq!(coins[1].max_supply, -1.0);
}

#[test]
fn snapshot_is_replaced_as_a_whole() {
    let mut state = State::init(&Some(vec![ticker("bitcoin", 1)]), Some(6.5), 0.0);
    assert_eq!(state.usd2cny_rate, 6.5);
    assert_eq!(state.coins.len(), 1);
    assert!(state.find(&"bitcoin".to_string()).is_some());
    assert!(state.find(&"ethereum".to_string()).is_none());

    refresh_coins(&mut state, &vec![ticker("ethereum", 2), ticker("ripple", 3)], 0.0);
    assert_eq!(state.coins.len(), 2);
    assert_eq!(state.find(&"ripple".to_string()).unwrap().rank, 3);
    assert!(state.find(&"bitcoin".to_string()).is_none());
    assert_eq!(state.usd2cny_rate, 6.5);

    assert_eq!(refresh_rates(&mut state, Some(7.0)), Ok(()));
    assert_eq!(state.usd2cny_rate, 7.0);
    assert_eq!(refresh_rates(&mut state, None), Err(RefreshError::FetchFailed));
    assert_eq!(state.usd2cny_rate, 7.0);
    assert_eq!(state.coins.len(), 2);

    let cold: State<f64> = State::init(&None, None, 0.0);
    assert_eq!(cold.usd2cny_rate, 0.0);
    assert!(cold.coins.is_empty());
}

#[test]
fn find_returns_the_first_coin_of_an_id() {
    let mut second = ticker("bitcoin", 9);
    second.name = Some("Second".to_string());
    let state = State::init(&Some(vec![ticker("bitcoin", 1), second]), None, 0.0);
    assert_eq!(state.find(&"bitcoin".to_string()).unwrap().rank, 1);
}

#[test]
fn feed_addresses() {
    assert_eq!(MIN_INTERVAL, 7);
    assert_eq!(PAGE_LIMIT, 100);
    assert_eq!(
        ticker_url(101, 100),
        "https://api.coinmarketcap.com/v2/ticker/?convert=CNY&start=101&limit=100&sort=id&structure=array"
    );
    assert_eq!(
        history_url("bitcoin", 1500000000, 1500000007),
        "https://graphs2.coinmarketcap.com/currencies/bitcoin/1500000000000/1500000007000/"
    );
    assert_eq!(
        history_url("x", -1, i64::MAX),
        "https://graphs2.coinmarketcap.com/currencies/x/-1000/9223372036854775807000/"
    );
}
