use fund_backtest::account::{Account, TradeDetail, TradeItem};
use fund_backtest::date::{prev_month, Date};
use fund_backtest::fund_account::FundAccount;
use fund_backtest::fund_market::{
    filter_fund_history, json_array_span, parse_date, parse_dividend, parse_price, FundData,
};
use fund_backtest::market::InfoMixer;
use fund_backtest::strategy::run_fund_aip_strategy;

fn d(y: u16, m: u8, dy: u8) -> Date {
    Date::new(y, m, dy)
}

fn tick(y: u16, m: u8, dy: u8, nav: u32) -> FundData {
    FundData::new(d(y, m, dy), nav, nav + 10000, None)
}

// ---------------------------------------------------------------------
// Chronological merge
// ---------------------------------------------------------------------

#[test]
fn test_unbalanced_two_funds_iter() {
    // instrument A has five ticks, instrument B three, with
    // interleaved, unbalanced dates; the merged stream visits all
    // eight in strict ascending date order
    let a = vec![
        tick(2021, 10, 1, 10000),
        tick(2021, 10, 4, 10100),
        tick(2021, 10, 5, 10200),
        tick(2021, 10, 12, 10300),
        tick(2021, 10, 25, 10400),
    ];
    let b = vec![tick(2021, 10, 2, 20000), tick(2021, 10, 6, 20100), tick(2021, 10, 7, 20200)];
    let mut mixer = InfoMixer::<FundData>::from_series(vec![13606, 481010], vec![a, b]);
    let mut seen: Vec<(u32, FundData)> = Vec::new();
    while let Some(pair) = mixer.next() {
        seen.push(pair);
    }
    assert_eq!(seen.len(), 8);
    for w in seen.windows(2) {
        assert!(w[0].1.date.key() < w[1].1.date.key());
    }
    let expect_codes = [13606, 481010, 13606, 13606, 481010, 481010, 13606, 13606];
    for (i, (code, _)) in seen.iter().enumerate() {
        assert_eq!(*code, expect_codes[i]);
    }
}

fn week_of_ticks(start_day: u8, nav0: u32) -> Vec<FundData> {
    // five trading days in the first week of September 2021
    (0..5).map(|i| tick(2021, 9, start_day + i, nav0 + i as u32 * 10)).collect()
}

#[test]
fn test_new_two_funds() {
    let codes = vec![2190, 481010];
    let mixer = InfoMixer::<FundData>::from_series(
        codes.clone(),
        vec![week_of_ticks(1, 10000), week_of_ticks(1, 20000)],
    );
    assert_eq!(mixer.code, codes);
    assert_eq!(mixer.info.len(), 2);
    assert_eq!(mixer.info[0].len(), 5);
    assert_eq!(mixer.info[1].len(), 5);
}

#[test]
fn test_two_funds_iter() {
    let codes = vec![2190, 481010];
    let mut mixer = InfoMixer::<FundData>::from_series(
        codes,
        vec![week_of_ticks(1, 10000), week_of_ticks(1, 20000)],
    );
    let mut count = 0;
    let mut last_key = 0;
    while let Some((_, info)) = mixer.next() {
        count += 1;
        assert!(info.date.key() >= last_key);
        last_key = info.date.key();
    }
    assert_eq!(count, 10);
}

#[test]
fn test_call_iter() {
    let mut mixer = InfoMixer::<FundData>::from_series(
        vec![13606, 481010],
        vec![week_of_ticks(4, 10100), week_of_ticks(6, 20200)],
    );
    let first = mixer.next();
    assert!(first.is_some());
    assert_eq!(first.unwrap().0, 13606);
}

#[test]
fn test_merge_tie_breaks_by_input_index() {
    // same date in both series: the series given first wins
    let a = vec![tick(2021, 9, 1, 11000)];
    let b = vec![tick(2021, 9, 1, 22000)];
    let mut mixer = InfoMixer::<FundData>::from_series(vec![7, 5], vec![a, b]);
    let first = mixer.next().unwrap();
    let second = mixer.next().unwrap();
    assert_eq!(first.0, 7);
    assert_eq!(first.1.unit_nav, 11000);
    assert_eq!(second.0, 5);
    assert_eq!(second.1.unit_nav, 22000);
    assert_eq!(mixer.next(), None);
}

#[test]
fn test_merge_sorts_unsorted_series() {
    // an upstream series out of order is sorted before merging
    let a = vec![tick(2021, 9, 3, 10300), tick(2021, 9, 1, 10100), tick(2021, 9, 2, 10200)];
    let mut mixer = InfoMixer::<FundData>::from_series(vec![1], vec![a]);
    let navs: [u32; 3] = [10100, 10200, 10300];
    for nav in navs {
        assert_eq!(mixer.next().unwrap().1.unit_nav, nav);
    }
    assert_eq!(mixer.next(), None);
}

#[test]
fn test_merge_preserves_each_series_order() {
    let a = vec![tick(2021, 9, 1, 1), tick(2021, 9, 1, 2), tick(2021, 9, 1, 3)];
    let b = vec![tick(2021, 9, 1, 9)];
    let mut mixer = InfoMixer::<FundData>::from_series(vec![100, 200], vec![a, b]);
    let mut a_navs: Vec<u32> = Vec::new();
    let mut total = 0;
    while let Some((code, t)) = mixer.next() {
        total += 1;
        if code == 100 {
            a_navs.push(t.unit_nav);
        }
    }
    assert_eq!(total, 4);
    assert_eq!(a_navs, vec![1, 2, 3]);
}

// ---------------------------------------------------------------------
// Wire-field parsing and history filtering
// ---------------------------------------------------------------------

#[test]
fn test_parse_price_scales_by_ten_thousand() {
    assert_eq!(parse_price(b"1.4640"), Some(14640));
    assert_eq!(parse_price(b"1.2880"), Some(12880));
    assert_eq!(parse_price(b"2"), Some(20000));
    assert_eq!(parse_price(b"0.0001"), Some(1));
    assert_eq!(parse_price(b"3."), Some(30000));
}

#[test]
fn test_parse_price_truncates_past_fourth_decimal() {
    assert_eq!(parse_price(b"1.23456789"), Some(12345));
    assert_eq!(parse_price(b"0.99999"), Some(9999));
}

#[test]
fn test_parse_price_rejects_bad_text() {
    assert_eq!(parse_price(b""), None);
    assert_eq!(parse_price(b"."), None);
    assert_eq!(parse_price(b".5"), None);
    assert_eq!(parse_price(b"1.2.3"), None);
    assert_eq!(parse_price(b"12a"), None);
    assert_eq!(parse_price(b"-1"), None);
    assert_eq!(parse_price(b"999999999"), None);
}

#[test]
fn test_parse_dividend_empty_means_none() {
    assert_eq!(parse_dividend(b""), Some(None));
    assert_eq!(parse_dividend(b"0.0300"), Some(Some(300)));
    assert_eq!(parse_dividend(b"x"), None);
}

#[test]
fn test_parse_date_reads_dashed_dates() {
    assert_eq!(parse_date(b"2021-09-15"), Some(d(2021, 9, 15)));
    assert_eq!(parse_date(b"1999-12-31"), Some(d(1999, 12, 31)));
    assert_eq!(parse_date(b"2021-13-01"), None);
    assert_eq!(parse_date(b"2021-00-10"), None);
    assert_eq!(parse_date(b"2021/09/15"), None);
    assert_eq!(parse_date(b"21-09-15"), None);
}

#[test]
fn test_parse_date_rejects_days_past_month_end() {
    assert_eq!(parse_date(b"2021-02-30"), None);
    assert_eq!(parse_date(b"2021-02-29"), None);
    assert_eq!(parse_date(b"2020-02-29"), Some(d(2020, 2, 29)));
    assert_eq!(parse_date(b"2021-04-31"), None);
    assert_eq!(parse_date(b"2021-04-30"), Some(d(2021, 4, 30)));
    assert_eq!(parse_date(b"1900-02-29"), None);
    assert_eq!(parse_date(b"2000-02-29"), Some(d(2000, 2, 29)));
}

#[test]
fn test_deserialize_fund_data() {
    // the fields of one upstream record, decoded to scaled integers
    let date = parse_date(b"2021-09-15").unwrap();
    let unit_nav = parse_price(b"1.4640").unwrap();
    let accumulate_nav = parse_price(b"5.0330").unwrap();
    let dividend = parse_dividend(b"0.03").unwrap();
    let decoded = FundData::new(date, unit_nav, accumulate_nav, dividend);
    assert_eq!(decoded, FundData::new(d(2021, 9, 15), 14640, 50330, Some(300)));
}

#[test]
fn test_json_array_span_finds_payload() {
    assert_eq!(json_array_span(b"cb([1,2])"), Some((3, 7)));
    assert_eq!(json_array_span(b"no array"), None);
    assert_eq!(json_array_span(b"]["), None);
}

#[test]
fn test_filter_fund_history_range_and_order() {
    // newest first on the wire; the filter keeps the range and flips to
    // oldest first
    let wire = vec![
        tick(2021, 9, 5, 10500),
        tick(2021, 9, 4, 10400),
        tick(2021, 9, 3, 10300),
        tick(2021, 9, 2, 10200),
        tick(2021, 9, 1, 10100),
    ];
    let kept = filter_fund_history(&wire, d(2021, 9, 2), d(2021, 9, 4));
    assert_eq!(kept.len(), 3);
    assert_eq!(kept[0].unit_nav, 10200);
    assert_eq!(kept[1].unit_nav, 10300);
    assert_eq!(kept[2].unit_nav, 10400);
}

// ---------------------------------------------------------------------
// Strategy driver
// ---------------------------------------------------------------------

#[test]
fn calc_prev_month() {
    let prev = prev_month(1);
    assert_eq!(prev, 12);
}

#[test]
fn test_aip_buys_once_per_month() {
    // two months of ticks for one fund; the plan buys on the first
    // tick of each month and marks to market on the rest
    let series = vec![vec![
        tick(2021, 1, 1, 10000),
        tick(2021, 1, 15, 12000),
        tick(2021, 2, 1, 20000),
        tick(2021, 2, 20, 10000),
    ]];
    let result = run_fund_aip_strategy(d(2021, 1, 1), 1, &vec![21], &vec![1000000], series);
    // January: 100.0 buys 100.00 shares at 1.0; February: 100.0 buys
    // 50.00 shares at 2.0; final mark at 1.0 leaves 150.00 shares
    assert_eq!(result.get_object_volume(21), Some(15000));
    assert_eq!(result.balance_price, -200000000);
    assert_eq!(result.account_value, 150000000);
    assert_eq!(result.trade_history.len(), 2);
    assert_eq!(
        result.trade_history[0].trade_detail,
        TradeDetail::Buy(TradeItem { deal_price: 10000, deal_volume: 10000 })
    );
    assert_eq!(
        result.trade_history[1].trade_detail,
        TradeDetail::Buy(TradeItem { deal_price: 20000, deal_volume: 5000 })
    );
}

#[test]
fn test_aip_two_funds_share_the_stream() {
    let a = vec![tick(2021, 1, 2, 10000), tick(2021, 1, 20, 10000)];
    let b = vec![tick(2021, 1, 3, 20000), tick(2021, 1, 21, 20000)];
    let result =
        run_fund_aip_strategy(d(2021, 1, 1), 1, &vec![1, 2], &vec![1000000, 2000000], vec![a, b]);
    assert_eq!(result.get_object_volume(1), Some(10000));
    assert_eq!(result.get_object_volume(2), Some(10000));
    assert_eq!(result.balance_price, -300000000);
    assert_eq!(result.account_value, 300000000);
}

#[test]
fn test_aip_skips_days_before_trigger() {
    // trigger day 10: the January 5 tick only marks to market
    let series = vec![vec![tick(2021, 1, 5, 10000), tick(2021, 1, 12, 10000)]];
    let result = run_fund_aip_strategy(d(2021, 1, 1), 10, &vec![9], &vec![1000000], series);
    assert_eq!(result.trade_history.len(), 1);
    assert_eq!(result.trade_history[0].trade_time, d(2021, 1, 12));
}

// ---------------------------------------------------------------------
// Portfolio edges
// ---------------------------------------------------------------------

#[test]
fn test_buy_then_mark_at_same_value_is_stable() {
    let mut account = Account::<FundAccount>::new();
    let fund_data = FundData::new(d(2021, 9, 30), 20000, 30000, None);
    account.buy_with_cost(1, &fund_data, 1000000);
    let before = account.get_position(1).unwrap();
    account.update_account(1, fund_data);
    let after = account.get_position(1).unwrap();
    assert_eq!(before.shares, after.shares);
    assert_eq!(before.total_value, after.total_value);
}

#[test]
fn test_sell_to_zero_removes_position() {
    let mut account = Account::<FundAccount>::new();
    let fund_data = FundData::new(d(2021, 9, 30), 20000, 30000, None);
    account.buy_with_cost(1, &fund_data, 1000000);
    account.sell_with_volume(1, &fund_data, 99999);
    assert!(account.get_position(1).is_none());
    assert_eq!(account.balance_price, 0);
}
