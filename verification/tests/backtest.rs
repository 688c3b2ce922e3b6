use fund_backtest::account::{Account, TradeDetail, TradeHistory, TradeItem, UpdateAccountItem};
use fund_backtest::date::Date;
use fund_backtest::fund_account::FundAccount;
use fund_backtest::fund_market::FundData;

fn d(y: u16, m: u8, dy: u8) -> Date {
    Date::new(y, m, dy)
}

// ---------------------------------------------------------------------
// FundAccount ledger
// ---------------------------------------------------------------------

#[test]
fn test_update_account_without_dividend_rise() {
    let mut account = FundAccount {
        net_value: 12880,
        accumulate_value: 22880,
        shares: 10000,
        cash_bonus: 0,
        total_value: 128800000,
    };
    let fund_data = FundData::new(d(2021, 9, 30), 20000, 30000, None);
    account.update_account(&fund_data);
    assert_eq!(account.total_value, 200000000);
}

#[test]
fn test_update_account_without_dividend_fall() {
    let mut account = FundAccount {
        net_value: 12880,
        accumulate_value: 22880,
        shares: 10000,
        cash_bonus: 0,
        total_value: 128800000,
    };
    let fund_data = FundData::new(d(2021, 9, 30), 10000, 30000, None);
    account.update_account(&fund_data);
    assert_eq!(account.total_value, 100000000);
}

#[test]
fn test_update_account_with_dividend() {
    let mut account = FundAccount {
        net_value: 12880,
        accumulate_value: 22880,
        shares: 10000,
        cash_bonus: 0,
        total_value: 128800000,
    };
    let fund_data = FundData::new(d(2021, 9, 30), 20000, 30000, Some(100));
    account.update_account(&fund_data);
    assert_eq!(account.total_value, 201000000);
}

#[test]
fn test_account_after_buy_volume() {
    let mut account = FundAccount {
        net_value: 12880,
        accumulate_value: 22880,
        shares: 10000,
        cash_bonus: 0,
        total_value: 128800000,
    };
    let expect = TradeDetail::Buy(TradeItem { deal_price: 20000, deal_volume: 10000 });
    let fund_data = FundData::new(d(2021, 9, 30), 20000, 30000, None);
    let detail = account.buy_with_volume(&fund_data, 10000);
    assert_eq!(account.shares, 20000);
    assert_eq!(account.total_value, 400000000);
    assert_eq!(detail, expect);
}

#[test]
fn test_account_after_buy_price() {
    let mut account = FundAccount {
        net_value: 12880,
        accumulate_value: 22880,
        shares: 10000,
        cash_bonus: 0,
        total_value: 128800000,
    };
    let expect = TradeDetail::Buy(TradeItem { deal_price: 20000, deal_volume: 10000 });
    let fund_data = FundData::new(d(2021, 9, 30), 20000, 30000, None);
    let detail = account.buy_with_cost(&fund_data, 2000000);
    assert_eq!(account.shares, 20000);
    assert_eq!(account.total_value, 400000000);
    assert_eq!(detail, expect);
}

#[test]
fn test_account_after_sell_volume() {
    let mut account = FundAccount {
        net_value: 12880,
        accumulate_value: 22880,
        shares: 10000,
        cash_bonus: 0,
        total_value: 128800000,
    };
    let expect = TradeDetail::Sell(TradeItem { deal_price: 20000, deal_volume: 5000 });
    let fund_data = FundData::new(d(2021, 9, 30), 20000, 30000, None);
    let detail = account.sell_with_volume(&fund_data, 5000);
    assert_eq!(account.shares, 5000);
    assert_eq!(account.total_value, 100000000);
    assert_eq!(detail, expect);
}

#[test]
fn test_account_after_sell_proportion() {
    let mut account = FundAccount {
        net_value: 12880,
        accumulate_value: 22880,
        shares: 10000,
        cash_bonus: 0,
        total_value: 128800000,
    };
    let expect = TradeDetail::Sell(TradeItem { deal_price: 20000, deal_volume: 5000 });
    let fund_data = FundData::new(d(2021, 9, 30), 20000, 30000, None);
    let detail = account.sell_with_proportion(&fund_data, 5000);
    assert_eq!(account.shares, 5000);
    assert_eq!(account.total_value, 100000000);
    assert_eq!(detail, expect);
}

#[test]
fn test_sell_proportion_out_of_range_is_rejected() {
    let mut account = FundAccount {
        net_value: 12880,
        accumulate_value: 22880,
        shares: 10000,
        cash_bonus: 0,
        total_value: 128800000,
    };
    let fund_data = FundData::new(d(2021, 9, 30), 20000, 30000, None);
    let detail = account.sell_with_proportion(&fund_data, 10001);
    assert_eq!(detail, TradeDetail::Sell(TradeItem { deal_price: 0, deal_volume: 0 }));
    assert_eq!(account.shares, 10000);
    assert_eq!(account.net_value, 20000);
    assert_eq!(account.total_value, 200000000);
}

#[test]
fn test_oversell_clamps_to_zero_shares() {
    let mut account = FundAccount {
        net_value: 20000,
        accumulate_value: 30000,
        shares: 5000,
        cash_bonus: 0,
        total_value: 100000000,
    };
    let fund_data = FundData::new(d(2021, 9, 30), 20000, 30000, None);
    let detail = account.sell_with_volume(&fund_data, 99999);
    assert_eq!(account.shares, 0);
    assert_eq!(account.total_value, 0);
    assert_eq!(detail, TradeDetail::Sell(TradeItem { deal_price: 20000, deal_volume: 5000 }));
}

#[test]
fn test_dividend_reinvestment_amounts() {
    // dividend 0.01 per share on 100 held shares: 1.0 of cash, and
    // 1.0 / 2.0 = 0.5 extra shares at the new net value
    let mut account = FundAccount {
        net_value: 12880,
        accumulate_value: 22880,
        shares: 10000,
        cash_bonus: 0,
        total_value: 128800000,
    };
    let fund_data = FundData::new(d(2021, 9, 30), 20000, 30000, Some(100));
    account.update_account(&fund_data);
    assert_eq!(account.cash_bonus, 1000000);
    assert_eq!(account.shares, 10050);
    assert_eq!(account.total_value, 201000000);
}

// ---------------------------------------------------------------------
// Account portfolio
// ---------------------------------------------------------------------

#[test]
fn test_get_ops_when_account_is_empty() {
    let account = Account::<FundAccount>::new();
    assert_eq!(None, account.get_object_volume(1));
    assert_eq!(None, account.get_object_price(1));
    assert_eq!(None, account.get_object_assets(1));
}

#[test]
fn test_buy_new_fund_with_price() {
    let mut account = Account::<FundAccount>::new();
    let fund_data = FundData::new(d(2021, 9, 30), 20000, 30000, None);
    let expect_hold_detail = FundAccount {
        net_value: fund_data.unit_nav,
        accumulate_value: fund_data.accumulate_nav,
        shares: 5000,
        cash_bonus: 0,
        total_value: 100000000,
    };
    let expect_trade_history = TradeHistory {
        trade_time: d(2021, 9, 30),
        trade_obj: 1,
        trade_detail: TradeDetail::Buy(TradeItem { deal_price: 20000, deal_volume: 5000 }),
    };

    account.buy_with_cost(1, &fund_data, 1000000);

    assert!(account.get_position(1).is_some());
    assert!(account.get_position(2).is_none());
    assert_eq!(expect_hold_detail, account.get_position(1).unwrap());
    assert_eq!(Some(&expect_trade_history), account.trade_history.last());
}

#[test]
fn test_buy_same_fund_twice() {
    let mut account = Account::<FundAccount>::new();
    let fund_data1 = FundData::new(d(2021, 9, 30), 20000, 30000, None);
    let fund_data2 = FundData::new(d(2021, 10, 1), 20000, 30000, None);
    let expect_hold_detail = FundAccount {
        net_value: fund_data2.unit_nav,
        accumulate_value: fund_data2.accumulate_nav,
        shares: 10000,
        cash_bonus: 0,
        total_value: 200000000,
    };
    let expect_trade_history = TradeHistory {
        trade_time: d(2021, 10, 1),
        trade_obj: 1,
        trade_detail: TradeDetail::Buy(TradeItem { deal_price: 20000, deal_volume: 5000 }),
    };

    account.buy_with_cost(1, &fund_data1, 1000000);
    account.buy_with_cost(1, &fund_data2, 1000000);

    assert!(account.get_position(1).is_some());
    assert!(account.get_position(2).is_none());
    assert_eq!(expect_hold_detail, account.get_position(1).unwrap());
    assert_eq!(Some(&expect_trade_history), account.trade_history.last());
}

#[test]
fn test_buy_two_different_funds() {
    let mut account = Account::<FundAccount>::new();
    let fund_data1 = FundData::new(d(2021, 9, 30), 20000, 30000, None);
    let fund_data2 = FundData::new(d(2021, 10, 1), 20000, 30000, None);
    let expect_hold_detail = FundAccount {
        net_value: fund_data2.unit_nav,
        accumulate_value: fund_data2.accumulate_nav,
        shares: 5000,
        cash_bonus: 0,
        total_value: 100000000,
    };
    let expect_trade_history = TradeHistory {
        trade_time: d(2021, 10, 1),
        trade_obj: 2,
        trade_detail: TradeDetail::Buy(TradeItem { deal_price: 20000, deal_volume: 5000 }),
    };

    account.buy_with_cost(1, &fund_data1, 1000000);
    account.buy_with_cost(2, &fund_data2, 1000000);

    assert!(account.get_position(1).is_some());
    assert!(account.get_position(2).is_some());
    assert_eq!(expect_hold_detail, account.get_position(2).unwrap());
    assert_eq!(Some(&expect_trade_history), account.trade_history.last());
}

#[test]
fn test_get_ops_with_valid_account() {
    let mut account = Account::<FundAccount>::new();
    let fund_data1 = FundData::new(d(2021, 9, 30), 20000, 30000, None);
    let fund_data2 = FundData::new(d(2021, 10, 1), 20000, 30000, None);

    account.buy_with_cost(1, &fund_data1, 1000000);
    account.buy_with_cost(2, &fund_data2, 1000000);

    assert_eq!(Some(5000), account.get_object_volume(1));
    assert_eq!(Some(20000), account.get_object_price(1));
    assert_eq!(Some(100000000), account.get_object_assets(1));
    assert_eq!(Some(5000), account.get_object_volume(2));
    assert_eq!(Some(20000), account.get_object_price(2));
    assert_eq!(Some(100000000), account.get_object_assets(2));
}

#[test]
fn test_sell_fund_didnot_possess() {
    let mut account = Account::<FundAccount>::new();
    let fund_data1 = FundData::new(d(2021, 9, 30), 20000, 30000, None);
    let fund_data2 = FundData::new(d(2021, 10, 1), 25000, 35000, None);
    let expect_hold_detail = FundAccount {
        net_value: fund_data1.unit_nav,
        accumulate_value: fund_data1.accumulate_nav,
        shares: 5000,
        cash_bonus: 0,
        total_value: 100000000,
    };
    let expect_trade_history = TradeHistory {
        trade_time: d(2021, 9, 30),
        trade_obj: 1,
        trade_detail: TradeDetail::Buy(TradeItem { deal_price: 20000, deal_volume: 5000 }),
    };

    account.buy_with_cost(1, &fund_data1, 1000000);

    account.sell_with_volume(2, &fund_data2, 5000);
    assert_eq!(expect_hold_detail, account.get_position(1).unwrap());
    assert_eq!(Some(&expect_trade_history), account.trade_history.last());
    assert_eq!(1, account.trade_history.len());
}

#[test]
fn test_sell_same_fund_50_shares() {
    let mut account = Account::<FundAccount>::new();
    let fund_data1 = FundData::new(d(2021, 9, 30), 20000, 30000, None);
    let fund_data2 = FundData::new(d(2021, 10, 1), 20000, 35000, None);
    let expect_hold_detail = FundAccount {
        net_value: fund_data2.unit_nav,
        accumulate_value: fund_data2.accumulate_nav,
        shares: 2500,
        cash_bonus: 0,
        total_value: 50000000,
    };
    let expect_trade_history = TradeHistory {
        trade_time: d(2021, 10, 1),
        trade_obj: 1,
        trade_detail: TradeDetail::Sell(TradeItem { deal_price: 20000, deal_volume: 2500 }),
    };

    account.buy_with_cost(1, &fund_data1, 1000000);

    account.sell_with_volume(1, &fund_data2, 2500);
    assert_eq!(expect_hold_detail, account.get_position(1).unwrap());
    assert_eq!(Some(&expect_trade_history), account.trade_history.last());
    assert_eq!(-50000000, account.balance_price);
}

#[test]
fn test_sell_fund_half() {
    let mut account = Account::<FundAccount>::new();
    let fund_data1 = FundData::new(d(2021, 9, 30), 20000, 30000, None);
    let fund_data2 = FundData::new(d(2021, 10, 1), 20000, 35000, None);
    let expect_hold_detail = FundAccount {
        net_value: fund_data2.unit_nav,
        accumulate_value: fund_data2.accumulate_nav,
        shares: 2500,
        cash_bonus: 0,
        total_value: 50000000,
    };
    let expect_trade_history = TradeHistory {
        trade_time: d(2021, 10, 1),
        trade_obj: 1,
        trade_detail: TradeDetail::Sell(TradeItem { deal_price: 20000, deal_volume: 2500 }),
    };

    account.buy_with_cost(1, &fund_data1, 1000000);

    account.sell_with_proportion(1, &fund_data2, 5000);
    assert_eq!(expect_hold_detail, account.get_position(1).unwrap());
    assert_eq!(Some(&expect_trade_history), account.trade_history.last());
    assert_eq!(-50000000, account.balance_price);
}

#[test]
fn test_sell_fund_all() {
    let mut account = Account::<FundAccount>::new();
    let fund_data1 = FundData::new(d(2021, 9, 30), 20000, 30000, None);
    let fund_data2 = FundData::new(d(2021, 10, 1), 20000, 35000, None);
    let expect_trade_history = TradeHistory {
        trade_time: d(2021, 10, 1),
        trade_obj: 1,
        trade_detail: TradeDetail::Sell(TradeItem { deal_price: 20000, deal_volume: 5000 }),
    };

    account.buy_with_cost(1, &fund_data1, 1000000);

    account.sell_with_proportion(1, &fund_data2, 10000);
    assert!(account.get_position(1).is_none());
    assert_eq!(Some(&expect_trade_history), account.trade_history.last());
    assert_eq!(0, account.balance_price);
}

#[test]
fn test_it() {
    assert_eq!(true, true);
}
