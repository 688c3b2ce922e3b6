//! The fund-style ledger: deterministic fixed-point transitions for one
//! fund's position.
//!
//! Dividend reinvestment runs at the start of every operation whose tick
//! carries a dividend, before the tick's net value is written: the cash
//! is credited at the 1_000_000 scale and converted to shares at the
//! tick's (new) net value with truncating division, so the fractional
//! remainder is deliberately lost.

use vstd::prelude::*;

use crate::account::{
    sat_u128, sat_u64, PositionModel, TradeDetail, TradeItem, UpdateAccountItem,
};
use crate::fund_market::FundData;
use crate::market::QuantitativeMarket;

verus! {

/// Per-fund position. Per-share values are scaled by 10_000, shares by
/// 100, cash bonus and book value by 1_000_000.
#[derive(Clone, Copy, PartialEq, Eq, Structural, Debug)]
pub struct FundAccount {
    /// Per-share net value, scaled by 10_000.
    pub net_value: u32,
    /// Per-share accumulated value, scaled by 10_000.
    pub accumulate_value: u32,
    /// Held shares, scaled by 100.
    pub shares: u64,
    /// Reinvested dividend cash, scaled by 1_000_000.
    pub cash_bonus: u128,
    /// Book value, scaled by 1_000_000.
    pub total_value: u128,
}

/// Reinvest the tick's dividend, if it carries one: credit
/// `dividend * shares` to the cash bonus and add
/// `dividend * shares / unit_nav` shares, truncating.
pub open spec fn dividend_step(pre: PositionModel, data: FundData) -> PositionModel {
    match data.dividend {
        None => pre,
        Some(d) => PositionModel {
            cash_bonus: sat_u128(pre.cash_bonus + d * pre.shares),
            shares: sat_u64(pre.shares + (d * pre.shares) / (data.unit_nav as int)),
            ..pre
        },
    }
}

/// Mark to market: reinvest, then take the tick's valuation and
/// recompute the book value.
pub open spec fn fund_update(pre: PositionModel, data: FundData) -> PositionModel {
    let p = dividend_step(pre, data);
    PositionModel {
        net_value: data.unit_nav as int,
        accumulate_value: data.accumulate_nav as int,
        shares: p.shares,
        cash_bonus: p.cash_bonus,
        total_value: (data.unit_nav as int) * p.shares,
    }
}

/// Buy by share volume: reinvest, add the volume, revalue.
pub open spec fn fund_buy_volume(pre: PositionModel, data: FundData, volume: u64) -> (
    PositionModel,
    TradeDetail,
) {
    let p = dividend_step(pre, data);
    let shares2 = sat_u64(p.shares + volume);
    (
        PositionModel {
            net_value: data.unit_nav as int,
            accumulate_value: data.accumulate_nav as int,
            shares: shares2,
            cash_bonus: p.cash_bonus,
            total_value: (data.unit_nav as int) * shares2,
        },
        TradeDetail::Buy(TradeItem { deal_price: data.unit_nav, deal_volume: volume }),
    )
}

/// Buy by cost: reinvest, convert the cost to shares at the tick's net
/// value with truncating division, revalue.
pub open spec fn fund_buy_cost(pre: PositionModel, data: FundData, cost: u64) -> (
    PositionModel,
    TradeDetail,
) {
    let p = dividend_step(pre, data);
    let inc = (cost * 100) / (data.unit_nav as int);
    let shares2 = sat_u64(p.shares + inc);
    (
        PositionModel {
            net_value: data.unit_nav as int,
            accumulate_value: data.accumulate_nav as int,
            shares: shares2,
            cash_bonus: p.cash_bonus,
            total_value: (data.unit_nav as int) * shares2,
        },
        TradeDetail::Buy(
            TradeItem { deal_price: data.unit_nav, deal_volume: sat_u64(inc) as u64 },
        ),
    )
}

/// Sell by share volume: reinvest, clamp the volume to what is held (no
/// short selling), revalue.
pub open spec fn fund_sell_volume(pre: PositionModel, data: FundData, volume: u64) -> (
    PositionModel,
    TradeDetail,
) {
    let p = dividend_step(pre, data);
    let dec = if (volume as int) < p.shares {
        volume as int
    } else {
        p.shares
    };
    (
        PositionModel {
            net_value: data.unit_nav as int,
            accumulate_value: data.accumulate_nav as int,
            shares: p.shares - dec,
            cash_bonus: p.cash_bonus,
            total_value: (data.unit_nav as int) * (p.shares - dec),
        },
        TradeDetail::Sell(TradeItem { deal_price: data.unit_nav, deal_volume: dec as u64 }),
    )
}

/// Sell a proportion of the held shares (scaled by 10_000): reinvest
/// and revalue; a proportion within [0, 1] sells
/// `shares * proportion / 10_000` shares (truncating), one beyond 1
/// changes no holding and reports a zero-valued sale.
pub open spec fn fund_sell_proportion(pre: PositionModel, data: FundData, proportion: u32) -> (
    PositionModel,
    TradeDetail,
) {
    let p = dividend_step(pre, data);
    if proportion <= 10000 {
        let sold = (p.shares * proportion) / 10000;
        (
            PositionModel {
                net_value: data.unit_nav as int,
                accumulate_value: data.accumulate_nav as int,
                shares: p.shares - sold,
                cash_bonus: p.cash_bonus,
                total_value: (data.unit_nav as int) * (p.shares - sold),
            },
            TradeDetail::Sell(TradeItem { deal_price: data.unit_nav, deal_volume: sold as u64 }),
        )
    } else {
        (
            PositionModel {
                net_value: data.unit_nav as int,
                accumulate_value: data.accumulate_nav as int,
                shares: p.shares,
                cash_bonus: p.cash_bonus,
                total_value: (data.unit_nav as int) * p.shares,
            },
            TradeDetail::Sell(TradeItem { deal_price: 0, deal_volume: 0 }),
        )
    }
}

/// After any ledger operation the position's book value is exactly its
/// net value times its shares: every transition recomputes the product,
/// with no rounding anywhere.
pub proof fn lemma_operations_keep_consistency(
    pre: PositionModel,
    data: FundData,
    volume: u64,
    cost: u64,
    proportion: u32,
)
    ensures
        fund_update(pre, data).consistent(),
        fund_buy_volume(pre, data, volume).0.consistent(),
        fund_buy_cost(pre, data, cost).0.consistent(),
        fund_sell_volume(pre, data, volume).0.consistent(),
        fund_sell_proportion(pre, data, proportion).0.consistent(),
{
}

/// Selling never goes short: whatever volume is asked, the shares that
/// remain are nonnegative, and asking for at least the held amount
/// leaves exactly zero.
pub proof fn lemma_sell_clamps_at_zero(pre: PositionModel, data: FundData, volume: u64)
    requires
        pre.shares >= 0,
        data.unit_nav >= 1,
    ensures
        fund_sell_volume(pre, data, volume).0.shares >= 0,
        volume >= dividend_step(pre, data).shares ==> fund_sell_volume(pre, data, volume).0.shares
            == 0,
{
    let p = dividend_step(pre, data);
    assert(p.shares >= 0) by {
        if data.dividend is Some {
            let d = data.dividend->0;
            vstd::arithmetic::mul::lemma_mul_nonnegative(d as int, pre.shares);
            vstd::arithmetic::div_mod::lemma_div_is_ordered(
                0,
                d * pre.shares,
                data.unit_nav as int,
            );
        }
    }
}

/// A sell proportion outside [0, 1] mutates nothing beyond the mark to
/// market that every operation performs, and reports a zero-valued
/// sale.
pub proof fn lemma_sell_proportion_rejected(pre: PositionModel, data: FundData, proportion: u32)
    requires
        proportion > 10000,
    ensures
        fund_sell_proportion(pre, data, proportion).0 == fund_update(pre, data),
        fund_sell_proportion(pre, data, proportion).1 == TradeDetail::Sell(
            TradeItem { deal_price: 0, deal_volume: 0 },
        ),
{
}

/// Buying with some cost at a net value and then marking to market at
/// the same tick changes neither the shares nor the book value, as long
/// as the tick carries no dividend (a dividend would be reinvested a
/// second time).
pub proof fn lemma_buy_then_mark_stable(pre: PositionModel, data: FundData, cost: u64)
    requires
        data.dividend is None,
    ensures
        fund_update(fund_buy_cost(pre, data, cost).0, data).shares == fund_buy_cost(
            pre,
            data,
            cost,
        ).0.shares,
        fund_update(fund_buy_cost(pre, data, cost).0, data).total_value == fund_buy_cost(
            pre,
            data,
            cost,
        ).0.total_value,
{
}

impl Default for FundAccount {
    /// The zero position a first touch creates.
    fn default() -> (r: FundAccount)
        ensures
            r.pos() == PositionModel::init(),
    {
        FundAccount { net_value: 0, accumulate_value: 0, shares: 0, cash_bonus: 0, total_value: 0 }
    }
}

impl FundAccount {
    /// Reinvest the tick's dividend into the position, if it carries
    /// one.
    fn check_dividend(&mut self, data: &FundData)
        requires
            data.unit_nav >= 1,
        ensures
            final(self).pos() == dividend_step(old(self).pos(), *data),
    {
        match data.dividend {
            Some(d) => {
                proof {
                    vstd::arithmetic::mul::lemma_mul_upper_bound(
                        d as int,
                        u32::MAX as int,
                        self.shares as int,
                        u64::MAX as int,
                    );
                }
                let add: u128 = (d as u128) * (self.shares as u128);
                let extra: u128 = add / (data.unit_nav as u128);
                proof {
                    vstd::arithmetic::div_mod::lemma_div_is_ordered_by_denominator(
                        add as int,
                        1,
                        data.unit_nav as int,
                    );
                }
                self.cash_bonus = crate::account::sat_add_u128(self.cash_bonus, add);
                let sum: u128 = (self.shares as u128) + extra;
                self.shares = if sum > (u64::MAX as u128) {
                    u64::MAX
                } else {
                    sum as u64
                };
            },
            None => {},
        }
    }
}

impl UpdateAccountItem for FundAccount {
    type MarketData = FundData;

    open spec fn pos(&self) -> PositionModel {
        PositionModel {
            net_value: self.net_value as int,
            accumulate_value: self.accumulate_value as int,
            shares: self.shares as int,
            cash_bonus: self.cash_bonus as int,
            total_value: self.total_value as int,
        }
    }

    open spec fn spec_update(pre: PositionModel, data: FundData) -> PositionModel {
        fund_update(pre, data)
    }

    open spec fn spec_buy_volume(pre: PositionModel, data: FundData, volume: u64) -> (
        PositionModel,
        TradeDetail,
    ) {
        fund_buy_volume(pre, data, volume)
    }

    open spec fn spec_buy_cost(pre: PositionModel, data: FundData, cost: u64) -> (
        PositionModel,
        TradeDetail,
    ) {
        fund_buy_cost(pre, data, cost)
    }

    open spec fn spec_sell_volume(pre: PositionModel, data: FundData, volume: u64) -> (
        PositionModel,
        TradeDetail,
    ) {
        fund_sell_volume(pre, data, volume)
    }

    open spec fn spec_sell_proportion(pre: PositionModel, data: FundData, proportion: u32) -> (
        PositionModel,
        TradeDetail,
    ) {
        fund_sell_proportion(pre, data, proportion)
    }

    fn new_empty() -> (r: FundAccount) {
        FundAccount { net_value: 0, accumulate_value: 0, shares: 0, cash_bonus: 0, total_value: 0 }
    }

    fn update_account(&mut self, data: &FundData) {
        self.check_dividend(data);
        self.net_value = data.unit_nav;
        self.accumulate_value = data.accumulate_nav;
        proof {
            vstd::arithmetic::mul::lemma_mul_upper_bound(
                self.net_value as int,
                u32::MAX as int,
                self.shares as int,
                u64::MAX as int,
            );
        }
        self.total_value = (self.net_value as u128) * (self.shares as u128);
    }

    fn get_current_value(&self) -> u32 {
        self.net_value
    }

    fn get_current_volume(&self) -> u64 {
        self.shares
    }

    fn get_current_asset(&self) -> u128 {
        self.total_value
    }

    fn buy_with_volume(&mut self, data: &FundData, volume: u64) -> TradeDetail {
        self.check_dividend(data);
        let sum: u128 = (self.shares as u128) + (volume as u128);
        self.shares = if sum > (u64::MAX as u128) {
            u64::MAX
        } else {
            sum as u64
        };
        self.net_value = data.unit_nav;
        self.accumulate_value = data.accumulate_nav;
        proof {
            vstd::arithmetic::mul::lemma_mul_upper_bound(
                self.net_value as int,
                u32::MAX as int,
                self.shares as int,
                u64::MAX as int,
            );
        }
        self.total_value = (self.net_value as u128) * (self.shares as u128);
        TradeDetail::Buy(TradeItem { deal_price: self.net_value, deal_volume: volume })
    }

    fn buy_with_cost(&mut self, data: &FundData, cost: u64) -> TradeDetail {
        self.check_dividend(data);
        let inc: u128 = ((cost as u128) * 100) / (data.unit_nav as u128);
        let sum: u128 = (self.shares as u128) + inc;
        self.shares = if sum > (u64::MAX as u128) {
            u64::MAX
        } else {
            sum as u64
        };
        self.net_value = data.unit_nav;
        self.accumulate_value = data.accumulate_nav;
        proof {
            vstd::arithmetic::mul::lemma_mul_upper_bound(
                self.net_value as int,
                u32::MAX as int,
                self.shares as int,
                u64::MAX as int,
            );
        }
        self.total_value = (self.net_value as u128) * (self.shares as u128);
        let vol: u64 = if inc > (u64::MAX as u128) {
            u64::MAX
        } else {
            inc as u64
        };
        TradeDetail::Buy(TradeItem { deal_price: self.net_value, deal_volume: vol })
    }

    fn sell_with_volume(&mut self, data: &FundData, volume: u64) -> TradeDetail {
        self.check_dividend(data);
        let dec: u64 = if volume < self.shares {
            volume
        } else {
            self.shares
        };
        self.shares = self.shares - dec;
        self.net_value = data.unit_nav;
        self.accumulate_value = data.accumulate_nav;
        proof {
            vstd::arithmetic::mul::lemma_mul_upper_bound(
                self.net_value as int,
                u32::MAX as int,
                self.shares as int,
                u64::MAX as int,
            );
        }
        self.total_value = (self.net_value as u128) * (self.shares as u128);
        TradeDetail::Sell(TradeItem { deal_price: self.net_value, deal_volume: dec })
    }

    fn sell_with_proportion(&mut self, data: &FundData, proportion: u32) -> TradeDetail {
        self.check_dividend(data);
        self.net_value = data.unit_nav;
        self.accumulate_value = data.accumulate_nav;
        if proportion <= 10000 {
            proof {
                vstd::arithmetic::mul::lemma_mul_upper_bound(
                    self.shares as int,
                    u64::MAX as int,
                    proportion as int,
                    10000,
                );
                vstd::arithmetic::mul::lemma_mul_inequality(
                    proportion as int,
                    10000,
                    self.shares as int,
                );
                vstd::arithmetic::div_mod::lemma_div_is_ordered(
                    (self.shares as int) * (proportion as int),
                    (self.shares as int) * 10000,
                    10000,
                );
                vstd::arithmetic::div_mod::lemma_div_multiples_vanish(self.shares as int, 10000);
                vstd::arithmetic::div_mod::lemma_div_is_ordered(
                    0,
                    (self.shares as int) * (proportion as int),
                    10000,
                );
            }
            let sold128: u128 = ((self.shares as u128) * (proportion as u128)) / 10000;
            let sold: u64 = sold128 as u64;
            self.shares = self.shares - sold;
            proof {
                vstd::arithmetic::mul::lemma_mul_upper_bound(
                    self.net_value as int,
                    u32::MAX as int,
                    self.shares as int,
                    u64::MAX as int,
                );
            }
            self.total_value = (self.net_value as u128) * (self.shares as u128);
            TradeDetail::Sell(TradeItem { deal_price: self.net_value, deal_volume: sold })
        } else {
            proof {
                vstd::arithmetic::mul::lemma_mul_upper_bound(
                    self.net_value as int,
                    u32::MAX as int,
                    self.shares as int,
                    u64::MAX as int,
                );
            }
            self.total_value = (self.net_value as u128) * (self.shares as u128);
            TradeDetail::Sell(TradeItem { deal_price: 0, deal_volume: 0 })
        }
    }
}

} // verus!
