//! The portfolio: per-instrument ledgers behind a capability trait,
//! a chronological trade history, and the cash balance.
//!
//! All arithmetic is fixed point: per-share values are scaled by 10_000,
//! share counts by 100, aggregate values and cash flows by 1_000_000.
//! Sums that would leave their machine type saturate at its bounds; the
//! contracts state this exactly through the `sat_*` functions, and every
//! realistic run stays far below the bounds, where the contracts promise
//! the exact sum.

use vstd::prelude::*;

use crate::date::Date;
use crate::market::QuantitativeMarket;

verus! {

/// `x` clipped from above to the largest 64-bit unsigned value.
pub open spec fn sat_u64(x: int) -> int {
    if x > u64::MAX {
        u64::MAX as int
    } else {
        x
    }
}

/// `x` clipped from above to the largest 128-bit unsigned value.
pub open spec fn sat_u128(x: int) -> int {
    if x > u128::MAX {
        u128::MAX as int
    } else {
        x
    }
}

/// `x` clipped to the 128-bit signed range.
pub open spec fn sat_i128(x: int) -> int {
    if x > i128::MAX {
        i128::MAX as int
    } else if x < i128::MIN {
        i128::MIN as int
    } else {
        x
    }
}

/// The fixed-point state of one position, over unbounded integers.
/// Executable ledgers refine this through their `pos` view.
pub struct PositionModel {
    /// Per-share net value, scaled by 10_000.
    pub net_value: int,
    /// Per-share accumulated value, scaled by 10_000.
    pub accumulate_value: int,
    /// Held shares, scaled by 100.
    pub shares: int,
    /// Reinvested dividend cash, scaled by 1_000_000.
    pub cash_bonus: int,
    /// Book value of the position, scaled by 1_000_000.
    pub total_value: int,
}

impl PositionModel {
    /// The zero-initialized position a first touch creates.
    pub open spec fn init() -> PositionModel {
        PositionModel { net_value: 0, accumulate_value: 0, shares: 0, cash_bonus: 0, total_value: 0 }
    }

    /// The book value is exactly price times shares; every operation
    /// reestablishes this.
    pub open spec fn consistent(self) -> bool {
        self.total_value == self.net_value * self.shares
    }
}

/// One executed trade: price at the per-share scale, volume at the
/// share scale.
#[derive(Clone, Copy, PartialEq, Eq, Structural, Debug)]
pub struct TradeItem {
    pub deal_price: u32,
    pub deal_volume: u64,
}

/// A trade, tagged by direction.
#[derive(Clone, Copy, PartialEq, Eq, Structural, Debug)]
pub enum TradeDetail {
    Buy(TradeItem),
    Sell(TradeItem),
}

impl TradeDetail {
    /// Signed cash flow of the trade, scaled by 1_000_000: buying costs
    /// money, selling earns it.
    pub open spec fn flow_spec(self) -> int {
        match self {
            TradeDetail::Buy(t) => -(t.deal_price * t.deal_volume),
            TradeDetail::Sell(t) => t.deal_price * t.deal_volume,
        }
    }

    /// The trade's signed cash flow.
    pub fn calc_cost_or_earning(&self) -> (f: i128)
        ensures
            f == self.flow_spec(),
    {
        let t = match self {
            TradeDetail::Buy(t) => t,
            TradeDetail::Sell(t) => t,
        };
        proof {
            vstd::arithmetic::mul::lemma_mul_upper_bound(
                t.deal_price as int,
                u32::MAX as int,
                t.deal_volume as int,
                u64::MAX as int,
            );
        }
        let p = (t.deal_price as i128) * (t.deal_volume as i128);
        match self {
            TradeDetail::Buy(_) => -p,
            TradeDetail::Sell(_) => p,
        }
    }
}

/// One entry of the trade history.
#[derive(Clone, Copy, PartialEq, Eq, Structural, Debug)]
pub struct TradeHistory {
    /// Date of the tick the trade executed on.
    pub trade_time: Date,
    /// Instrument code.
    pub trade_obj: u32,
    pub trade_detail: TradeDetail,
}

/// The capability every instrument ledger offers: deterministic
/// fixed-point transitions of one position, driven by market data.
/// Each implementor fixes the transition functions as specification
/// functions and proves its executable operations against them.
pub trait UpdateAccountItem: Sized + Copy {
    type MarketData: QuantitativeMarket;

    /// The position this ledger carries, as unbounded integers.
    spec fn pos(&self) -> PositionModel;

    /// State after a mark to market.
    spec fn spec_update(pre: PositionModel, data: Self::MarketData) -> PositionModel;

    /// State and trade after buying a given share volume.
    spec fn spec_buy_volume(pre: PositionModel, data: Self::MarketData, volume: u64) -> (
        PositionModel,
        TradeDetail,
    );

    /// State and trade after spending a given cost.
    spec fn spec_buy_cost(pre: PositionModel, data: Self::MarketData, cost: u64) -> (
        PositionModel,
        TradeDetail,
    );

    /// State and trade after selling a given share volume.
    spec fn spec_sell_volume(pre: PositionModel, data: Self::MarketData, volume: u64) -> (
        PositionModel,
        TradeDetail,
    );

    /// State and trade after selling a held proportion (scaled by
    /// 10_000).
    spec fn spec_sell_proportion(pre: PositionModel, data: Self::MarketData, proportion: u32) -> (
        PositionModel,
        TradeDetail,
    );

    /// The zero position a first touch creates.
    fn new_empty() -> (r: Self)
        ensures
            r.pos() == PositionModel::init(),
    ;

    /// Mark the position to market: reinvest any dividend, then take the
    /// tick's values as the new valuation.
    fn update_account(&mut self, data: &Self::MarketData)
        requires
            data.usable(),
        ensures
            final(self).pos() == Self::spec_update(old(self).pos(), *data),
    ;

    /// Current per-share value, scaled by 10_000.
    fn get_current_value(&self) -> (r: u32)
        ensures
            r == self.pos().net_value,
    ;

    /// Current held shares, scaled by 100.
    fn get_current_volume(&self) -> (r: u64)
        ensures
            r == self.pos().shares,
    ;

    /// Current book value, scaled by 1_000_000.
    fn get_current_asset(&self) -> (r: u128)
        ensures
            r == self.pos().total_value,
    ;

    /// Buy a share volume (scaled by 100) at the tick's price.
    fn buy_with_volume(&mut self, data: &Self::MarketData, volume: u64) -> (d: TradeDetail)
        requires
            data.usable(),
        ensures
            (final(self).pos(), d) == Self::spec_buy_volume(old(self).pos(), *data, volume),
    ;

    /// Spend a cost (scaled by 10_000) on shares at the tick's price.
    fn buy_with_cost(&mut self, data: &Self::MarketData, cost: u64) -> (d: TradeDetail)
        requires
            data.usable(),
        ensures
            (final(self).pos(), d) == Self::spec_buy_cost(old(self).pos(), *data, cost),
    ;

    /// Sell a share volume (scaled by 100), clamped to what is held.
    fn sell_with_volume(&mut self, data: &Self::MarketData, volume: u64) -> (d: TradeDetail)
        requires
            data.usable(),
        ensures
            (final(self).pos(), d) == Self::spec_sell_volume(old(self).pos(), *data, volume),
    ;

    /// Sell a proportion of the held shares (scaled by 10_000); a
    /// proportion beyond one leaves the holding untouched and reports a
    /// zero-valued sale.
    fn sell_with_proportion(&mut self, data: &Self::MarketData, proportion: u32) -> (d: TradeDetail)
        requires
            data.usable(),
        ensures
            (final(self).pos(), d) == Self::spec_sell_proportion(old(self).pos(), *data, proportion),
    ;
}

/// Index of the first entry with the given code at or after `i`, or the
/// length if there is none.
pub open spec fn assoc_idx_from<A>(s: Seq<(u32, A)>, code: u32, i: int) -> int
    decreases s.len() - i,
    when 0 <= i <= s.len()
{
    if i >= s.len() {
        s.len() as int
    } else if s[i].0 == code {
        i
    } else {
        assoc_idx_from(s, code, i + 1)
    }
}

/// Index of the first entry with the given code, or the length.
pub open spec fn assoc_idx<A>(s: Seq<(u32, A)>, code: u32) -> int {
    assoc_idx_from(s, code, 0)
}

pub proof fn lemma_assoc_idx_from<A>(s: Seq<(u32, A)>, code: u32, i: int, p: int)
    requires
        0 <= i <= p <= s.len(),
        forall|k: int| i <= k < p ==> s[k].0 != code,
        p == s.len() || s[p].0 == code,
    ensures
        assoc_idx_from(s, code, i) == p,
    decreases p - i,
{
    if i < p {
        lemma_assoc_idx_from(s, code, i + 1, p);
    }
}

/// What `assoc_idx` returns: the first index bearing the code, or the
/// length when no entry bears it.
pub proof fn lemma_assoc_idx_props<A>(s: Seq<(u32, A)>, code: u32, i: int)
    requires
        0 <= i <= s.len(),
    ensures
        i <= assoc_idx_from(s, code, i) <= s.len(),
        assoc_idx_from(s, code, i) < s.len() ==> s[assoc_idx_from(s, code, i)].0 == code,
        forall|k: int| i <= k < assoc_idx_from(s, code, i) ==> (#[trigger] s[k]).0 != code,
        assoc_idx_from(s, code, i) == s.len() ==> forall|k: int| i <= k < s.len() ==> (
        #[trigger] s[k]).0 != code,
    decreases s.len() - i,
{
    if i < s.len() && s[i].0 != code {
        lemma_assoc_idx_props(s, code, i + 1);
    }
}

/// Two association lists with the same codes in the same places index
/// alike.
pub proof fn lemma_assoc_idx_same_codes<A, B>(s1: Seq<(u32, A)>, s2: Seq<(u32, B)>, code: u32, i: int)
    requires
        s1.len() == s2.len(),
        forall|j: int| 0 <= j < s1.len() ==> s1[j].0 == #[trigger] s2[j].0,
        0 <= i <= s1.len(),
    ensures
        assoc_idx_from(s1, code, i) == assoc_idx_from(s2, code, i),
    decreases s1.len() - i,
{
    if i < s1.len() && s1[i].0 != code {
        lemma_assoc_idx_same_codes(s1, s2, code, i + 1);
    }
}

/// The whole portfolio as unbounded integers: held positions in entry
/// order, the trade history, and the two aggregate figures.
pub struct AccountModel {
    pub holds: Seq<(u32, PositionModel)>,
    pub history: Seq<TradeHistory>,
    pub account_value: int,
    pub balance: int,
}

impl AccountModel {
    pub open spec fn init() -> AccountModel {
        AccountModel { holds: Seq::empty(), history: Seq::empty(), account_value: 0, balance: 0 }
    }

    /// The position held under `code`, if any.
    pub open spec fn position(self, code: u32) -> Option<PositionModel> {
        let i = assoc_idx(self.holds, code);
        if i < self.holds.len() {
            Some(self.holds[i].1)
        } else {
            None
        }
    }
}

/// Sum of the held positions' book values, saturating at the 128-bit
/// bound at every step.
pub open spec fn sum_total_value(s: Seq<(u32, PositionModel)>) -> int
    decreases s.len(),
{
    if s.len() == 0 {
        0
    } else {
        sat_u128(sum_total_value(s.drop_last()) + s.last().1.total_value)
    }
}

/// The position the operation starts from: the held one, or a fresh
/// zero position on first touch.
pub open spec fn base_position(m: AccountModel, code: u32) -> PositionModel {
    match m.position(code) {
        Some(p) => p,
        None => PositionModel::init(),
    }
}

/// `m.holds` with the entry for `code` set to `p`: overwritten in place
/// when held, appended on first touch.
pub open spec fn holds_with(m: AccountModel, code: u32, p: PositionModel) -> Seq<(u32, PositionModel)> {
    let i = assoc_idx(m.holds, code);
    if i < m.holds.len() {
        m.holds.update(i, (code, p))
    } else {
        m.holds.push((code, p))
    }
}

/// Mark one instrument to market, creating its position on first touch.
/// History, balance and account value stay as they are.
pub open spec fn acct_update<T: UpdateAccountItem>(
    m: AccountModel,
    code: u32,
    info: T::MarketData,
) -> AccountModel {
    let p2 = T::spec_update(base_position(m, code), info);
    AccountModel { holds: holds_with(m, code, p2), ..m }
}

/// Append the trade to the history and charge its cash flow to the
/// balance.
pub open spec fn with_trade(m: AccountModel, code: u32, date: Date, d: TradeDetail) -> AccountModel {
    AccountModel {
        history: m.history.push(TradeHistory { trade_time: date, trade_obj: code, trade_detail: d }),
        balance: sat_i128(m.balance + d.flow_spec()),
        ..m
    }
}

/// Buy by share volume: run the ledger transition, record the trade,
/// charge the balance.
pub open spec fn acct_buy_volume<T: UpdateAccountItem>(
    m: AccountModel,
    code: u32,
    info: T::MarketData,
    volume: u64,
) -> AccountModel {
    let r = T::spec_buy_volume(base_position(m, code), info, volume);
    let m2 = AccountModel { holds: holds_with(m, code, r.0), ..m };
    with_trade(m2, code, info.info_date(), r.1)
}

/// Buy by cost: run the ledger transition, record the trade, charge the
/// balance.
pub open spec fn acct_buy_cost<T: UpdateAccountItem>(
    m: AccountModel,
    code: u32,
    info: T::MarketData,
    cost: u64,
) -> AccountModel {
    let r = T::spec_buy_cost(base_position(m, code), info, cost);
    let m2 = AccountModel { holds: holds_with(m, code, r.0), ..m };
    with_trade(m2, code, info.info_date(), r.1)
}

/// Sell by share volume. Selling an instrument that is not held does
/// nothing at all; a position sold down to zero shares leaves the
/// holdings.
pub open spec fn acct_sell_volume<T: UpdateAccountItem>(
    m: AccountModel,
    code: u32,
    info: T::MarketData,
    volume: u64,
) -> AccountModel {
    let i = assoc_idx(m.holds, code);
    if i < m.holds.len() {
        let r = T::spec_sell_volume(m.holds[i].1, info, volume);
        let holds2 = if r.0.shares == 0 {
            m.holds.update(i, (code, r.0)).remove(i)
        } else {
            m.holds.update(i, (code, r.0))
        };
        with_trade(AccountModel { holds: holds2, ..m }, code, info.info_date(), r.1)
    } else {
        m
    }
}

/// Sell a proportion of the holding (scaled by 10_000). Selling an
/// instrument that is not held does nothing; a proportion of exactly
/// one removes the position from the holdings.
pub open spec fn acct_sell_proportion<T: UpdateAccountItem>(
    m: AccountModel,
    code: u32,
    info: T::MarketData,
    proportion: u32,
) -> AccountModel {
    let i = assoc_idx(m.holds, code);
    if i < m.holds.len() {
        let r = T::spec_sell_proportion(m.holds[i].1, info, proportion);
        let holds2 = if proportion == 10000 {
            m.holds.update(i, (code, r.0)).remove(i)
        } else {
            m.holds.update(i, (code, r.0))
        };
        with_trade(AccountModel { holds: holds2, ..m }, code, info.info_date(), r.1)
    } else {
        m
    }
}

/// A backtesting account: the held positions, the trade history in
/// execution order, and the aggregate figures.
pub struct Account<T: UpdateAccountItem> {
    pub hold_detail: Vec<(u32, T)>,
    /// Trades in execution order; chronological when driven by the
    /// time-ordered merge.
    pub trade_history: Vec<TradeHistory>,
    /// Sum of held positions' book values as of the last settlement,
    /// scaled by 1_000_000.
    pub account_value: u128,
    /// Signed cash balance, scaled by 1_000_000; starts at zero and
    /// takes every trade's flow.
    pub balance_price: i128,
}

impl<T: UpdateAccountItem> Account<T> {
    /// Abstraction to the model: positions through their `pos` views.
    pub open spec fn model(self) -> AccountModel {
        AccountModel {
            holds: self.hold_detail@.map_values(|e: (u32, T)| (e.0, e.1.pos())),
            history: self.trade_history@,
            account_value: self.account_value as int,
            balance: self.balance_price as int,
        }
    }

    /// Each instrument is held at most once.
    pub open spec fn wf(self) -> bool {
        forall|i: int, j: int|
            0 <= i < j < self.hold_detail@.len() ==> (#[trigger] self.hold_detail@[i]).0 != (
            #[trigger] self.hold_detail@[j]).0
    }

    /// A fresh account: nothing held, nothing traded, zero balance.
    pub fn new() -> (r: Account<T>)
        ensures
            r.model() == AccountModel::init(),
            r.wf(),
    {
        let r = Account {
            hold_detail: Vec::<(u32, T)>::new(),
            trade_history: Vec::<TradeHistory>::new(),
            account_value: 0u128,
            balance_price: 0i128,
        };
        proof {
            assert(r.model().holds =~= AccountModel::init().holds);
            assert(r.model().history =~= AccountModel::init().history);
        }
        r
    }

    /// Position of the entry holding `code`, or the length if none does.
    fn find_index(&self, code: u32) -> (r: usize)
        ensures
            r == assoc_idx(self.hold_detail@, code),
            r == assoc_idx(self.model().holds, code),
            r <= self.hold_detail@.len(),
            r < self.hold_detail@.len() ==> self.hold_detail@[r as int].0 == code,
            forall|k: int| 0 <= k < r ==> (#[trigger] self.hold_detail@[k]).0 != code,
    {
        let n = self.hold_detail.len();
        let mut i: usize = 0;
        while i < n && self.hold_detail[i].0 != code
            invariant
                n == self.hold_detail@.len(),
                i <= n,
                forall|k: int| 0 <= k < i ==> (#[trigger] self.hold_detail@[k]).0 != code,
            decreases n - i,
        {
            i = i + 1;
        }
        proof {
            lemma_assoc_idx_from(self.hold_detail@, code, 0, i as int);
            lemma_assoc_idx_same_codes(self.hold_detail@, self.model().holds, code, 0);
        }
        i
    }

    /// The ledger held for `code`, if any.
    pub fn get_position(&self, code: u32) -> (r: Option<T>)
        ensures
            match r {
                Some(item) => self.model().position(code) == Some(item.pos()),
                None => self.model().position(code) is None,
            },
    {
        let i = self.find_index(code);
        if i < self.hold_detail.len() {
            Some(self.hold_detail[i].1)
        } else {
            None
        }
    }

    /// Per-share value of the holding, if the instrument is held.
    pub fn get_object_price(&self, code: u32) -> (r: Option<u32>)
        ensures
            match r {
                Some(v) => self.model().position(code) matches Some(p) && p.net_value == v,
                None => self.model().position(code) is None,
            },
    {
        match self.get_position(code) {
            Some(item) => Some(item.get_current_value()),
            None => None,
        }
    }

    /// Held shares (scaled by 100), if the instrument is held.
    pub fn get_object_volume(&self, code: u32) -> (r: Option<u64>)
        ensures
            match r {
                Some(v) => self.model().position(code) matches Some(p) && p.shares == v,
                None => self.model().position(code) is None,
            },
    {
        match self.get_position(code) {
            Some(item) => Some(item.get_current_volume()),
            None => None,
        }
    }

    /// Book value of the holding (scaled by 1_000_000), if held.
    pub fn get_object_assets(&self, code: u32) -> (r: Option<u128>)
        ensures
            match r {
                Some(v) => self.model().position(code) matches Some(p) && p.total_value == v,
                None => self.model().position(code) is None,
            },
    {
        match self.get_position(code) {
            Some(item) => Some(item.get_current_asset()),
            None => None,
        }
    }

    /// Mark one instrument to market, creating its position on first
    /// touch.
    pub fn update_account(&mut self, code: u32, info: T::MarketData)
        requires
            old(self).wf(),
            info.usable(),
        ensures
            final(self).wf(),
            final(self).model() == acct_update::<T>(old(self).model(), code, info),
    {
        let ghost m0 = self.model();
        let i = self.find_index(code);
        if i < self.hold_detail.len() {
            let mut item = self.hold_detail[i].1;
            item.update_account(&info);
            self.hold_detail.set(i, (code, item));
            proof {
                assert(self.model().holds =~= acct_update::<T>(m0, code, info).holds);
            }
        } else {
            let mut item = T::new_empty();
            item.update_account(&info);
            self.hold_detail.push((code, item));
            proof {
                assert(self.model().holds =~= acct_update::<T>(m0, code, info).holds);
            }
        }
    }

    /// Buy a share volume of one instrument, creating its position on
    /// first touch: run the ledger, record the trade, charge the
    /// balance.
    pub fn buy_with_volume(&mut self, code: u32, info: &T::MarketData, volume: u64)
        requires
            old(self).wf(),
            info.usable(),
        ensures
            final(self).wf(),
            final(self).model() == acct_buy_volume::<T>(old(self).model(), code, *info, volume),
    {
        let ghost m0 = self.model();
        let i = self.find_index(code);
        let mut item: T;
        let held = i < self.hold_detail.len();
        if held {
            item = self.hold_detail[i].1;
        } else {
            item = T::new_empty();
        }
        let detail = item.buy_with_volume(info, volume);
        if held {
            self.hold_detail.set(i, (code, item));
        } else {
            self.hold_detail.push((code, item));
        }
        let flow = detail.calc_cost_or_earning();
        self.balance_price = sat_add_i128(self.balance_price, flow);
        self.trade_history.push(
            TradeHistory { trade_time: info.get_info_datetime(), trade_obj: code, trade_detail: detail },
        );
        proof {
            let target = acct_buy_volume::<T>(m0, code, *info, volume);
            assert(self.model().holds =~= target.holds);
            assert(self.model().history =~= target.history);
        }
    }

    /// Spend a cost (scaled by 10_000) on one instrument, creating its
    /// position on first touch: run the ledger, record the trade,
    /// charge the balance.
    pub fn buy_with_cost(&mut self, code: u32, info: &T::MarketData, cost: u64)
        requires
            old(self).wf(),
            info.usable(),
        ensures
            final(self).wf(),
            final(self).model() == acct_buy_cost::<T>(old(self).model(), code, *info, cost),
    {
        let ghost m0 = self.model();
        let i = self.find_index(code);
        let mut item: T;
        let held = i < self.hold_detail.len();
        if held {
            item = self.hold_detail[i].1;
        } else {
            item = T::new_empty();
        }
        let detail = item.buy_with_cost(info, cost);
        if held {
            self.hold_detail.set(i, (code, item));
        } else {
            self.hold_detail.push((code, item));
        }
        let flow = detail.calc_cost_or_earning();
        self.balance_price = sat_add_i128(self.balance_price, flow);
        self.trade_history.push(
            TradeHistory { trade_time: info.get_info_datetime(), trade_obj: code, trade_detail: detail },
        );
        proof {
            let target = acct_buy_cost::<T>(m0, code, *info, cost);
            assert(self.model().holds =~= target.holds);
            assert(self.model().history =~= target.history);
        }
    }

    /// Sell a share volume of one instrument. Selling an instrument
    /// that is not held does nothing; a position sold down to zero
    /// shares leaves the holdings.
    pub fn sell_with_volume(&mut self, code: u32, info: &T::MarketData, volume: u64)
        requires
            old(self).wf(),
            info.usable(),
        ensures
            final(self).wf(),
            final(self).model() == acct_sell_volume::<T>(old(self).model(), code, *info, volume),
    {
        let ghost m0 = self.model();
        let i = self.find_index(code);
        if i < self.hold_detail.len() {
            let mut item = self.hold_detail[i].1;
            let detail = item.sell_with_volume(info, volume);
            self.hold_detail.set(i, (code, item));
            let flow = detail.calc_cost_or_earning();
            self.balance_price = sat_add_i128(self.balance_price, flow);
            self.trade_history.push(
                TradeHistory {
                    trade_time: info.get_info_datetime(),
                    trade_obj: code,
                    trade_detail: detail,
                },
            );
            if item.get_current_volume() == 0 {
                self.hold_detail.remove(i);
            }
            proof {
                let target = acct_sell_volume::<T>(m0, code, *info, volume);
                assert(self.model().holds =~= target.holds);
                assert(self.model().history =~= target.history);
            }
        }
    }

    /// Sell a proportion (scaled by 10_000) of one instrument's
    /// holding. Selling an instrument that is not held does nothing; a
    /// proportion of exactly one removes the position.
    pub fn sell_with_proportion(&mut self, code: u32, info: &T::MarketData, proportion: u32)
        requires
            old(self).wf(),
            info.usable(),
        ensures
            final(self).wf(),
            final(self).model() == acct_sell_proportion::<T>(old(self).model(), code, *info, proportion),
    {
        let ghost m0 = self.model();
        let i = self.find_index(code);
        if i < self.hold_detail.len() {
            let mut item = self.hold_detail[i].1;
            let detail = item.sell_with_proportion(info, proportion);
            self.hold_detail.set(i, (code, item));
            let flow = detail.calc_cost_or_earning();
            self.balance_price = sat_add_i128(self.balance_price, flow);
            self.trade_history.push(
                TradeHistory {
                    trade_time: info.get_info_datetime(),
                    trade_obj: code,
                    trade_detail: detail,
                },
            );
            if proportion == 10000 {
                self.hold_detail.remove(i);
            }
            proof {
                let target = acct_sell_proportion::<T>(m0, code, *info, proportion);
                assert(self.model().holds =~= target.holds);
                assert(self.model().history =~= target.history);
            }
        }
    }

    /// Settle the aggregate account value: the sum of all held
    /// positions' book values, saturating at the 128-bit bound.
    pub fn recompute_account_value(&mut self)
        ensures
            final(self).hold_detail == old(self).hold_detail,
            final(self).trade_history == old(self).trade_history,
            final(self).model() == (AccountModel {
                account_value: sum_total_value(old(self).model().holds),
                ..old(self).model()
            }),
    {
        let n = self.hold_detail.len();
        let mut acc: u128 = 0;
        let mut i: usize = 0;
        while i < n
            invariant
                *self == *old(self),
                n == self.hold_detail@.len(),
                i <= n,
                acc == sum_total_value(self.model().holds.subrange(0, i as int)),
            decreases n - i,
        {
            let a = self.hold_detail[i].1.get_current_asset();
            proof {
                assert(self.model().holds.subrange(0, i + 1).drop_last() =~= self.model().holds.subrange(
                    0,
                    i as int,
                ));
                assert(self.model().holds.subrange(0, i + 1).last() == self.model().holds[i as int]);
            }
            acc = sat_add_u128(acc, a);
            i = i + 1;
        }
        proof {
            assert(self.model().holds.subrange(0, n as int) =~= self.model().holds);
        }
        self.account_value = acc;
    }
}

/// `a + b` clipped to the 128-bit signed range.
pub fn sat_add_i128(a: i128, b: i128) -> (r: i128)
    ensures
        r == sat_i128(a + b),
{
    if b >= 0 {
        if a > i128::MAX - b {
            i128::MAX
        } else {
            a + b
        }
    } else {
        if a < i128::MIN - b {
            i128::MIN
        } else {
            a + b
        }
    }
}

/// `a + b` clipped from above to the largest 128-bit unsigned value.
pub fn sat_add_u128(a: u128, b: u128) -> (r: u128)
    ensures
        r == sat_u128(a + b),
{
    if a > u128::MAX - b {
        u128::MAX
    } else {
        a + b
    }
}

} // verus!
