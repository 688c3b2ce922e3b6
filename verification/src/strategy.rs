//! The periodic-investment strategy: walk the merged tick stream and
//! spend each fund's fixed budget once per month.
//!
//! The driver consumes already-fetched series; retrieval is the
//! caller's concern. Every decision it takes is fixed by `aip_drive`,
//! a fold of single-event steps over the merged stream.

use vstd::prelude::*;

use crate::account::{
    acct_buy_cost, acct_update, assoc_idx, lemma_assoc_idx_from, lemma_assoc_idx_props,
    sum_total_value, Account, AccountModel, TradeHistory,
};
use crate::date::{prev_month, prev_month_spec, Date};
use crate::fund_account::FundAccount;
use crate::fund_market::FundData;
use crate::market::{
    lemma_sort_spec_multiset, lemma_total_len_nonneg, merged, sort_spec, total_len, InfoMixer,
    QuantitativeMarket,
};

verus! {

/// Budget per instrument, keyed by code, in input order.
pub open spec fn budget_pairs(fund: Seq<u32>, budget: Seq<u64>) -> Seq<(u32, u64)> {
    Seq::new(fund.len(), |i: int| (fund[i], budget[i]))
}

/// The month-per-code memory the strategy starts from: for every fund,
/// the month of the yearly cycle before the backtest's start.
pub open spec fn init_months(fund: Seq<u32>, start: Date) -> Seq<(u32, u8)> {
    Seq::new(fund.len(), |i: int| (fund[i], prev_month_spec(start.month)))
}

/// One decision on one merged event: buy the fund's budget when the
/// tick's day has reached the trigger day and the fund was not yet
/// bought in that month of the yearly cycle; otherwise mark to market.
pub open spec fn aip_step(
    st: (AccountModel, Seq<(u32, u8)>),
    ev: (u32, FundData),
    day: u8,
    budgets: Seq<(u32, u64)>,
) -> (AccountModel, Seq<(u32, u8)>) {
    let code = ev.0;
    let tick = ev.1;
    let mi = assoc_idx(st.1, code);
    let bi = assoc_idx(budgets, code);
    if mi < st.1.len() && bi < budgets.len() && tick.date.day >= day && tick.date.month
        != st.1[mi].1 {
        (
            acct_buy_cost::<FundAccount>(st.0, code, tick, budgets[bi].1),
            st.1.update(mi, (code, tick.date.month)),
        )
    } else {
        (acct_update::<FundAccount>(st.0, code, tick), st.1)
    }
}

/// The strategy folded over a whole event stream.
pub open spec fn aip_drive(
    st: (AccountModel, Seq<(u32, u8)>),
    stream: Seq<(u32, FundData)>,
    day: u8,
    budgets: Seq<(u32, u64)>,
) -> (AccountModel, Seq<(u32, u8)>)
    decreases stream.len(),
{
    if stream.len() == 0 {
        st
    } else {
        aip_drive(aip_step(st, stream.first(), day, budgets), stream.drop_first(), day, budgets)
    }
}

/// Each instrument's fetched series, defensively sorted by date.
pub open spec fn sorted_views(series: Seq<Vec<FundData>>) -> Seq<Seq<FundData>> {
    series.map_values(|v: Vec<FundData>| sort_spec(v@))
}

/// The account a backtest ends at: the strategy folded over the merged
/// stream of the (sorted) series, and the aggregate account value
/// settled as the sum of the held positions' book values.
pub open spec fn aip_result(
    start: Date,
    day: u8,
    fund: Seq<u32>,
    budget: Seq<u64>,
    series: Seq<Vec<FundData>>,
) -> AccountModel {
    let st = aip_drive(
        (AccountModel::init(), init_months(fund, start)),
        merged(fund, sorted_views(series)),
        day,
        budget_pairs(fund, budget),
    );
    AccountModel { account_value: sum_total_value(st.0.holds), ..st.0 }
}

/// A trade history in nondecreasing date order.
pub open spec fn history_sorted(h: Seq<TradeHistory>) -> bool {
    forall|a: int, b: int|
        0 <= a < b < h.len() ==> (#[trigger] h[a]).trade_time.key_spec() <= (
        #[trigger] h[b]).trade_time.key_spec()
}

/// Trades enter the history in stream order: driving the strategy over
/// a chronological event stream keeps the history chronological.
pub proof fn lemma_aip_history_chronological(
    st: (AccountModel, Seq<(u32, u8)>),
    stream: Seq<(u32, FundData)>,
    day: u8,
    budgets: Seq<(u32, u64)>,
)
    requires
        forall|a: int, b: int|
            0 <= a < b < stream.len() ==> (#[trigger] stream[a]).1.date.key_spec() <= (
            #[trigger] stream[b]).1.date.key_spec(),
        history_sorted(st.0.history),
        st.0.history.len() > 0 && stream.len() > 0 ==> st.0.history.last().trade_time.key_spec()
            <= stream[0].1.date.key_spec(),
    ensures
        history_sorted(aip_drive(st, stream, day, budgets).0.history),
    decreases stream.len(),
{
    if stream.len() > 0 {
        let ev = stream.first();
        let st2 = aip_step(st, ev, day, budgets);
        let h0 = st.0.history;
        let h2 = st2.0.history;
        assert(h2 == h0 || h2 == h0.push(
            TradeHistory {
                trade_time: ev.1.date,
                trade_obj: ev.0,
                trade_detail: crate::fund_account::fund_buy_cost(
                    base_position_of(st.0, ev.0),
                    ev.1,
                    budget_of(budgets, ev.0),
                ).1,
            },
        ));
        assert(history_sorted(h2)) by {
            if h2 != h0 {
                assert(forall|a: int| 0 <= a < h0.len() ==> (#[trigger] h2[a]) == h0[a]);
            }
        }
        let tail = stream.drop_first();
        assert(forall|a: int, b: int|
            0 <= a < b < tail.len() ==> (#[trigger] tail[a]).1.date.key_spec() <= (
            #[trigger] tail[b]).1.date.key_spec()) by {
            assert(forall|a: int| 0 <= a < tail.len() ==> (#[trigger] tail[a]) == stream[a + 1]);
        }
        if h2.len() > 0 && tail.len() > 0 {
            assert(tail[0] == stream[1]);
            assert(ev.1.date.key_spec() <= stream[1].1.date.key_spec());
            if h2 != h0 {
                assert(h2.last().trade_time == ev.1.date);
            }
        }
        lemma_aip_history_chronological(st2, tail, day, budgets);
    }
}

/// The position the step's buy starts from.
spec fn base_position_of(m: AccountModel, code: u32) -> crate::account::PositionModel {
    crate::account::base_position(m, code)
}

/// The budget the step's buy spends.
spec fn budget_of(budgets: Seq<(u32, u64)>, code: u32) -> u64 {
    budgets[assoc_idx(budgets, code)].1
}

/// A whole backtest writes a chronological trade history: the merged
/// stream is in date order (each series is sorted on construction),
/// and the strategy appends trades in stream order.
pub proof fn lemma_aip_result_history_chronological(
    start: Date,
    day: u8,
    fund: Seq<u32>,
    budget: Seq<u64>,
    series: Seq<Vec<FundData>>,
)
    requires
        crate::market::distinct_codes(fund),
        fund.len() == series.len(),
    ensures
        history_sorted(aip_result(start, day, fund, budget, series).history),
{
    let s = sorted_views(series);
    assert forall|i: int| 0 <= i < s.len() implies crate::market::sorted_by_key(
        #[trigger] s[i],
    ) by {
        crate::market::lemma_sort_spec_sorted(series[i]@);
    }
    crate::market::lemma_merged_chronological(fund, s);
    let stream = merged(fund, s);
    assert forall|a: int, b: int|
        0 <= a < b < stream.len() implies (#[trigger] stream[a]).1.date.key_spec() <= (
    #[trigger] stream[b]).1.date.key_spec() by {
        assert(crate::market::tick_key(stream[a].1) <= crate::market::tick_key(stream[b].1));
    }
    let st0 = (AccountModel::init(), init_months(fund, start));
    lemma_aip_history_chronological(st0, stream, day, budget_pairs(fund, budget));
}

/// Index of the first entry bearing `code`, or the length if none
/// does.
fn assoc_find<A>(v: &Vec<(u32, A)>, code: u32) -> (r: usize)
    ensures
        r == assoc_idx(v@, code),
{
    let n = v.len();
    let mut i: usize = 0;
    while i < n && v[i].0 != code
        invariant
            n == v@.len(),
            i <= n,
            forall|k: int| 0 <= k < i ==> (#[trigger] v@[k]).0 != code,
        decreases n - i,
    {
        i = i + 1;
    }
    proof {
        lemma_assoc_idx_from(v@, code, 0, i as int);
    }
    i
}

/// Backtest the periodic investment plan: from `start`, on the first
/// tick of each month whose day has reached `day`, spend `budget[i]`
/// (scaled by 10_000) on `fund[i]`; on every other tick mark to
/// market. After the run, settle the aggregate account value.
pub fn run_fund_aip_strategy(
    start: Date,
    day: u8,
    fund: &Vec<u32>,
    budget: &Vec<u64>,
    series: Vec<Vec<FundData>>,
) -> (r: Account<FundAccount>)
    requires
        fund@.len() == budget@.len(),
        fund@.len() == series@.len(),
        start.is_valid(),
        forall|i: int, j: int|
            0 <= i < series@.len() && 0 <= j < (#[trigger] series@[i])@.len() ==> (#[trigger] series@[i]@[j]).well_formed(),
    ensures
        r.wf(),
        r.model() == aip_result(start, day, fund@, budget@, series@),
{
    broadcast use vstd::seq_lib::group_to_multiset_ensures;

    let ghost ser0 = series@;
    let ghost fundseq = fund@;
    let ghost bp = budget_pairs(fund@, budget@);
    let ghost target = aip_drive(
        (AccountModel::init(), init_months(fund@, start)),
        merged(fund@, sorted_views(series@)),
        day,
        bp,
    );

    let n = fund.len();
    let pm = prev_month(start.month);
    let mut months: Vec<(u32, u8)> = Vec::new();
    let mut budgets: Vec<(u32, u64)> = Vec::new();
    let mut i: usize = 0;
    while i < n
        invariant
            n == fund@.len(),
            n == budget@.len(),
            i <= n,
            pm == prev_month_spec(start.month),
            months@.len() == i,
            budgets@.len() == i,
            forall|k: int| 0 <= k < i ==> months@[k] == (fund@[k], prev_month_spec(start.month)),
            forall|k: int| 0 <= k < i ==> budgets@[k] == (fund@[k], budget@[k]),
        decreases n - i,
    {
        months.push((fund[i], pm));
        budgets.push((fund[i], budget[i]));
        i = i + 1;
    }
    proof {
        assert(months@ =~= init_months(fundseq, start));
        assert(budgets@ =~= bp);
    }

    let codes = fund.clone();
    proof {
        assert(codes@ =~= fund@);
    }
    let mut mixer = InfoMixer::<FundData>::from_series(codes, series);
    proof {
        assert(mixer.views() =~= sorted_views(ser0));
        assert forall|a: int, b: int|
            0 <= a < mixer.views().len() && 0 <= b < (#[trigger] mixer.views()[a]).len() implies (
        #[trigger] mixer.views()[a][b]).usable() by {
            lemma_sort_spec_multiset(ser0[a]@);
            let x = mixer.views()[a][b];
            assert(sort_spec(ser0[a]@)[b] == x);
            assert(sort_spec(ser0[a]@).contains(x));
            assert(sort_spec(ser0[a]@).to_multiset().count(x) > 0);
            assert(ser0[a]@.to_multiset().count(x) > 0);
            assert(ser0[a]@.contains(x));
            let w = choose|w: int| 0 <= w < ser0[a]@.len() && ser0[a]@[w] == x;
            assert(ser0[a]@[w].well_formed());
        }
    }

    let mut acct = Account::<FundAccount>::new();
    loop
        invariant
            acct.wf(),
            mixer.wf(),
            fundseq == fund@,
            fundseq.len() == budget@.len(),
            bp == budget_pairs(fundseq, budget@),
            mixer.code@ == fundseq,
            fundseq.len() == months@.len(),
            forall|k: int| 0 <= k < months@.len() ==> (#[trigger] months@[k]).0 == fundseq[k],
            budgets@ == bp,
            forall|a: int, b: int|
                0 <= a < mixer.views().len() && 0 <= b < (#[trigger] mixer.views()[a]).len() ==> (
                #[trigger] mixer.views()[a][b]).usable(),
            aip_drive((acct.model(), months@), mixer.remaining(), day, budgets@) == target,
        ensures
            acct.wf(),
            (acct.model(), months@) == target,
        decreases total_len(mixer.views()),
    {
        proof {
            lemma_total_len_nonneg(mixer.views());
        }
        let ghost views0 = mixer.views();
        let ghost rem0 = mixer.remaining();
        let ghost months0 = months@;
        let ghost m0 = acct.model();
        let step = mixer.next();
        match step {
            None => {
                break;
            },
            Some((code, tick)) => {
                let ghost j = crate::market::pick(views0);
                proof {
                    assert(views0.len() == fundseq.len());
                    assert(0 <= j < views0.len());
                    assert(bp.len() == fundseq.len());
                    assert(bp[j] == (fundseq[j], budget@[j]));
                    assert(tick == views0[j].first());
                    assert(tick.usable());
                    assert(months0[j].0 == fundseq[j]);
                    lemma_assoc_idx_props(months0, code, 0);
                    lemma_assoc_idx_props(bp, code, 0);
                    assert(bp[j].0 == fundseq[j]);
                }
                let mi = assoc_find(&months, code);
                let bi = assoc_find(&budgets, code);
                let ghost ev = (code, tick);
                if tick.date.day >= day && tick.date.month != months[mi].1 {
                    acct.buy_with_cost(code, &tick, budgets[bi].1);
                    months.set(mi, (code, tick.date.month));
                } else {
                    acct.update_account(code, tick);
                }
                proof {
                    assert(aip_step((m0, months0), ev, day, bp) == (acct.model(), months@));
                    assert(rem0.first() == ev);
                    assert(rem0.drop_first() == mixer.remaining());
                    assert(aip_drive((m0, months0), rem0, day, bp) == aip_drive(
                        (acct.model(), months@),
                        mixer.remaining(),
                        day,
                        bp,
                    ));
                    lemma_total_len_nonneg(mixer.views());
                    assert forall|a: int, b: int|
                        0 <= a < mixer.views().len() && 0 <= b < (
                        #[trigger] mixer.views()[a]).len() implies (
                    #[trigger] mixer.views()[a][b]).usable() by {
                        if a == j {
                            assert(mixer.views()[a][b] == views0[a][b + 1]);
                        } else {
                            assert(mixer.views()[a][b] == views0[a][b]);
                        }
                    }
                }
            },
        }
    }
    acct.recompute_account_value();
    acct
}

} // verus!
