//! What is told of valuations: the latest of each account, the first that are
//! negative, and those of accounts taken together.

use crate::collect::{are_positions, lemma_grown_positions};
use crate::decimal::{decimal_read, Decimal};
use crate::text::joined;
use crate::time::{day_read, rfc3339_read, Timestamp};
use crate::valuations::{
    all_together_of, in_order, negative_balances_of, row_of, together_sql, DailyAccountValuation,
    DailyAccountValuationView, NegativeBalanceInfo, NegativeBalanceRow, TOGETHER_START, TogetherRow,
};
use vstd::prelude::*;

verus! {

/// A valuation is seen with everything that it says.
pub proof fn law_valuation_is_seen_whole(valuation: DailyAccountValuation)
    ensures
        valuation@.id == valuation.id@,
        valuation@.account_id == valuation.account_id@,
        valuation@.valuation_date == valuation.valuation_date,
        valuation@.account_currency == valuation.account_currency@,
        valuation@.base_currency == valuation.base_currency@,
        valuation@.fx_rate_to_base == valuation.fx_rate_to_base,
        valuation@.cash_balance == valuation.cash_balance,
        valuation@.investment_market_value == valuation.investment_market_value,
        valuation@.total_value == valuation.total_value,
        valuation@.cost_basis == valuation.cost_basis,
        valuation@.net_contribution == valuation.net_contribution,
        valuation@.calculated_at == valuation.calculated_at,
{
}

/// A first negative valuation is seen with everything that it says.
pub proof fn law_negative_balance_is_seen_whole(info: NegativeBalanceInfo)
    ensures
        info@.account_id == info.account_id@,
        info@.first_negative_date == info.first_negative_date,
        info@.cash_balance == info.cash_balance,
        info@.total_value == info.total_value,
        info@.account_currency == info.account_currency@,
{
}

/// Whether a row is the last of an account.
pub open spec fn is_last_row(
    rows: Seq<DailyAccountValuation>,
    r: int,
    account_id: Seq<char>,
) -> bool {
    &&& 0 <= r < rows.len()
    &&& rows[r].account_id@ == account_id
    &&& forall|q: int| r < q < rows.len() ==> (#[trigger] rows[q]).account_id@ != account_id
}

/// Whether what is told is the last row of an account.
pub open spec fn is_told_of(
    rows: Seq<DailyAccountValuation>,
    account_id: Seq<char>,
    told: DailyAccountValuationView,
) -> bool {
    exists|r: int| #[trigger] is_last_row(rows, r, account_id) && rows[r]@ == told
}

/// The row that is taken for an account is its last; none is taken only where it
/// has none.
pub proof fn law_last_row_is_taken(rows: Seq<DailyAccountValuation>, account_id: Seq<char>)
    ensures
        match row_of(rows, account_id) {
            Some(row) => exists|r: int| #[trigger] is_last_row(rows, r, account_id) && rows[r]
                == row,
            None => forall|r: int|
                0 <= r < rows.len() ==> (#[trigger] rows[r]).account_id@ != account_id,
        },
    decreases rows.len(),
{
    if rows.len() > 0 {
        let fewer = rows.drop_last();
        let last = rows.len() - 1;
        if rows[last].account_id@ == account_id {
            assert(is_last_row(rows, last, account_id));
        } else {
            law_last_row_is_taken(fewer, account_id);
            match row_of(fewer, account_id) {
                Some(row) => {
                    let r = choose|r: int| #[trigger]
                        is_last_row(fewer, r, account_id) && fewer[r] == row;
                    assert forall|q: int| r < q < rows.len()
                        implies (#[trigger] rows[q]).account_id@
                        != account_id by {
                        if q < last {
                            assert(fewer[q] == rows[q]);
                        }
                    }
                    assert(is_last_row(rows, r, account_id));
                },
                None => {
                    assert forall|q: int| 0 <= q < rows.len() implies (
                    #[trigger] rows[q]).account_id@ != account_id by {
                        if q < last {
                            assert(fewer[q] == rows[q]);
                        }
                    }
                },
            }
        }
    }
}

/// Whether an account is asked for that was not asked for before and has a row.
pub open spec fn is_answered(
    rows: Seq<DailyAccountValuation>,
    account_ids: Seq<Seq<char>>,
    i: int,
) -> bool {
    &&& forall|j: int| 0 <= j < i ==> #[trigger] account_ids[j] != account_ids[i]
    &&& exists|r: int|
        0 <= r < rows.len() && (#[trigger] rows[r]).account_id@ == account_ids[i]
}

/// The latest valuations are the last rows of the accounts, in the order in
/// which the accounts were first asked for, and of every account that has a row.
pub proof fn law_every_account_is_answered(
    rows: Seq<DailyAccountValuation>,
    account_ids: Seq<Seq<char>>,
) -> (places: Seq<int>)
    ensures
        are_positions(places, account_ids.len() as int),
        places.len() == in_order(rows, account_ids).len(),
        forall|k: int|
            0 <= k < places.len() ==> is_told_of(
                rows,
                account_ids[#[trigger] places[k]],
                in_order(rows, account_ids)[k],
            ),
        forall|i: int|
            0 <= i < account_ids.len() ==> (#[trigger] places.contains(i) <==> is_answered(
                rows,
                account_ids,
                i,
            )),
    decreases account_ids.len(),
{
    if account_ids.len() == 0 {
        Seq::empty()
    } else {
        let fewer = account_ids.drop_last();
        let last = account_ids.len() - 1;
        let before = law_every_account_is_answered(rows, fewer);
        let is_kept = row_of(rows, account_ids[last]) is Some && !fewer.contains(account_ids[last]);
        let places = if is_kept {
            before.push(last)
        } else {
            before
        };
        lemma_grown_positions(before, last, is_kept, places);
        law_last_row_is_taken(rows, account_ids[last]);
        let now = in_order(rows, account_ids);
        assert forall|k: int| 0 <= k < places.len() implies is_told_of(
            rows,
            account_ids[#[trigger] places[k]],
            now[k],
        ) by {
            if k < before.len() {
                assert(places[k] == before[k]);
                assert(fewer[before[k]] == account_ids[before[k]]);
                assert(now[k] == in_order(rows, fewer)[k]);
            } else {
                assert(places[k] == last);
            }
        }
        assert forall|i: int| 0 <= i < account_ids.len() implies (#[trigger] places.contains(i)
            <==> is_answered(rows, account_ids, i)) by {
            if i < last {
                assert(places.contains(i) <==> before.contains(i));
                assert(fewer[i] == account_ids[i]);
                assert forall|j: int| 0 <= j < i implies #[trigger] account_ids[j] == fewer[j] by {}
                assert(is_answered(rows, fewer, i) <==> is_answered(rows, account_ids, i)) by {
                    if is_answered(rows, fewer, i) {
                        assert forall|j: int| 0 <= j < i implies #[trigger] account_ids[j]
                            != account_ids[i] by {
                            assert(fewer[j] != fewer[i]);
                        }
                    }
                    if is_answered(rows, account_ids, i) {
                        assert forall|j: int| 0 <= j < i implies #[trigger] fewer[j]
                            != fewer[i] by {
                            assert(account_ids[j] != account_ids[i]);
                        }
                    }
                }
            } else {
                assert(i == last);
                if fewer.contains(account_ids[last]) {
                    let j = choose|j: int| 0 <= j < fewer.len() && fewer[j] == account_ids[last];
                    assert(account_ids[j] == account_ids[last]);
                } else {
                    assert forall|j: int| 0 <= j < last implies #[trigger] account_ids[j]
                        != account_ids[last] by {
                        assert(fewer[j] == account_ids[j]);
                        assert(fewer.contains(fewer[j]));
                    }
                }
                if row_of(rows, account_ids[last]) is Some {
                    let r = choose|r: int| #[trigger]
                        is_last_row(rows, r, account_ids[last]) && rows[r] == row_of(
                            rows,
                            account_ids[last],
                        )->0;
                    assert(rows[r].account_id@ == account_ids[last]);
                }
            }
        }
        places
    }
}

/// The first negative valuations are told of every row that can be read, in the
/// order of the rows, with what stands in the row.
pub proof fn law_every_readable_negative_row_is_told(rows: Seq<NegativeBalanceRow>) -> (places: Seq<int>)
    ensures
        are_positions(places, rows.len() as int),
        places.len() == negative_balances_of(rows).len(),
        forall|k: int|
            0 <= k < places.len() ==> {
                let told = negative_balances_of(rows)[k];
                &&& told.account_id == rows[#[trigger] places[k]].account_id@
                &&& day_read(rows[places[k]].first_negative_date@) == Some(told.first_negative_date)
                &&& decimal_read(rows[places[k]].cash_balance@) == Some(told.cash_balance)
                &&& decimal_read(rows[places[k]].total_value@) == Some(told.total_value)
                &&& told.account_currency == rows[places[k]].account_currency@
            },
        forall|i: int|
            0 <= i < rows.len() ==> (#[trigger] places.contains(i) <==> day_read(
                rows[i].first_negative_date@,
            ) is Some && decimal_read(rows[i].cash_balance@) is Some && decimal_read(
                rows[i].total_value@,
            ) is Some),
    decreases rows.len(),
{
    if rows.len() == 0 {
        Seq::empty()
    } else {
        let fewer = rows.drop_last();
        let last = rows.len() - 1;
        let before = law_every_readable_negative_row_is_told(fewer);
        let is_kept = day_read(rows[last].first_negative_date@) is Some && decimal_read(
            rows[last].cash_balance@,
        ) is Some && decimal_read(rows[last].total_value@) is Some;
        let places = if is_kept {
            before.push(last)
        } else {
            before
        };
        lemma_grown_positions(before, last, is_kept, places);
        assert forall|k: int| 0 <= k < places.len() implies #[trigger] places[k] == if k
            < before.len() {
            before[k]
        } else {
            last
        } by {}
        assert forall|k: int| 0 <= k < before.len() implies rows[#[trigger] before[k]]
            == fewer[before[k]] by {}
        assert forall|i: int| 0 <= i < last implies (#[trigger] places.contains(i)
            <==> before.contains(i)) && rows[i] == fewer[i] by {}
        places
    }
}

/// The valuations of accounts taken together are told of every row whose day can
/// be read, in the order of the rows: under the composite's name, in the row's
/// currency, at par, with each amount that can be read and zero for the others.
pub proof fn law_every_dated_row_is_a_valuation(rows: Seq<TogetherRow>, composite_id: Seq<char>,
    now: Timestamp) -> (places: Seq<int>)
    ensures
        are_positions(places, rows.len() as int),
        places.len() == all_together_of(rows, composite_id, now).len(),
        forall|k: int|
            0 <= k < places.len() ==> {
                let told = all_together_of(rows, composite_id, now)[k];
                let row = rows[#[trigger] places[k]];
                &&& told.id == composite_id + "-"@ + row.valuation_date@
                &&& told.account_id == composite_id
                &&& day_read(row.valuation_date@) == Some(told.valuation_date)
                &&& told.account_currency == row.base_currency@
                &&& told.base_currency == row.base_currency@
                &&& told.fx_rate_to_base == Decimal::whole(1)
                &&& decimal_read(row.cash_balance@) is Some ==> told.cash_balance
                    == decimal_read(row.cash_balance@)->0
                &&& decimal_read(row.cash_balance@) is None ==> told.cash_balance
                    == Decimal::whole(0)
                &&& decimal_read(row.investment_market_value@) is Some
                    ==> told.investment_market_value
                    == decimal_read(row.investment_market_value@)->0
                &&& decimal_read(row.investment_market_value@) is None
                    ==> told.investment_market_value == Decimal::whole(0)
                &&& decimal_read(row.total_value@) is Some ==> told.total_value
                    == decimal_read(row.total_value@)->0
                &&& decimal_read(row.total_value@) is None ==> told.total_value == Decimal::whole(0)
                &&& decimal_read(row.cost_basis@) is Some ==> told.cost_basis
                    == decimal_read(row.cost_basis@)->0
                &&& decimal_read(row.cost_basis@) is None ==> told.cost_basis == Decimal::whole(0)
                &&& decimal_read(row.net_contribution@) is Some ==> told.net_contribution
                    == decimal_read(row.net_contribution@)->0
                &&& decimal_read(row.net_contribution@) is None ==> told.net_contribution
                    == Decimal::whole(0)
                &&& rfc3339_read(row.calculated_at@) is Some ==> told.calculated_at == rfc3339_read(
                    row.calculated_at@,
                )->0
                &&& rfc3339_read(row.calculated_at@) is None ==> told.calculated_at == now
            },
        forall|i: int|
            0 <= i < rows.len() ==> (#[trigger] places.contains(i) <==> day_read(
                rows[i].valuation_date@,
            ) is Some),
    decreases rows.len(),
{
    if rows.len() == 0 {
        Seq::empty()
    } else {
        let fewer = rows.drop_last();
        let last = rows.len() - 1;
        let before = law_every_dated_row_is_a_valuation(fewer, composite_id, now);
        let is_kept = day_read(rows[last].valuation_date@) is Some;
        let places = if is_kept {
            before.push(last)
        } else {
            before
        };
        lemma_grown_positions(before, last, is_kept, places);
        assert forall|k: int| 0 <= k < places.len() implies #[trigger] places[k] == if k
            < before.len() {
            before[k]
        } else {
            last
        } by {}
        assert forall|k: int| 0 <= k < before.len() implies rows[#[trigger] before[k]]
            == fewer[before[k]] by {}
        assert forall|i: int| 0 <= i < last implies (#[trigger] places.contains(i)
            <==> before.contains(i)) && rows[i] == fewer[i] by {}
        places
    }
}

/// A query has one place for one value, and one more, behind the separator, for
/// one value more.
pub proof fn law_query_has_a_place_for_each_value(count: nat, separator: Seq<char>)
    ensures
        crate::valuations::places(0, separator) == Seq::<char>::empty(),
        crate::valuations::places(1, separator) == "?"@,
        count > 0 ==> crate::valuations::places(count + 1, separator)
            == crate::valuations::places(count, separator)
            + separator + "?"@,
{
    let marks = Seq::new(count + 1, |i: int| "?"@);
    assert(marks.drop_last() =~= Seq::new(count, |i: int| "?"@));
    let one = Seq::new(1, |i: int| "?"@);
    assert(one.drop_last() =~= Seq::empty());
    assert(joined(one, separator) =~= "?"@);
}

/// The query for accounts taken together has a bound on the day where the range
/// has one, the first day before the last.
pub proof fn law_query_has_the_bounds_of_the_range(accounts: nat)
    ensures
        ({
            let start = TOGETHER_START@ + crate::valuations::places(accounts, ","@) + ")"@;
            let end = " GROUP BY valuation_date ORDER BY valuation_date ASC"@;
            &&& together_sql(accounts, false, false) == start + end
            &&& together_sql(accounts, true, false) == start + " AND valuation_date >= ?"@ + end
            &&& together_sql(accounts, false, true) == start + " AND valuation_date <= ?"@ + end
            &&& together_sql(accounts, true, true) == start + " AND valuation_date >= ?"@
                + " AND valuation_date <= ?"@ + end
        }),
{
    let start = TOGETHER_START@ + crate::valuations::places(accounts, ","@) + ")"@;
    let from = " AND valuation_date >= ?"@;
    assert(start + Seq::empty() + Seq::empty() =~= start);
    assert(start + Seq::empty() =~= start);
    assert(start + from + Seq::empty() =~= start + from);
}

} // verus!
