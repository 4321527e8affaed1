//! Importing what Woob knows of a bank account.

use crate::activities::{activity_views, UniversalActivity, UniversalActivityView};
use crate::amounts::{Amount, FloatBits, ONE, UnitPrice};
use crate::collect::{
    are_positions, lemma_keeps, lemma_kept, lemma_kept_positions, lemma_positions_among,
};
use crate::decimal::{decimal_text_two_places, print_decimal_two_places, Decimal};
use crate::text::{
    byte_prefix, chain, copy_text, is_text_below, optional_text, prefix_of_bytes, same_text,
    starts_with, text_below, text_starts_with,
};
use crate::time::{moment_text, print_moment, Timestamp};
use vstd::prelude::*;

verus! {

/// A bank account that Woob knows.
#[derive(Debug)]
pub struct WoobAccount {
    pub id: String,
    pub label: Option<String>,
    pub balance: Option<FloatBits>,
    pub currency: Option<String>,
}

/// A bank account, as it is shown.
#[derive(Debug)]
pub struct BankAccount {
    pub id: String,
    pub label: String,
    pub balance: FloatBits,
    pub currency: String,
}

/// A bank account as it is shown: under its label or its identifier, in euros
/// where Woob does not say otherwise.
pub fn shown_account(account: &WoobAccount) -> (shown: BankAccount)
    ensures
        shown.id@ == account.id@,
        shown.label@ == match account.label {
            Some(label) => label@,
            None => account.id@,
        },
        shown.balance == match account.balance {
            Some(balance) => balance,
            None => (FloatBits { bits: 0 }),
        },
        shown.currency@ == match account.currency {
            Some(currency) => currency@,
            None => "EUR"@,
        },
{
    BankAccount {
        id: account.id.clone(),
        label: match &account.label {
            Some(label) => label.clone(),
            None => account.id.clone(),
        },
        balance: match account.balance {
            Some(balance) => balance,
            None => FloatBits { bits: 0 },
        },
        currency: match &account.currency {
            Some(currency) => currency.clone(),
            None => "EUR".to_owned(),
        },
    }
}

/// An investment that a transaction is about.
#[derive(Debug)]
pub struct WoobInvestment {
    pub label: Option<String>,
    pub code: Option<String>,
    pub stock_symbol: Option<String>,
    pub quantity: Option<FloatBits>,
    pub unitvalue: Option<FloatBits>,
}

/// A transaction that Woob knows.
#[derive(Debug)]
pub struct WoobTransaction {
    pub id: String,
    pub date: Option<String>,
    pub label: Option<String>,
    pub raw: Option<String>,
    pub amount: Option<Amount>,
    pub tx_type: Option<i64>,
    pub commission: Option<FloatBits>,
    pub investments: Option<Vec<WoobInvestment>>,
}

// ── Mapping ──────────────────────────────────────────────────────────────────

/// The type that Woob gives orders on a market.
pub const MARKET: i64 = 9;

/// A text, where it is there and not empty.
pub open spec fn filled(text: Option<String>) -> Option<Seq<char>> {
    match text {
        Some(text) => if text@.len() > 0 {
            Some(text@)
        } else {
            None
        },
        None => None,
    }
}

fn filled_text(text: &Option<String>) -> (r: Option<String>)
    ensures
        optional_text(r) == filled(*text),
{
    match text {
        Some(text) => if text.as_str().is_empty() {
            None
        } else {
            Some(text.clone())
        },
        None => None,
    }
}

/// What an investment is called: by its symbol, its code or its label, the
/// first that it has.
pub open spec fn investment_symbol(investment: WoobInvestment) -> Option<Seq<char>> {
    match filled(investment.stock_symbol) {
        Some(symbol) => Some(symbol),
        None => match filled(investment.code) {
            Some(code) => Some(code),
            None => filled(investment.label),
        },
    }
}

fn symbol_of_investment(investment: &WoobInvestment) -> (symbol: Option<String>)
    ensures
        optional_text(symbol) == investment_symbol(*investment),
{
    match filled_text(&investment.stock_symbol) {
        Some(symbol) => Some(symbol),
        None => match filled_text(&investment.code) {
            Some(code) => Some(code),
            None => filled_text(&investment.label),
        },
    }
}

/// What a transaction is described by: its label, or what the bank printed.
pub open spec fn description_of(tx: WoobTransaction) -> Seq<char> {
    match tx.label {
        Some(label) => label@,
        None => match tx.raw {
            Some(raw) => raw@,
            None => Seq::empty(),
        },
    }
}

fn describe(tx: &WoobTransaction) -> (description: String)
    ensures
        description@ == description_of(*tx),
{
    match &tx.label {
        Some(label) => label.clone(),
        None => match &tx.raw {
            Some(raw) => raw.clone(),
            None => String::new(),
        },
    }
}

/// The first investment of a transaction.
pub open spec fn first_investment(tx: WoobTransaction) -> Option<WoobInvestment> {
    match tx.investments {
        Some(investments) => if investments@.len() > 0 {
            Some(investments@[0])
        } else {
            None
        },
        None => None,
    }
}

/// The quantity of an order, one where it is not stated, without its sign.
pub open spec fn order_quantity(investment: Option<WoobInvestment>) -> FloatBits {
    match investment {
        Some(found) => match found.quantity {
            Some(quantity) => quantity.spec_abs(),
            None => FloatBits { bits: ONE },
        },
        None => FloatBits { bits: ONE },
    }
}

/// The unit price of an order: what is stated, or else the amount over the
/// quantity, or the amount itself where there is no quantity to divide by.
pub open spec fn order_price(investment: Option<WoobInvestment>, amount: FloatBits) -> UnitPrice {
    let quantity = order_quantity(investment);
    let worked_out = if quantity.spec_is_positive() {
        UnitPrice::Quotient { amount: amount.spec_abs(), quantity }
    } else {
        UnitPrice::Stated(amount.spec_abs())
    };
    match investment {
        Some(found) => match found.unitvalue {
            Some(price) => UnitPrice::Stated(price),
            None => worked_out,
        },
        None => worked_out,
    }
}

/// The fee of an order, without its sign.
pub open spec fn order_fee(tx: WoobTransaction) -> FloatBits {
    match tx.commission {
        Some(commission) => commission.spec_abs(),
        None => FloatBits { bits: 0 },
    }
}

/// What an order is called.
pub open spec fn order_symbol(tx: WoobTransaction) -> Option<Seq<char>> {
    match first_investment(tx) {
        Some(investment) => investment_symbol(investment),
        None => None,
    }
}

/// What an order is known by. Woob gives every order of a bank the same
/// identifier, so it is made of the date, the type, the amount and the symbol or
/// the description.
pub open spec fn order_id(
    date: Seq<char>,
    activity_type: Seq<char>,
    two_places: Seq<char>,
    name: Seq<char>,
) -> Seq<char> {
    "WOOB-"@ + date + "-"@ + activity_type + "-"@ + two_places + "-"@ + name
}

/// Whether an identifier is one that Woob gives more than one transaction.
pub open spec fn is_shared_id(id: Seq<char>) -> bool {
    id.contains('@') && !starts_with(id, "WOOB-"@)
}

/// What a movement of cash is known by: its own identifier, or one made of the
/// date, the type and the amount where Woob gives the same to more than one.
pub open spec fn cash_id(
    id: Seq<char>,
    date: Seq<char>,
    activity_type: Seq<char>,
    two_places: Seq<char>,
) -> Seq<char> {
    if is_shared_id(id) {
        "WOOB-"@ + date + "-"@ + activity_type + "-"@ + two_places
    } else {
        id
    }
}

/// The activity of an order on a market.
pub open spec fn order_activity(
    tx: WoobTransaction,
    amount: Amount,
    date: Seq<char>,
    currency: Seq<char>,
) -> UniversalActivityView {
    let investment = first_investment(tx);
    let activity_type = if amount.value.spec_is_negative() {
        "BUY"@
    } else {
        "SELL"@
    };
    let name = match order_symbol(tx) {
        Some(symbol) => symbol,
        None => description_of(tx),
    };
    UniversalActivityView {
        id: order_id(date, activity_type, amount.two_places@, name),
        source_system: "WOOB"@,
        activity_type,
        trade_date: date,
        price: order_price(investment, amount.value),
        units: order_quantity(investment),
        value: amount.value.spec_abs(),
        two_places: amount.two_places@,
        currency,
        description: description_of(tx),
        fee: order_fee(tx),
        symbol: order_symbol(tx),
        needs_review: true,
    }
}

/// The activity of a movement of cash.
pub open spec fn cash_activity(
    tx: WoobTransaction,
    amount: Amount,
    date: Seq<char>,
    currency: Seq<char>,
) -> UniversalActivityView {
    let activity_type = if amount.value.spec_is_positive() {
        "DEPOSIT"@
    } else {
        "WITHDRAWAL"@
    };
    UniversalActivityView {
        id: cash_id(tx.id@, date, activity_type, amount.two_places@),
        source_system: "WOOB"@,
        activity_type,
        trade_date: date,
        price: UnitPrice::Stated(amount.value.spec_abs()),
        units: FloatBits { bits: ONE },
        value: amount.value.spec_abs(),
        two_places: amount.two_places@,
        currency,
        description: description_of(tx),
        fee: FloatBits { bits: 0 },
        symbol: None,
        needs_review: false,
    }
}

/// The activity of a transaction: none where the amount or the date is missing,
/// or where no cash moves.
pub open spec fn activity_of(tx: WoobTransaction, currency: Seq<char>) -> Option<
    UniversalActivityView,
> {
    match (tx.amount, tx.date) {
        (Some(amount), Some(date)) => if tx.tx_type == Some(MARKET) {
            Some(order_activity(tx, amount, date@, currency))
        } else if amount.value.spec_is_zero() {
            None
        } else {
            Some(cash_activity(tx, amount, date@, currency))
        },
        _ => None,
    }
}

/// Whether an activity is what a transaction is imported as. An order on a
/// market is bought where cash leaves and sold otherwise; any other transaction
/// is deposited or withdrawn. The day, the currency and the amount, without its
/// sign, are those of the transaction.
pub open spec fn is_import_of(
    activity: UniversalActivity,
    tx: WoobTransaction,
    currency: Seq<char>,
) -> bool {
    &&& tx.amount is Some
    &&& tx.date is Some
    &&& activity.source_system@ == "WOOB"@
    &&& activity.trade_date@ == tx.date->0@
    &&& activity.currency@ == currency
    &&& activity.amount.two_places@ == tx.amount->0.two_places@
    &&& (tx.amount->0.value.bits < 0x8000_0000_0000_0000 ==> activity.amount.value.bits
        == tx.amount->0.value.bits)
    &&& (tx.amount->0.value.bits >= 0x8000_0000_0000_0000 ==> activity.amount.value.bits
        + 0x8000_0000_0000_0000 == tx.amount->0.value.bits)
    &&& (tx.label is Some ==> activity.description@ == tx.label->0@)
    &&& (tx.label is None && tx.raw is Some ==> activity.description@ == tx.raw->0@)
    &&& (tx.label is None && tx.raw is None ==> activity.description@.len() == 0)
    &&& activity.needs_review == (tx.tx_type == Some(9i64))
    &&& (tx.tx_type == Some(9i64)
        && 0x8000_0000_0000_0000 < tx.amount->0.value.bits <= 0xFFF0_0000_0000_0000
        ==> activity.activity_type@ == "BUY"@)
    &&& (tx.tx_type == Some(9i64)
        && !(0x8000_0000_0000_0000 < tx.amount->0.value.bits <= 0xFFF0_0000_0000_0000)
        ==> activity.activity_type@ == "SELL"@)
    &&& (!(tx.tx_type == Some(9i64)) && 0 < tx.amount->0.value.bits <= 0x7FF0_0000_0000_0000
        ==> activity.activity_type@ == "DEPOSIT"@)
    &&& (!(tx.tx_type == Some(9i64)) && !(0 < tx.amount->0.value.bits <= 0x7FF0_0000_0000_0000)
        ==> activity.activity_type@ == "WITHDRAWAL"@)
    &&& (!(tx.tx_type == Some(9i64)) ==> activity.price == UnitPrice::Stated(activity.amount.value)
        && activity.units.bits == 0x3FF0_0000_0000_0000 && activity.fee.bits == 0
        && activity.symbol is None)
    &&& (!(tx.tx_type == Some(9i64)) && !tx.id@.contains('@') ==> activity.id@ == tx.id@)
    &&& (!(tx.tx_type == Some(9i64)) && starts_with(tx.id@, "WOOB-"@) ==> activity.id@ == tx.id@)
    &&& (!(tx.tx_type == Some(9i64)) && tx.id@.contains('@') && !starts_with(tx.id@, "WOOB-"@)
        ==> activity.id@ == "WOOB-"@ + activity.trade_date@ + "-"@ + activity.activity_type@ + "-"@
        + activity.amount.two_places@)
    &&& (tx.tx_type == Some(9i64) && tx.commission is None ==> activity.fee.bits == 0)
    &&& (tx.tx_type == Some(9i64) && tx.commission is Some
        && tx.commission->0.bits < 0x8000_0000_0000_0000 ==> activity.fee.bits
        == tx.commission->0.bits)
    &&& (tx.tx_type == Some(9i64) && tx.commission is Some
        && tx.commission->0.bits >= 0x8000_0000_0000_0000 ==> activity.fee.bits
        + 0x8000_0000_0000_0000 == tx.commission->0.bits)
    &&& (tx.tx_type == Some(9i64) && !(tx.investments is Some && tx.investments->0@.len() > 0
        && tx.investments->0@[0].quantity is Some) ==> activity.units.bits == 0x3FF0_0000_0000_0000)
    &&& (tx.tx_type == Some(9i64) && tx.investments is Some && tx.investments->0@.len() > 0
        && tx.investments->0@[0].quantity is Some
        && tx.investments->0@[0].quantity->0.bits < 0x8000_0000_0000_0000 ==> activity.units.bits
        == tx.investments->0@[0].quantity->0.bits)
    &&& (tx.tx_type == Some(9i64) && tx.investments is Some && tx.investments->0@.len() > 0
        && tx.investments->0@[0].quantity is Some
        && tx.investments->0@[0].quantity->0.bits >= 0x8000_0000_0000_0000 ==> activity.units.bits
        + 0x8000_0000_0000_0000 == tx.investments->0@[0].quantity->0.bits)
    &&& (tx.tx_type == Some(9i64) && tx.investments is Some && tx.investments->0@.len() > 0
        && tx.investments->0@[0].unitvalue is Some ==> activity.price
        == UnitPrice::Stated(tx.investments->0@[0].unitvalue->0))
    &&& (tx.tx_type == Some(9i64) && !(tx.investments is Some && tx.investments->0@.len() > 0
        && tx.investments->0@[0].unitvalue is Some)
        && 0 < activity.units.bits <= 0x7FF0_0000_0000_0000 ==> activity.price
        == (UnitPrice::Quotient { amount: activity.amount.value, quantity: activity.units }))
    &&& (tx.tx_type == Some(9i64) && !(tx.investments is Some && tx.investments->0@.len() > 0
        && tx.investments->0@[0].unitvalue is Some)
        && !(0 < activity.units.bits <= 0x7FF0_0000_0000_0000) ==> activity.price
        == UnitPrice::Stated(activity.amount.value))
    &&& (tx.tx_type == Some(9i64) && !(tx.investments is Some && tx.investments->0@.len() > 0)
        ==> activity.symbol is None)
    &&& (tx.tx_type == Some(9i64) && tx.investments is Some && tx.investments->0@.len() > 0
        && tx.investments->0@[0].stock_symbol is Some
        && tx.investments->0@[0].stock_symbol->0@.len() > 0 ==> activity.symbol is Some
        && activity.symbol->0@ == tx.investments->0@[0].stock_symbol->0@)
    &&& (tx.tx_type == Some(9i64) && tx.investments is Some && tx.investments->0@.len() > 0
        && !(tx.investments->0@[0].stock_symbol is Some
        && tx.investments->0@[0].stock_symbol->0@.len() > 0) && tx.investments->0@[0].code is Some
        && tx.investments->0@[0].code->0@.len() > 0 ==> activity.symbol is Some
        && activity.symbol->0@ == tx.investments->0@[0].code->0@)
    &&& (tx.tx_type == Some(9i64) && tx.investments is Some && tx.investments->0@.len() > 0
        && !(tx.investments->0@[0].stock_symbol is Some
        && tx.investments->0@[0].stock_symbol->0@.len() > 0)
        && !(tx.investments->0@[0].code is Some && tx.investments->0@[0].code->0@.len() > 0)
        && tx.investments->0@[0].label is Some && tx.investments->0@[0].label->0@.len() > 0
        ==> activity.symbol is Some && activity.symbol->0@ == tx.investments->0@[0].label->0@)
    &&& (tx.tx_type == Some(9i64) && tx.investments is Some && tx.investments->0@.len() > 0
        && !(tx.investments->0@[0].stock_symbol is Some
        && tx.investments->0@[0].stock_symbol->0@.len() > 0)
        && !(tx.investments->0@[0].code is Some && tx.investments->0@[0].code->0@.len() > 0)
        && !(tx.investments->0@[0].label is Some && tx.investments->0@[0].label->0@.len() > 0)
        ==> activity.symbol is None)
    &&& (tx.tx_type == Some(9i64) && activity.symbol is Some ==> activity.id@ == "WOOB-"@
        + activity.trade_date@ + "-"@ + activity.activity_type@ + "-"@
        + activity.amount.two_places@ + "-"@ + activity.symbol->0@)
    &&& (tx.tx_type == Some(9i64) && activity.symbol is None ==> activity.id@ == "WOOB-"@
        + activity.trade_date@ + "-"@ + activity.activity_type@ + "-"@
        + activity.amount.two_places@ + "-"@ + activity.description@)
}

/// A transaction is imported exactly where it has an amount and a date and is an
/// order or moves cash; and what it is imported as has its day, its currency and
/// its amount.
pub proof fn law_transaction_is_mapped(tx: WoobTransaction, currency: Seq<char>)
    ensures
        activity_of(tx, currency) is Some <==> tx.amount is Some && tx.date is Some && (tx.tx_type
            == Some(9i64) || (tx.amount->0.value.bits != 0
            && tx.amount->0.value.bits != 0x8000_0000_0000_0000)),
        activity_of(tx, currency) matches Some(activity) ==> {
            &&& tx.amount is Some
            &&& tx.date is Some
            &&& activity.source_system == "WOOB"@
            &&& activity.trade_date == tx.date->0@
            &&& activity.currency == currency
            &&& activity.two_places == tx.amount->0.two_places@
            &&& (tx.amount->0.value.bits < 0x8000_0000_0000_0000 ==> activity.value.bits
                == tx.amount->0.value.bits)
            &&& (tx.amount->0.value.bits >= 0x8000_0000_0000_0000 ==> activity.value.bits
                + 0x8000_0000_0000_0000 == tx.amount->0.value.bits)
            &&& (tx.label is Some ==> activity.description == tx.label->0@)
            &&& (tx.label is None && tx.raw is Some ==> activity.description == tx.raw->0@)
            &&& (tx.label is None && tx.raw is None ==> activity.description.len() == 0)
            &&& activity.needs_review == (tx.tx_type == Some(9i64))
            &&& (tx.tx_type == Some(9i64)
                && 0x8000_0000_0000_0000 < tx.amount->0.value.bits <= 0xFFF0_0000_0000_0000
                ==> activity.activity_type == "BUY"@)
            &&& (tx.tx_type == Some(9i64)
                && !(0x8000_0000_0000_0000 < tx.amount->0.value.bits <= 0xFFF0_0000_0000_0000)
                ==> activity.activity_type == "SELL"@)
            &&& (!(tx.tx_type == Some(9i64))
                && 0 < tx.amount->0.value.bits <= 0x7FF0_0000_0000_0000 ==> activity.activity_type
                == "DEPOSIT"@)
            &&& (!(tx.tx_type == Some(9i64))
                && !(0 < tx.amount->0.value.bits <= 0x7FF0_0000_0000_0000)
                ==> activity.activity_type == "WITHDRAWAL"@)
            &&& (!(tx.tx_type == Some(9i64)) ==> activity.price
                == UnitPrice::Stated(activity.value) && activity.units.bits
                == 0x3FF0_0000_0000_0000 && activity.fee.bits == 0 && activity.symbol is None)
            &&& (!(tx.tx_type == Some(9i64)) && !tx.id@.contains('@') ==> activity.id == tx.id@)
            &&& (!(tx.tx_type == Some(9i64)) && starts_with(tx.id@, "WOOB-"@) ==> activity.id
                == tx.id@)
            &&& (!(tx.tx_type == Some(9i64)) && tx.id@.contains('@') && !starts_with(tx.id@,
                "WOOB-"@) ==> activity.id == "WOOB-"@ + activity.trade_date + "-"@
                + activity.activity_type + "-"@ + activity.two_places)
            &&& (tx.tx_type == Some(9i64) && tx.commission is None ==> activity.fee.bits == 0)
            &&& (tx.tx_type == Some(9i64) && tx.commission is Some
                && tx.commission->0.bits < 0x8000_0000_0000_0000 ==> activity.fee.bits
                == tx.commission->0.bits)
            &&& (tx.tx_type == Some(9i64) && tx.commission is Some
                && tx.commission->0.bits >= 0x8000_0000_0000_0000 ==> activity.fee.bits
                + 0x8000_0000_0000_0000 == tx.commission->0.bits)
            &&& (tx.tx_type == Some(9i64) && !(tx.investments is Some
                && tx.investments->0@.len() > 0 && tx.investments->0@[0].quantity is Some)
                ==> activity.units.bits == 0x3FF0_0000_0000_0000)
            &&& (tx.tx_type == Some(9i64) && tx.investments is Some && tx.investments->0@.len() > 0
                && tx.investments->0@[0].quantity is Some
                && tx.investments->0@[0].quantity->0.bits < 0x8000_0000_0000_0000
                ==> activity.units.bits == tx.investments->0@[0].quantity->0.bits)
            &&& (tx.tx_type == Some(9i64) && tx.investments is Some && tx.investments->0@.len() > 0
                && tx.investments->0@[0].quantity is Some
                && tx.investments->0@[0].quantity->0.bits >= 0x8000_0000_0000_0000
                ==> activity.units.bits + 0x8000_0000_0000_0000
                == tx.investments->0@[0].quantity->0.bits)
            &&& (tx.tx_type == Some(9i64) && tx.investments is Some && tx.investments->0@.len() > 0
                && tx.investments->0@[0].unitvalue is Some ==> activity.price
                == UnitPrice::Stated(tx.investments->0@[0].unitvalue->0))
            &&& (tx.tx_type == Some(9i64) && !(tx.investments is Some
                && tx.investments->0@.len() > 0 && tx.investments->0@[0].unitvalue is Some)
                && 0 < activity.units.bits <= 0x7FF0_0000_0000_0000 ==> activity.price
                == (UnitPrice::Quotient { amount: activity.value, quantity: activity.units }))
            &&& (tx.tx_type == Some(9i64) && !(tx.investments is Some
                && tx.investments->0@.len() > 0 && tx.investments->0@[0].unitvalue is Some)
                && !(0 < activity.units.bits <= 0x7FF0_0000_0000_0000) ==> activity.price
                == UnitPrice::Stated(activity.value))
            &&& (tx.tx_type == Some(9i64) && !(tx.investments is Some
                && tx.investments->0@.len() > 0) ==> activity.symbol is None)
            &&& (tx.tx_type == Some(9i64) && tx.investments is Some && tx.investments->0@.len() > 0
                && tx.investments->0@[0].stock_symbol is Some
                && tx.investments->0@[0].stock_symbol->0@.len() > 0 ==> activity.symbol
                == Some(tx.investments->0@[0].stock_symbol->0@))
            &&& (tx.tx_type == Some(9i64) && tx.investments is Some && tx.investments->0@.len() > 0
                && !(tx.investments->0@[0].stock_symbol is Some
                && tx.investments->0@[0].stock_symbol->0@.len() > 0)
                && tx.investments->0@[0].code is Some && tx.investments->0@[0].code->0@.len() > 0
                ==> activity.symbol == Some(tx.investments->0@[0].code->0@))
            &&& (tx.tx_type == Some(9i64) && tx.investments is Some && tx.investments->0@.len() > 0
                && !(tx.investments->0@[0].stock_symbol is Some
                && tx.investments->0@[0].stock_symbol->0@.len() > 0)
                && !(tx.investments->0@[0].code is Some
                && tx.investments->0@[0].code->0@.len() > 0) && tx.investments->0@[0].label is Some
                && tx.investments->0@[0].label->0@.len() > 0 ==> activity.symbol
                == Some(tx.investments->0@[0].label->0@))
            &&& (tx.tx_type == Some(9i64) && tx.investments is Some && tx.investments->0@.len() > 0
                && !(tx.investments->0@[0].stock_symbol is Some
                && tx.investments->0@[0].stock_symbol->0@.len() > 0)
                && !(tx.investments->0@[0].code is Some
                && tx.investments->0@[0].code->0@.len() > 0)
                && !(tx.investments->0@[0].label is Some
                && tx.investments->0@[0].label->0@.len() > 0) ==> activity.symbol is None)
            &&& (tx.tx_type == Some(9i64) && activity.symbol is Some ==> activity.id == "WOOB-"@
                + activity.trade_date + "-"@ + activity.activity_type + "-"@ + activity.two_places
                + "-"@ + activity.symbol->0)
            &&& (tx.tx_type == Some(9i64) && activity.symbol is None ==> activity.id == "WOOB-"@
                + activity.trade_date + "-"@ + activity.activity_type + "-"@ + activity.two_places
                + "-"@ + activity.description)
        },
{
}

fn stable_order_id(date: &str, activity_type: &str, two_places: &str, name: &str) -> (id: String)
    ensures
        id@ == order_id(date@, activity_type@, two_places@, name@),
{
    let first = chain(chain("WOOB-", date).as_str(), "-");
    let second = chain(chain(first.as_str(), activity_type).as_str(), "-");
    let third = chain(chain(second.as_str(), two_places).as_str(), "-");
    chain(third.as_str(), name)
}

fn holds_at_sign(text: &str) -> (r: bool)
    ensures
        r == text@.contains('@'),
{
    let chars = crate::text::characters(text);
    proof {
        crate::text::lemma_first_at(chars@, '@');
    }
    crate::text::find_char(&chars, '@').is_some()
}

fn stable_cash_id(id: &str, date: &str, activity_type: &str, two_places: &str) -> (stable: String)
    ensures
        stable@ == cash_id(id@, date@, activity_type@, two_places@),
{
    if holds_at_sign(id) && !text_starts_with(id, "WOOB-") {
        let first = chain(chain("WOOB-", date).as_str(), "-");
        let second = chain(chain(first.as_str(), activity_type).as_str(), "-");
        chain(second.as_str(), two_places)
    } else {
        id.to_owned()
    }
}

fn map_order(tx: &WoobTransaction, amount: &Amount, date: &String, currency: &str) -> (activity:
    UniversalActivity)
    ensures
        activity@ == order_activity(*tx, *amount, date@, currency@),
{
    let description = describe(tx);
    let mut symbol: Option<String> = None;
    let mut quantity = FloatBits { bits: ONE };
    let mut stated: Option<FloatBits> = None;
    match &tx.investments {
        Some(investments) => {
            if investments.len() > 0 {
                let investment = &investments[0];
                symbol = symbol_of_investment(investment);
                match investment.quantity {
                    Some(found) => {
                        quantity = found.abs();
                    },
                    None => {},
                }
                stated = investment.unitvalue;
            }
        },
        None => {},
    }
    let price = match stated {
        Some(price) => UnitPrice::Stated(price),
        None => if quantity.is_positive() {
            UnitPrice::Quotient { amount: amount.value.abs(), quantity }
        } else {
            UnitPrice::Stated(amount.value.abs())
        },
    };
    let fee = match tx.commission {
        Some(commission) => commission.abs(),
        None => FloatBits { bits: 0 },
    };
    let activity_type = if amount.value.is_negative() {
        "BUY"
    } else {
        "SELL"
    };
    let name = match &symbol {
        Some(symbol) => symbol.clone(),
        None => description.clone(),
    };
    UniversalActivity {
        id: stable_order_id(
            date.as_str(),
            activity_type,
            amount.two_places.as_str(),
            name.as_str(),
        ),
        source_system: "WOOB".to_owned(),
        activity_type: activity_type.to_owned(),
        trade_date: date.clone(),
        price,
        units: quantity,
        amount: Amount { value: amount.value.abs(), two_places: amount.two_places.clone() },
        currency: currency.to_owned(),
        description,
        fee,
        symbol,
        needs_review: true,
    }
}

/// The activity of a transaction: an order on a market is a purchase or a sale,
/// anything else in which cash moves a deposit or a withdrawal.
pub fn map_woob_transaction(tx: &WoobTransaction, currency: &str) -> (activity: Option<
    UniversalActivity,
>)
    ensures
        match activity {
            Some(found) => activity_of(*tx, currency@) == Some(found@),
            None => activity_of(*tx, currency@) is None,
        },
        activity is Some <==> tx.amount is Some
            && tx.date is Some
            && (tx.tx_type == Some(9i64) || (tx.amount->0.value.bits != 0
            && tx.amount->0.value.bits != 0x8000_0000_0000_0000)),
        activity matches Some(found) ==> is_import_of(found, *tx, currency@),
{
    proof {
        law_transaction_is_mapped(*tx, currency@);
    }
    let amount = match &tx.amount {
        Some(amount) => amount,
        None => {
            return None;
        },
    };
    let date = match &tx.date {
        Some(date) => date,
        None => {
            return None;
        },
    };
    let is_order = match tx.tx_type {
        Some(tx_type) => tx_type == MARKET,
        None => false,
    };
    if is_order {
        return Some(map_order(tx, amount, date, currency));
    }
    if amount.value.is_zero() {
        return None;
    }
    let activity_type = if amount.value.is_positive() {
        "DEPOSIT"
    } else {
        "WITHDRAWAL"
    };
    Some(
        UniversalActivity {
            id: stable_cash_id(
                tx.id.as_str(),
                date.as_str(),
                activity_type,
                amount.two_places.as_str(),
            ),
            source_system: "WOOB".to_owned(),
            activity_type: activity_type.to_owned(),
            trade_date: date.clone(),
            price: UnitPrice::Stated(amount.value.abs()),
            units: FloatBits { bits: ONE },
            amount: Amount { value: amount.value.abs(), two_places: amount.two_places.clone() },
            currency: currency.to_owned(),
            description: describe(tx),
            fee: FloatBits { bits: 0 },
            symbol: None,
            needs_review: false,
        },
    )
}

// ── History ──────────────────────────────────────────────────────────────────

/// How many transactions are asked for at first.
pub const INITIAL_BATCH: u64 = 200;

/// How many transactions are asked for at most.
pub const MAX_BATCH: u64 = 5000;

/// Whether a transaction is not from a day after the last one asked for.
pub open spec fn is_within_until(tx: WoobTransaction, until: Option<Seq<char>>) -> bool {
    match (tx.date, until) {
        (Some(date), Some(until)) => !text_below(until, date@),
        _ => true,
    }
}

/// Whether a transaction is not from a day before the first one asked for.
pub open spec fn is_within_since(tx: WoobTransaction, since: Option<Seq<char>>) -> bool {
    match (tx.date, since) {
        (Some(date), Some(since)) => !text_below(date@, since),
        _ => true,
    }
}

/// The transactions up to the last day asked for.
pub open spec fn up_to(transactions: Seq<WoobTransaction>, until: Option<Seq<char>>) -> Seq<
    WoobTransaction,
> {
    transactions.filter(|tx: WoobTransaction| is_within_until(tx, until))
}

/// The transactions from the first day asked for on.
pub open spec fn from_day(transactions: Seq<WoobTransaction>, since: Option<Seq<char>>) -> Seq<
    WoobTransaction,
> {
    transactions.filter(|tx: WoobTransaction| is_within_since(tx, since))
}

/// The earliest date among transactions.
pub open spec fn earliest_date(transactions: Seq<WoobTransaction>) -> Option<Seq<char>>
    decreases transactions.len(),
{
    if transactions.len() == 0 {
        None
    } else {
        match (earliest_date(transactions.drop_last()), transactions.last().date) {
            (Some(earliest), Some(date)) => if text_below(date@, earliest) {
                Some(date@)
            } else {
                Some(earliest)
            },
            (None, Some(date)) => Some(date@),
            (earliest, None) => earliest,
        }
    }
}

/// The latest date among transactions.
pub open spec fn latest_date(transactions: Seq<WoobTransaction>) -> Option<Seq<char>>
    decreases transactions.len(),
{
    if transactions.len() == 0 {
        None
    } else {
        match (latest_date(transactions.drop_last()), transactions.last().date) {
            (Some(latest), Some(date)) => if text_below(date@, latest) {
                Some(latest)
            } else {
                Some(date@)
            },
            (None, Some(date)) => Some(date@),
            (latest, None) => latest,
        }
    }
}

/// Whether a batch goes back far enough: to a day before the first one asked
/// for, so that nothing of that day can be missing.
pub open spec fn goes_back_far_enough(
    transactions: Seq<WoobTransaction>,
    since: Option<Seq<char>>,
) -> bool {
    match (earliest_date(transactions), since) {
        (Some(earliest), Some(since)) => text_below(earliest, since),
        (None, Some(_)) => false,
        (_, None) => true,
    }
}

/// What to do with a batch of the history.
#[derive(Debug)]
pub enum HistoryStep {
    /// These are the transactions in range.
    Done(Vec<WoobTransaction>),
    /// The history goes back further: this many are to be asked for.
    Retry(u64),
}

/// Whether a batch ends the fetching of a history.
pub open spec fn is_last_batch(
    batch: u64,
    transactions: Seq<WoobTransaction>,
    since: Option<Seq<char>>,
    until: Option<Seq<char>>,
) -> bool {
    ||| goes_back_far_enough(up_to(transactions, until), since)
    ||| transactions.len() < batch
    ||| batch >= MAX_BATCH
}

/// What follows a batch: three times as many, up to the most there are.
pub open spec fn next_batch(batch: u64) -> int {
    if batch * 3 < MAX_BATCH {
        batch * 3
    } else {
        MAX_BATCH as int
    }
}

/// The batch that follows is three times as large, and never larger than five
/// thousand.
pub proof fn law_batches_grow(batch: u64)
    ensures
        batch * 3 <= 5000 ==> next_batch(batch) == batch * 3,
        batch * 3 > 5000 ==> next_batch(batch) == 5000,
{
}

fn keep_up_to(transactions: Vec<WoobTransaction>, until: &Option<String>) -> (kept: Vec<
    WoobTransaction,
>)
    ensures
        kept@ == up_to(transactions@, optional_text(*until)),
{
    let ghost every = transactions@;
    let mut kept: Vec<WoobTransaction> = Vec::new();
    proof {
        reveal(Seq::filter);
        assert(up_to(every.take(0), optional_text(*until)) =~= Seq::empty());
    }
    for tx in it: transactions.into_iter()
        invariant
            it.seq() == every,
            kept@ == up_to(every.take(it.index() as int), optional_text(*until)),
    {
        let is_kept = match (&tx.date, until) {
            (Some(date), Some(until)) => !is_text_below(until.as_str(), date.as_str()),
            _ => true,
        };
        proof {
            reveal(Seq::filter);
            let now = every.take(it.index() + 1);
            assert(now.drop_last() =~= every.take(it.index() as int));
            assert(now.last() == tx);
        }
        if is_kept {
            kept.push(tx);
        }
    }
    assert(every.take(every.len() as int) =~= every);
    kept
}

fn keep_from(transactions: Vec<WoobTransaction>, since: &Option<String>) -> (kept: Vec<
    WoobTransaction,
>)
    ensures
        kept@ == from_day(transactions@, optional_text(*since)),
{
    let ghost every = transactions@;
    let mut kept: Vec<WoobTransaction> = Vec::new();
    proof {
        reveal(Seq::filter);
        assert(from_day(every.take(0), optional_text(*since)) =~= Seq::empty());
    }
    for tx in it: transactions.into_iter()
        invariant
            it.seq() == every,
            kept@ == from_day(every.take(it.index() as int), optional_text(*since)),
    {
        let is_kept = match (&tx.date, since) {
            (Some(date), Some(since)) => !is_text_below(date.as_str(), since.as_str()),
            _ => true,
        };
        proof {
            reveal(Seq::filter);
            let now = every.take(it.index() + 1);
            assert(now.drop_last() =~= every.take(it.index() as int));
            assert(now.last() == tx);
        }
        if is_kept {
            kept.push(tx);
        }
    }
    assert(every.take(every.len() as int) =~= every);
    kept
}

fn find_earliest(transactions: &Vec<WoobTransaction>) -> (earliest: Option<String>)
    ensures
        optional_text(earliest) == earliest_date(transactions@),
{
    let mut earliest: Option<String> = None;
    for i in 0..transactions.len()
        invariant
            optional_text(earliest) == earliest_date(transactions@.take(i as int)),
    {
        proof {
            assert(transactions@.take(i + 1).drop_last() =~= transactions@.take(i as int));
        }
        match &transactions[i].date {
            Some(date) => {
                let is_earlier = match &earliest {
                    Some(before) => is_text_below(date.as_str(), before.as_str()),
                    None => true,
                };
                if is_earlier {
                    earliest = Some(date.clone());
                }
            },
            None => {},
        }
    }
    assert(transactions@.take(transactions@.len() as int) =~= transactions@);
    earliest
}

/// The latest date among transactions.
pub fn latest_transaction_date(transactions: &Vec<WoobTransaction>) -> (latest: Option<String>)
    ensures
        optional_text(latest) == latest_date(transactions@),
        match latest {
            Some(found) => (exists|k: int|
                0 <= k < transactions@.len() && (#[trigger] transactions@[k]).date is Some
                    && transactions@[k].date->0@ == found@) && (forall|k: int|
                0 <= k < transactions@.len() && (#[trigger] transactions@[k]).date is Some
                    ==> !text_below(found@, transactions@[k].date->0@)),
            None => forall|k: int|
                0 <= k < transactions@.len() ==> (#[trigger] transactions@[k]).date is None,
        },
{
    proof {
        law_latest_date(transactions@);
    }
    let mut latest: Option<String> = None;
    for i in 0..transactions.len()
        invariant
            optional_text(latest) == latest_date(transactions@.take(i as int)),
    {
        proof {
            assert(transactions@.take(i + 1).drop_last() =~= transactions@.take(i as int));
        }
        match &transactions[i].date {
            Some(date) => {
                let is_later = match &latest {
                    Some(before) => !is_text_below(date.as_str(), before.as_str()),
                    None => true,
                };
                if is_later {
                    latest = Some(date.clone());
                }
            },
            None => {},
        }
    }
    assert(transactions@.take(transactions@.len() as int) =~= transactions@);
    latest
}

/// What to do with a batch of the history: fetching ends once the batch goes
/// back far enough, once the bank has no more, or once as many were asked for as
/// there may be; until then three times as many are asked for.
pub fn history_step(
    batch: u64,
    transactions: Vec<WoobTransaction>,
    since: &Option<String>,
    until: &Option<String>,
) -> (step: HistoryStep)
    ensures
        match step {
            HistoryStep::Done(found) => is_last_batch(
                batch,
                transactions@,
                optional_text(*since),
                optional_text(*until),
            ) && found@ == from_day(
                up_to(transactions@, optional_text(*until)),
                optional_text(*since),
            ),
            HistoryStep::Retry(next) => !is_last_batch(
                batch,
                transactions@,
                optional_text(*since),
                optional_text(*until),
            ) && next == next_batch(batch),
        },
        step matches HistoryStep::Retry(next) ==> batch > 0 ==> batch < next <= MAX_BATCH,
        step is Done <==> since is None || transactions@.len() < batch || batch >= 5000
            || (exists|i: int|
                0 <= i < transactions@.len() && (#[trigger] transactions@[i]).date is Some && (until
                    is Some ==> !text_below(until->0@, transactions@[i].date->0@)) && text_below(
                    transactions@[i].date->0@,
                    since->0@,
                )),
        step matches HistoryStep::Done(found) ==> exists|positions: Seq<int>| #[trigger]
            are_positions(positions, transactions@.len() as int) && positions.len()
                == found@.len() && (forall|k: int|
                0 <= k < positions.len() ==> found@[k] == transactions@[#[trigger] positions[k]])
                && (forall|i: int|
                0 <= i < transactions@.len() ==> (positions.contains(i)
                    <==> (((#[trigger] transactions@[i]).date is Some && until is Some)
                    ==> !text_below(until->0@, transactions@[i].date->0@))
                    && ((transactions@[i].date is Some && since is Some)
                    ==> !text_below(transactions@[i].date->0@, since->0@)))),
        step matches HistoryStep::Retry(next) ==> next == 5000 || (next == 3 * batch
            && next < 5000),
{
    proof {
        let positions = law_history_is_all_in_range(
            transactions@,
            optional_text(*since),
            optional_text(*until),
        );
        law_batch_reaches_before_the_first_day(
            transactions@,
            optional_text(*since),
            optional_text(*until),
        );
    }
    let fetched: u64 = transactions.len() as u64;
    let within = keep_up_to(transactions, until);
    let reached_since = match (find_earliest(&within), since) {
        (Some(earliest), Some(since)) => is_text_below(earliest.as_str(), since.as_str()),
        (None, Some(_)) => false,
        (_, None) => true,
    };
    if reached_since || fetched < batch || batch >= MAX_BATCH {
        HistoryStep::Done(keep_from(within, since))
    } else if batch * 3 < MAX_BATCH {
        HistoryStep::Retry(batch * 3)
    } else {
        HistoryStep::Retry(MAX_BATCH)
    }
}

// ── Importing ────────────────────────────────────────────────────────────────

/// An activity that an account has already.
#[derive(Debug)]
pub struct ExistingActivity {
    pub source_system: Option<String>,
    pub activity_type: String,
    pub activity_date: Timestamp,
    pub amount: Option<Decimal>,
}

/// What tells that two activities are the same, wherever they come from.
#[derive(Debug)]
pub struct Fingerprint {
    pub activity_type: String,
    pub date: String,
    pub amount: String,
}

pub ghost struct FingerprintView {
    pub activity_type: Seq<char>,
    pub date: Seq<char>,
    pub amount: Seq<char>,
}

impl View for Fingerprint {
    type V = FingerprintView;

    open spec fn view(&self) -> FingerprintView {
        FingerprintView {
            activity_type: self.activity_type@,
            date: self.date@,
            amount: self.amount@,
        }
    }
}

/// The views of a list of fingerprints.
pub open spec fn fingerprint_views(fingerprints: Seq<Fingerprint>) -> Seq<FingerprintView> {
    fingerprints.map_values(|fingerprint: Fingerprint| fingerprint@)
}

/// What tells an activity that the account has already: nothing for one that
/// came from Woob, which is known by its identifier, nor for one without an
/// amount.
pub open spec fn fingerprint_of(activity: ExistingActivity) -> Option<FingerprintView> {
    let moment = moment_text(activity.activity_date.seconds, activity.activity_date.nanos);
    match (activity.amount, moment) {
        (Some(amount), Some(moment)) => match byte_prefix(moment, 10) {
            Some(date) => if optional_text(activity.source_system) == Some("WOOB"@) {
                None
            } else {
                Some(
                    FingerprintView {
                        activity_type: activity.activity_type@,
                        date,
                        amount: decimal_text_two_places(amount),
                    },
                )
            },
            None => None,
        },
        _ => None,
    }
}

/// What tells the activities that the account has already.
pub open spec fn fingerprints_of(existing: Seq<ExistingActivity>) -> Seq<FingerprintView>
    decreases existing.len(),
{
    if existing.len() == 0 {
        Seq::empty()
    } else {
        match fingerprint_of(existing.last()) {
            Some(fingerprint) => fingerprints_of(existing.drop_last()).push(fingerprint),
            None => fingerprints_of(existing.drop_last()),
        }
    }
}

fn fingerprint(activity: &ExistingActivity) -> (fingerprint: Option<Fingerprint>)
    ensures
        match fingerprint {
            Some(found) => fingerprint_of(*activity) == Some(found@),
            None => fingerprint_of(*activity) is None,
        },
{
    let is_own = match &activity.source_system {
        Some(system) => same_text(system.as_str(), "WOOB"),
        None => false,
    };
    if is_own {
        return None;
    }
    match (activity.amount, print_moment(activity.activity_date)) {
        (Some(amount), Some(moment)) => match prefix_of_bytes(moment.as_str(), 10) {
            Some(date) => Some(
                Fingerprint {
                    activity_type: activity.activity_type.clone(),
                    date,
                    amount: print_decimal_two_places(amount),
                },
            ),
            None => None,
        },
        _ => None,
    }
}

/// What tells the activities that the account has already.
pub fn existing_fingerprints(existing: &Vec<ExistingActivity>) -> (fingerprints: Vec<Fingerprint>)
    ensures
        fingerprint_views(fingerprints@) == fingerprints_of(existing@),
{
    let mut fingerprints: Vec<Fingerprint> = Vec::new();
    assert(fingerprint_views(fingerprints@) =~= fingerprints_of(existing@.take(0)));
    for i in 0..existing.len()
        invariant
            fingerprint_views(fingerprints@) == fingerprints_of(existing@.take(i as int)),
    {
        let ghost before = fingerprints@;
        assert(existing@.take(i + 1).drop_last() =~= existing@.take(i as int));
        match fingerprint(&existing[i]) {
            Some(found) => {
                fingerprints.push(found);
                assert(fingerprint_views(fingerprints@) =~= fingerprint_views(before).push(
                    found@,
                ));
            },
            None => {},
        }
    }
    assert(existing@.take(existing@.len() as int) =~= existing@);
    fingerprints
}

/// The day of a date: its first ten bytes, or all of it where they are not
/// there.
pub open spec fn day_of(date: Seq<char>) -> Seq<char> {
    match byte_prefix(date, 10) {
        Some(day) => day,
        None => date,
    }
}

fn day_text(date: &String) -> (day: String)
    ensures
        day@ == day_of(date@),
{
    match prefix_of_bytes(date.as_str(), 10) {
        Some(day) => day,
        None => date.clone(),
    }
}

/// Whether an activity is one that the account has already: of the same type,
/// from the same day, with the same amount.
pub open spec fn is_known(activity: UniversalActivityView, known: Seq<FingerprintView>) -> bool {
    known.contains(
        FingerprintView {
            activity_type: activity.activity_type,
            date: day_of(activity.trade_date),
            amount: activity.two_places,
        },
    )
}

fn is_known_activity(activity: &UniversalActivity, known: &Vec<Fingerprint>) -> (r: bool)
    ensures
        r == is_known(activity@, fingerprint_views(known@)),
{
    let day = day_text(&activity.trade_date);
    let ghost views = fingerprint_views(known@);
    let ghost wanted = FingerprintView {
        activity_type: activity@.activity_type,
        date: day@,
        amount: activity@.two_places,
    };
    for i in 0..known.len()
        invariant
            views == fingerprint_views(known@),
            day@ == day_of(activity@.trade_date),
            wanted == (FingerprintView {
                activity_type: activity@.activity_type,
                date: day@,
                amount: activity@.two_places,
            }),
            forall|k: int| 0 <= k < i ==> views[k] != wanted,
    {
        assert(views[i as int] == known@[i as int]@);
        if known[i].activity_type == activity.activity_type && known[i].date == day
            && known[i].amount == activity.amount.two_places {
            assert(views[i as int] == wanted);
            return true;
        }
    }
    false
}

/// The activities of transactions.
pub open spec fn activities_of(transactions: Seq<WoobTransaction>, currency: Seq<char>) -> Seq<
    UniversalActivityView,
>
    decreases transactions.len(),
{
    if transactions.len() == 0 {
        Seq::empty()
    } else {
        match activity_of(transactions.last(), currency) {
            Some(activity) => activities_of(transactions.drop_last(), currency).push(activity),
            None => activities_of(transactions.drop_last(), currency),
        }
    }
}

/// The activities that the account does not have yet.
pub open spec fn new_activities(
    activities: Seq<UniversalActivityView>,
    known: Seq<FingerprintView>,
) -> Seq<UniversalActivityView> {
    activities.filter(|activity: UniversalActivityView| !is_known(activity, known))
}

/// Whether an activity is an order on a market.
pub open spec fn is_order(activity: UniversalActivityView) -> bool {
    activity.activity_type == "BUY"@ || activity.activity_type == "SELL"@
}

/// Whether an activity is a movement of cash.
pub open spec fn is_cash(activity: UniversalActivityView) -> bool {
    activity.activity_type == "DEPOSIT"@ || activity.activity_type == "WITHDRAWAL"@
}

/// Whether a movement of cash is what an order costs or brings: of the same
/// day, with the same amount.
pub open spec fn is_paid_by(order: UniversalActivityView, cash: UniversalActivityView) -> bool {
    is_order(order) && is_cash(cash) && byte_prefix(order.trade_date, 10) == Some(
        day_of(cash.trade_date),
    ) && order.two_places == cash.two_places
}

/// Whether an activity is the movement of cash behind one of the orders.
pub open spec fn is_counterpart(
    activity: UniversalActivityView,
    activities: Seq<UniversalActivityView>,
) -> bool {
    exists|k: int| 0 <= k < activities.len() && is_paid_by(#[trigger] activities[k], activity)
}

/// The activities without the movements of cash behind the orders.
pub open spec fn without_counterparts(activities: Seq<UniversalActivityView>) -> Seq<
    UniversalActivityView,
> {
    activities.filter(|activity: UniversalActivityView| !is_counterpart(activity, activities))
}

/// The activities that are to be imported: those that the account does not have
/// yet, without the movements of cash behind the orders among them.
pub open spec fn imported_of(
    transactions: Seq<WoobTransaction>,
    currency: Seq<char>,
    known: Seq<FingerprintView>,
) -> Seq<UniversalActivityView> {
    without_counterparts(new_activities(activities_of(transactions, currency), known))
}

/// What is to be imported of a batch of transactions.
#[derive(Debug)]
pub struct ImportPlan {
    pub activities: Vec<UniversalActivity>,
    pub skipped: usize,
    pub latest_transaction_date: Option<String>,
}

fn new_activities_from(
    transactions: &Vec<WoobTransaction>,
    currency: &str,
    known: &Vec<Fingerprint>,
) -> (activities: Vec<UniversalActivity>)
    ensures
        activity_views(activities@) == new_activities(
            activities_of(transactions@, currency@),
            fingerprint_views(known@),
        ),
        activities@.len() <= transactions@.len(),
{
    let ghost seen = fingerprint_views(known@);
    let mut activities: Vec<UniversalActivity> = Vec::new();
    proof {
        reveal(Seq::filter);
        assert(activity_views(activities@) =~= new_activities(
            activities_of(transactions@.take(0), currency@),
            seen,
        ));
    }
    for i in 0..transactions.len()
        invariant
            seen == fingerprint_views(known@),
            activities@.len() <= i,
            activity_views(activities@) == new_activities(
                activities_of(transactions@.take(i as int), currency@),
                seen,
            ),
    {
        let ghost before = activities@;
        let ghost mapped = activities_of(transactions@.take(i as int), currency@);
        proof {
            assert(transactions@.take(i + 1).drop_last() =~= transactions@.take(i as int));
        }
        match map_woob_transaction(&transactions[i], currency) {
            Some(activity) => {
                proof {
                    reveal(Seq::filter);
                    assert(mapped.push(activity@).drop_last() =~= mapped);
                }
                if !is_known_activity(&activity, known) {
                    activities.push(activity);
                    assert(activity_views(activities@) =~= activity_views(before).push(activity@));
                }
            },
            None => {},
        }
    }
    assert(transactions@.take(transactions@.len() as int) =~= transactions@);
    activities
}

fn has_type(activity: &UniversalActivity, first: &str, second: &str) -> (r: bool)
    ensures
        r == (activity@.activity_type == first@ || activity@.activity_type == second@),
{
    same_text(activity.activity_type.as_str(), first) || same_text(
        activity.activity_type.as_str(),
        second,
    )
}

fn is_counterpart_of(activity: &UniversalActivity, activities: &Vec<UniversalActivity>) -> (r: bool)
    ensures
        r == is_counterpart(activity@, activity_views(activities@)),
{
    let ghost views = activity_views(activities@);
    if !has_type(activity, "DEPOSIT", "WITHDRAWAL") {
        return false;
    }
    let day = day_text(&activity.trade_date);
    for k in 0..activities.len()
        invariant
            views == activity_views(activities@),
            is_cash(activity@),
            day@ == day_of(activity@.trade_date),
            forall|j: int| 0 <= j < k ==> !is_paid_by(#[trigger] views[j], activity@),
    {
        let order = &activities[k];
        assert(views[k as int] == order@);
        if has_type(order, "BUY", "SELL") && order.amount.two_places
            == activity.amount.two_places {
            match prefix_of_bytes(order.trade_date.as_str(), 10) {
                Some(order_day) => {
                    if order_day == day {
                        assert(is_paid_by(views[k as int], activity@));
                        return true;
                    }
                },
                None => {},
            }
        }
    }
    false
}

proof fn lemma_plan_is_of_transactions(
    transactions: Seq<WoobTransaction>,
    currency: Seq<char>,
    known: Seq<Fingerprint>,
    activities: Seq<UniversalActivity>,
)
    requires
        activity_views(activities) == imported_of(transactions, currency, fingerprint_views(known)),
    ensures
        forall|j: int, k: int|
            0 <= j < activities.len() && 0 <= k < activities.len() && (
            (#[trigger] activities[j]).activity_type@ == "DEPOSIT"@
                || activities[j].activity_type@ == "WITHDRAWAL"@) && (
            (#[trigger] activities[k]).activity_type@ == "BUY"@
                || activities[k].activity_type@ == "SELL"@)
                && activities[j].amount.two_places@ == activities[k].amount.two_places@
                && byte_prefix(activities[k].trade_date@, 10) is Some
                    ==> !(byte_prefix(activities[j].trade_date@, 10)
                    == Some(byte_prefix(activities[k].trade_date@, 10)->0)
                    || (byte_prefix(activities[j].trade_date@, 10) is None
                    && activities[j].trade_date@ == byte_prefix(activities[k].trade_date@, 10)->0)),
        exists|positions: Seq<int>| #[trigger]
            are_positions(positions, transactions.len() as int) && positions.len()
                == activities.len() && (forall|k: int|
                0 <= k < positions.len() ==> is_import_of(
                    activities[k],
                    transactions[#[trigger] positions[k]],
                    currency,
                )),
        forall|k: int, f: int|
            0 <= k < activities.len() && 0 <= f < known.len() && (
            #[trigger] known[f]).activity_type@ == (
            #[trigger] activities[k]).activity_type@ && known[f].amount@
                == activities[k].amount.two_places@ ==> !(byte_prefix(activities[k].trade_date@,
                    10) == Some(known[f].date@) || (byte_prefix(activities[k].trade_date@,
                    10) is None && activities[k].trade_date@ == known[f].date@)),
{
    let views = fingerprint_views(known);
    let kept = imported_of(transactions, currency, views);
    let positions = law_every_transaction_is_imported(transactions, currency, views);
    assert forall|k: int| 0 <= k < activities.len() implies kept[k]
        == (#[trigger] activities[k])@ by {
        assert(activity_views(activities)[k] == activities[k]@);
    }
    assert forall|k: int| 0 <= k < positions.len() implies is_import_of(
        activities[k],
        transactions[#[trigger] positions[k]],
        currency,
    ) by {
        law_transaction_is_mapped(transactions[positions[k]], currency);
        assert(kept[k] == activities[k]@);
    }
    assert forall|j: int, k: int|
        0 <= j < activities.len() && 0 <= k < activities.len() implies !is_cash_of(
        (#[trigger] activities[j])@,
        (#[trigger] activities[k])@,
    ) by {
        assert(!is_cash_of(kept[j], kept[k]));
    }
    assert forall|k: int, f: int|
        0 <= k < activities.len() && 0 <= f < known.len() && (#[trigger] known[f]).activity_type@
            == (#[trigger] activities[k]).activity_type@ && known[f].amount@
            == activities[k].amount.two_places@ implies !(byte_prefix(activities[k].trade_date@,
                10) == Some(known[f].date@) || (byte_prefix(activities[k].trade_date@, 10) is None
                && activities[k].trade_date@ == known[f].date@)) by {
        assert(0 <= positions[k]);
        assert(!is_recorded(kept[k], views));
        assert(views[f] == known[f]@);
        assert(kept[k] == activities[k]@);
    }
}

/// What is to be imported of a batch of transactions, given what tells the
/// activities that the account has already.
pub fn plan_import(
    transactions: &Vec<WoobTransaction>,
    currency: &str,
    known: &Vec<Fingerprint>,
) -> (plan: ImportPlan)
    ensures
        activity_views(plan.activities@) == imported_of(
            transactions@,
            currency@,
            fingerprint_views(known@),
        ),
        plan.activities@.len() + plan.skipped == transactions@.len(),
        optional_text(plan.latest_transaction_date) == latest_date(transactions@),
        forall|j: int, k: int|
            0 <= j < plan.activities@.len() && 0 <= k < plan.activities@.len() && (
            (#[trigger] plan.activities@[j]).activity_type@ == "DEPOSIT"@
                || plan.activities@[j].activity_type@ == "WITHDRAWAL"@) && (
            (#[trigger] plan.activities@[k]).activity_type@ == "BUY"@
                || plan.activities@[k].activity_type@ == "SELL"@)
                && plan.activities@[j].amount.two_places@ == plan.activities@[k].amount.two_places@
                && byte_prefix(plan.activities@[k].trade_date@, 10) is Some
                    ==> !(byte_prefix(plan.activities@[j].trade_date@, 10)
                    == Some(byte_prefix(plan.activities@[k].trade_date@, 10)->0)
                    || (byte_prefix(plan.activities@[j].trade_date@, 10) is None
                    && plan.activities@[j].trade_date@
                    == byte_prefix(plan.activities@[k].trade_date@, 10)->0)),
        exists|positions: Seq<int>| #[trigger]
            are_positions(positions, transactions@.len() as int) && positions.len()
                == plan.activities@.len() && (forall|k: int|
                0 <= k < positions.len() ==> is_import_of(
                    plan.activities@[k],
                    transactions@[#[trigger] positions[k]],
                    currency@,
                )),
        forall|k: int, f: int|
            0 <= k < plan.activities@.len() && 0 <= f < known@.len() && (
            #[trigger] known@[f]).activity_type@ == (
            #[trigger] plan.activities@[k]).activity_type@ && known@[f].amount@
                == plan.activities@[k].amount.two_places@
                    ==> !(byte_prefix(plan.activities@[k].trade_date@, 10) == Some(known@[f].date@)
                    || (byte_prefix(plan.activities@[k].trade_date@, 10) is None
                    && plan.activities@[k].trade_date@ == known@[f].date@)),
{
    let latest = latest_transaction_date(transactions);
    let fresh = new_activities_from(transactions, currency, known);
    let ghost views = activity_views(fresh@);
    let mut dropped: Vec<bool> = Vec::new();
    for i in 0..fresh.len()
        invariant
            views == activity_views(fresh@),
            dropped@.len() == i,
            forall|k: int|
                0 <= k < i ==> (#[trigger] dropped@[k]) == is_counterpart(views[k], views),
    {
        assert(views[i as int] == fresh@[i as int]@);
        dropped.push(is_counterpart_of(&fresh[i], &fresh));
    }
    let ghost each = fresh@;
    let mut activities: Vec<UniversalActivity> = Vec::new();
    let ghost is_kept = |activity: UniversalActivityView| !is_counterpart(activity, views);
    let count: usize = fresh.len();
    let mut i: usize = 0;
    proof {
        reveal(Seq::filter);
        assert(activity_views(activities@) =~= views.take(0).filter(is_kept));
    }
    for activity in it: fresh.into_iter()
        invariant
            it.seq() == each,
            i == it.index(),
            count == each.len(),
            views == activity_views(each),
            dropped@.len() == each.len(),
            is_kept == (|activity: UniversalActivityView| !is_counterpart(activity, views)),
            forall|k: int|
                0 <= k < each.len() ==> (#[trigger] dropped@[k]) == is_counterpart(views[k], views),
            activities@.len() <= i,
            activity_views(activities@) == views.take(i as int).filter(is_kept),
    {
        let ghost before = activities@;
        proof {
            reveal(Seq::filter);
            assert(views.take(i + 1).drop_last() =~= views.take(i as int));
            assert(views[i as int] == activity@);
            assert(dropped@[i as int] == is_counterpart(views[i as int], views));
        }
        if !dropped[i] {
            activities.push(activity);
            assert(activity_views(activities@) =~= activity_views(before).push(activity@));
        }
        i = i + 1;
    }
    assert(views.take(views.len() as int) =~= views);
    let skipped: usize = transactions.len() - activities.len();
    proof {
        lemma_plan_is_of_transactions(transactions@, currency@, known@, activities@);
    }
    ImportPlan { activities, skipped, latest_transaction_date: latest }
}

/// What is to be imported of a batch of transactions, given the activities that
/// the account has already.
pub fn plan_sync(
    transactions: &Vec<WoobTransaction>,
    currency: &str,
    existing: &Vec<ExistingActivity>,
) -> (plan: ImportPlan)
    ensures
        activity_views(plan.activities@) == imported_of(
            transactions@,
            currency@,
            fingerprints_of(existing@),
        ),
        plan.activities@.len() + plan.skipped == transactions@.len(),
        optional_text(plan.latest_transaction_date) == latest_date(transactions@),
        forall|j: int, k: int|
            0 <= j < plan.activities@.len() && 0 <= k < plan.activities@.len() && (
            (#[trigger] plan.activities@[j]).activity_type@ == "DEPOSIT"@
                || plan.activities@[j].activity_type@ == "WITHDRAWAL"@) && (
            (#[trigger] plan.activities@[k]).activity_type@ == "BUY"@
                || plan.activities@[k].activity_type@ == "SELL"@)
                && plan.activities@[j].amount.two_places@ == plan.activities@[k].amount.two_places@
                && byte_prefix(plan.activities@[k].trade_date@, 10) is Some
                    ==> !(byte_prefix(plan.activities@[j].trade_date@, 10)
                    == Some(byte_prefix(plan.activities@[k].trade_date@, 10)->0)
                    || (byte_prefix(plan.activities@[j].trade_date@, 10) is None
                    && plan.activities@[j].trade_date@
                    == byte_prefix(plan.activities@[k].trade_date@, 10)->0)),
        exists|positions: Seq<int>| #[trigger]
            are_positions(positions, transactions@.len() as int) && positions.len()
                == plan.activities@.len() && (forall|k: int|
                0 <= k < positions.len() ==> is_import_of(
                    plan.activities@[k],
                    transactions@[#[trigger] positions[k]],
                    currency@,
                )),
{
    plan_import(transactions, currency, &existing_fingerprints(existing))
}

/// What came of a synchronisation.
#[derive(Debug)]
pub struct BankSyncResult {
    pub wf_account_id: String,
    pub transactions_imported: usize,
    pub transactions_skipped: usize,
    /// The date of the most recent transaction in the batch, from which the next
    /// synchronisation starts.
    pub latest_transaction_date: Option<String>,
}

/// What came of a synchronisation, from its plan and the number of activities
/// that were imported.
pub fn sync_result(wf_account_id: String, plan: &ImportPlan, imported: usize) -> (result:
    BankSyncResult)
    ensures
        result.wf_account_id == wf_account_id,
        result.transactions_imported == imported,
        result.transactions_skipped == plan.skipped,
        optional_text(result.latest_transaction_date)
            == optional_text(plan.latest_transaction_date),
{
    BankSyncResult {
        wf_account_id,
        transactions_imported: imported,
        transactions_skipped: plan.skipped,
        latest_transaction_date: copy_text(&plan.latest_transaction_date),
    }
}

proof fn lemma_mapped_positions(transactions: Seq<WoobTransaction>,
    currency: Seq<char>) -> (positions:
    Seq<int>)
    ensures
        are_positions(positions, transactions.len() as int),
        positions.len() == activities_of(transactions, currency).len(),
        forall|k: int|
            0 <= k < positions.len() ==> activity_of(
                transactions[#[trigger] positions[k]],
                currency,
            ) == Some(activities_of(transactions, currency)[k]),
        forall|i: int|
            0 <= i < transactions.len() && activity_of(#[trigger] transactions[i], currency)
                is Some ==> positions.contains(i),
    decreases transactions.len(),
{
    if transactions.len() == 0 {
        Seq::empty()
    } else {
        let fewer = transactions.drop_last();
        let last = transactions.len() - 1;
        let before = lemma_mapped_positions(fewer, currency);
        let positions = if activity_of(transactions.last(), currency) is Some {
            before.push(last)
        } else {
            before
        };
        assert forall|k: int| 0 <= k < positions.len() implies activity_of(
            transactions[#[trigger] positions[k]],
            currency,
        ) == Some(activities_of(transactions, currency)[k]) by {
            if k < before.len() {
                assert(positions[k] == before[k]);
                assert(fewer[before[k]] == transactions[before[k]]);
            }
        }
        assert forall|i: int|
            0 <= i < transactions.len() && activity_of(#[trigger] transactions[i], currency)
                is Some implies positions.contains(i) by {
            if i < last {
                assert(fewer[i] == transactions[i]);
                let k = choose|k: int| 0 <= k < before.len() && before[k] == i;
                assert(positions[k] == i);
            } else {
                assert(positions[positions.len() - 1] == i);
            }
        }
        assert forall|j: int, k: int| 0 <= j < k < positions.len() implies #[trigger] positions[j]
            < #[trigger] positions[k] by {
            assert(positions[j] == before[j]);
            if k < before.len() {
                assert(positions[k] == before[k]);
            }
        }
        positions
    }
}

/// Whether an activity has the type, the day and the amount, to two places, of
/// one that the account has already.
pub open spec fn is_recorded(activity: UniversalActivityView, known: Seq<FingerprintView>) -> bool {
    exists|f: int|
        0 <= f < known.len() && (#[trigger] known[f]).activity_type == activity.activity_type
            && known[f].amount == activity.two_places && (byte_prefix(activity.trade_date, 10)
                == Some(known[f].date) || (byte_prefix(activity.trade_date, 10) is None
                && activity.trade_date == known[f].date))
}

/// Whether an activity is a deposit or a withdrawal on the day of another, a
/// purchase or a sale, and of the same amount to two places.
pub open spec fn is_cash_of(activity: UniversalActivityView, order: UniversalActivityView) -> bool {
    &&& (activity.activity_type == "DEPOSIT"@ || activity.activity_type == "WITHDRAWAL"@)
    &&& (order.activity_type == "BUY"@ || order.activity_type == "SELL"@)
    &&& activity.two_places == order.two_places
    &&& byte_prefix(order.trade_date, 10) is Some
    &&& (byte_prefix(activity.trade_date, 10) == Some(byte_prefix(order.trade_date, 10)->0)
        || (byte_prefix(activity.trade_date, 10) is None && activity.trade_date
        == byte_prefix(order.trade_date, 10)->0))
}

/// What is imported are the transactions, each once and in their order, but for
/// those that say nothing, those that the account has already, and the cash
/// behind the orders that are imported.
pub proof fn law_every_transaction_is_imported(
    transactions: Seq<WoobTransaction>,
    currency: Seq<char>,
    known: Seq<FingerprintView>,
) -> (positions: Seq<int>)
    ensures
        are_positions(positions, transactions.len() as int),
        positions.len() == imported_of(transactions, currency, known).len(),
        forall|k: int|
            0 <= k < positions.len() ==> activity_of(
                transactions[#[trigger] positions[k]],
                currency,
            ) == Some(imported_of(transactions, currency, known)[k]) && !is_recorded(
                imported_of(transactions, currency, known)[k],
                known,
            ),
        forall|j: int, k: int|
            0 <= j < positions.len() && 0 <= k < positions.len() ==> !is_cash_of(
                #[trigger] imported_of(transactions, currency, known)[j],
                #[trigger] imported_of(transactions, currency, known)[k],
            ),
        forall|i: int|
            0 <= i < transactions.len() && !positions.contains(i) ==> match activity_of(
                #[trigger] transactions[i],
                currency,
            ) {
                None => true,
                Some(activity) => is_recorded(activity, known) || exists|k: int|
                    0 <= k < imported_of(transactions, currency, known).len() && is_cash_of(
                        activity,
                        #[trigger] imported_of(transactions, currency, known)[k],
                    ),
            },
{
    let mapped = activities_of(transactions, currency);
    let is_new = |activity: UniversalActivityView| !is_known(activity, known);
    let fresh = new_activities(mapped, known);
    let is_kept = |activity: UniversalActivityView| !is_counterpart(activity, fresh);
    let kept = imported_of(transactions, currency, known);
    let first = lemma_mapped_positions(transactions, currency);
    let second = lemma_kept_positions(mapped, is_new);
    let third = lemma_kept_positions(fresh, is_kept);
    let between = lemma_positions_among(first, second, transactions.len() as int);
    let positions = lemma_positions_among(between, third, transactions.len() as int);
    lemma_types_differ();
    assert forall|activity: UniversalActivityView| #[trigger]
        is_known(activity, known) == is_recorded(activity, known) by {
        lemma_known_is_recorded(activity, known);
    }
    assert forall|k: int| 0 <= k < between.len() implies activity_of(
        transactions[#[trigger] between[k]],
        currency,
    ) == Some(fresh[k]) by {
        assert(fresh[k] == mapped[second[k]]);
        assert(between[k] == first[second[k]]);
        assert(activity_of(transactions[first[second[k]]], currency) == Some(mapped[second[k]]));
    }
    assert forall|k: int| 0 <= k < positions.len() implies activity_of(
        transactions[#[trigger] positions[k]],
        currency,
    ) == Some(kept[k]) && !is_recorded(kept[k], known) by {
        assert(kept[k] == fresh[third[k]]);
        assert(positions[k] == between[third[k]]);
        assert(activity_of(transactions[between[third[k]]], currency) == Some(fresh[third[k]]));
        assert(fresh[third[k]] == mapped[second[third[k]]]);
        assert(!is_known(fresh[third[k]], known));
    }
    assert forall|j: int, k: int|
        0 <= j < positions.len() && 0 <= k < positions.len() implies !is_cash_of(
        #[trigger] kept[j],
        #[trigger] kept[k],
    ) by {
        assert(kept[j] == fresh[third[j]] && kept[k] == fresh[third[k]]);
        assert(!is_counterpart(fresh[third[j]], fresh));
        assert(!is_paid_by(fresh[third[k]], fresh[third[j]]));
    }
    assert forall|i: int|
        0 <= i < transactions.len() && !positions.contains(i) implies match activity_of(
        #[trigger] transactions[i],
        currency,
    ) {
        None => true,
        Some(activity) => is_recorded(activity, known) || exists|k: int|
            0 <= k < kept.len() && is_cash_of(activity, #[trigger] kept[k]),
    } by {
        match activity_of(transactions[i], currency) {
            None => {},
            Some(activity) => {
                assert(first.contains(i));
                let m = choose|m: int| 0 <= m < first.len() && first[m] == i;
                assert(activity_of(transactions[first[m]], currency) == Some(mapped[m]));
                if is_new(mapped[m]) {
                    assert(second.contains(m));
                    let f = choose|f: int| 0 <= f < second.len() && second[f] == m;
                    assert(fresh[f] == mapped[second[f]]);
                    assert(between[f] == i);
                    if is_kept(fresh[f]) {
                        assert(third.contains(f));
                        let k = choose|k: int| 0 <= k < third.len() && third[k] == f;
                        assert(positions[k] == i);
                    } else {
                        let o = choose|o: int|
                            0 <= o < fresh.len() && is_paid_by(#[trigger] fresh[o], fresh[f]);
                        assert(!is_counterpart(fresh[o], fresh));
                        assert(is_kept(fresh[o]));
                        assert(third.contains(o));
                        let k = choose|k: int| 0 <= k < third.len() && third[k] == o;
                        assert(kept[k] == fresh[third[k]]);
                        assert(is_cash_of(activity, kept[k]));
                    }
                }
            },
        }
    }
    positions
}

proof fn lemma_known_is_recorded(activity: UniversalActivityView, known: Seq<FingerprintView>)
    ensures
        is_known(activity, known) == is_recorded(activity, known),
{
    let wanted = FingerprintView {
        activity_type: activity.activity_type,
        date: day_of(activity.trade_date),
        amount: activity.two_places,
    };
    if is_known(activity, known) {
        let f = choose|f: int| 0 <= f < known.len() && known[f] == wanted;
        assert(known[f].activity_type == activity.activity_type);
    }
    if is_recorded(activity, known) {
        let f = choose|f: int|
            0 <= f < known.len() && (#[trigger] known[f]).activity_type == activity.activity_type
                && known[f].amount == activity.two_places && (byte_prefix(activity.trade_date, 10)
                    == Some(known[f].date) || (byte_prefix(activity.trade_date, 10) is None
                    && activity.trade_date == known[f].date));
        assert(known[f] == wanted);
    }
}

/// No order is a movement of cash.
proof fn lemma_types_differ()
    ensures
        forall|activity: UniversalActivityView| #[trigger] is_order(activity)
            ==> !is_cash(activity),
{
    reveal_strlit("BUY");
    reveal_strlit("SELL");
    reveal_strlit("DEPOSIT");
    reveal_strlit("WITHDRAWAL");
    assert("BUY"@.len() == 3 && "SELL"@.len() == 4 && "DEPOSIT"@.len() == 7 && "WITHDRAWAL"@.len()
        == 10);
}

/// Nothing is imported that the account has already.
pub proof fn law_nothing_known_is_imported(
    transactions: Seq<WoobTransaction>,
    currency: Seq<char>,
    known: Seq<FingerprintView>,
    k: int,
)
    requires
        0 <= k < imported_of(transactions, currency, known).len(),
    ensures
        !is_known(imported_of(transactions, currency, known)[k], known),
{
    let mapped = activities_of(transactions, currency);
    let fresh = new_activities(mapped, known);
    lemma_kept(
        mapped,
        |activity: UniversalActivityView| !is_known(activity, known),
    );
    lemma_kept(
        fresh,
        |activity: UniversalActivityView| !is_counterpart(activity, fresh),
    );
    let activity = imported_of(transactions, currency, known)[k];
    assert(fresh.contains(activity));
    let i = choose|i: int| 0 <= i < fresh.len() && fresh[i] == activity;
    assert(!is_known(fresh[i], known));
}

/// No movement of cash is imported beside the order it belongs to.
pub proof fn law_no_order_is_counted_twice(
    transactions: Seq<WoobTransaction>,
    currency: Seq<char>,
    known: Seq<FingerprintView>,
    i: int,
    k: int,
)
    requires
        0 <= i < imported_of(transactions, currency, known).len(),
        0 <= k < imported_of(transactions, currency, known).len(),
    ensures
        !is_paid_by(
            imported_of(transactions, currency, known)[i],
            imported_of(transactions, currency, known)[k],
        ),
{
    let fresh = new_activities(activities_of(transactions, currency), known);
    let kept = imported_of(transactions, currency, known);
    lemma_kept(
        fresh,
        |activity: UniversalActivityView| !is_counterpart(activity, fresh),
    );
    assert(fresh.contains(kept[i]));
    let j = choose|j: int| 0 <= j < fresh.len() && fresh[j] == kept[i];
    assert(!is_counterpart(kept[k], fresh));
    assert(!is_paid_by(fresh[j], kept[k]));
}

/// Every order that the account does not have yet is imported.
pub proof fn law_every_new_order_is_imported(
    transactions: Seq<WoobTransaction>,
    currency: Seq<char>,
    known: Seq<FingerprintView>,
    order: UniversalActivityView,
)
    requires
        activities_of(transactions, currency).contains(order),
        is_order(order),
        !is_known(order, known),
    ensures
        imported_of(transactions, currency, known).contains(order),
{
    let mapped = activities_of(transactions, currency);
    let fresh = new_activities(mapped, known);
    lemma_keeps(
        mapped,
        |activity: UniversalActivityView| !is_known(activity, known),
        order,
    );
    assert(!is_cash(order)) by {
        reveal_strlit("BUY");
        reveal_strlit("SELL");
        reveal_strlit("DEPOSIT");
        reveal_strlit("WITHDRAWAL");
        assert("BUY"@.len() != "DEPOSIT"@.len() && "BUY"@.len() != "WITHDRAWAL"@.len());
        assert("SELL"@.len() != "DEPOSIT"@.len() && "SELL"@.len() != "WITHDRAWAL"@.len());
    }
    lemma_keeps(
        fresh,
        |activity: UniversalActivityView| !is_counterpart(activity, fresh),
        order,
    );
}

/// A history that is fetched holds the transactions from the first day to the
/// last, and those without a date: all of them, in their order.
pub proof fn law_history_is_all_in_range(
    transactions: Seq<WoobTransaction>,
    since: Option<Seq<char>>,
    until: Option<Seq<char>>,
) -> (positions: Seq<int>)
    ensures
        are_positions(positions, transactions.len() as int),
        positions.len() == from_day(up_to(transactions, until), since).len(),
        forall|k: int|
            0 <= k < positions.len() ==> from_day(up_to(transactions, until), since)[k]
                == transactions[#[trigger] positions[k]],
        forall|i: int|
            0 <= i < transactions.len() ==> (positions.contains(i)
                <==> (((#[trigger] transactions[i]).date is Some && until is Some)
                ==> !text_below(until->0, transactions[i].date->0@))
                && ((transactions[i].date is Some && since is Some)
                ==> !text_below(transactions[i].date->0@, since->0))),
{
    let within = up_to(transactions, until);
    let first = lemma_kept_positions(
        transactions,
        |tx: WoobTransaction| is_within_until(tx, until),
    );
    let second = lemma_kept_positions(within, |tx: WoobTransaction| is_within_since(tx, since));
    let positions = lemma_positions_among(first, second, transactions.len() as int);
    assert forall|k: int| 0 <= k < positions.len() implies from_day(within, since)[k]
        == transactions[#[trigger] positions[k]] by {
        assert(from_day(within, since)[k] == within[second[k]]);
        assert(within[second[k]] == transactions[first[second[k]]]);
    }
    assert forall|i: int| 0 <= i < transactions.len() implies (positions.contains(i)
        <==> is_within_until(
        #[trigger] transactions[i],
        until,
    ) && is_within_since(transactions[i], since)) by {
        if positions.contains(i) {
            let k = choose|k: int| 0 <= k < positions.len() && positions[k] == i;
            assert(positions[k] == first[second[k]]);
            assert(within[second[k]] == transactions[first[second[k]]]);
            assert(is_within_since(within[second[k]], since));
        }
        if is_within_until(transactions[i], until) && is_within_since(transactions[i], since) {
            assert(first.contains(i));
            let f = choose|f: int| 0 <= f < first.len() && first[f] == i;
            assert(within[f] == transactions[first[f]]);
            assert(second.contains(f));
            let k = choose|k: int| 0 <= k < second.len() && second[k] == f;
            assert(positions[k] == i);
        }
    }
    positions
}

/// A batch goes back far enough where no first day is asked for, or where one of
/// its transactions, not after the last day, is from before the first.
pub proof fn law_batch_reaches_before_the_first_day(
    transactions: Seq<WoobTransaction>,
    since: Option<Seq<char>>,
    until: Option<Seq<char>>,
)
    ensures
        goes_back_far_enough(up_to(transactions, until), since) <==> (since is None
            || exists|i: int|
            0 <= i < transactions.len() && (#[trigger] transactions[i]).date is Some && (until
                is Some ==> !text_below(until->0, transactions[i].date->0@)) && text_below(
                transactions[i].date->0@,
                since->0,
            )),
{
    let within = up_to(transactions, until);
    let positions = lemma_kept_positions(
        transactions,
        |tx: WoobTransaction| is_within_until(tx, until),
    );
    law_earliest_date(within);
    if since is Some {
        let first = since->0;
        if goes_back_far_enough(within, since) {
            let k = choose|k: int|
                0 <= k < within.len() && (#[trigger] within[k]).date is Some && Some(
                    within[k].date->0@,
                ) == earliest_date(within);
            assert(within[k] == transactions[positions[k]]);
        }
        if exists|i: int|
            0 <= i < transactions.len() && (#[trigger] transactions[i]).date is Some && (until
                is Some ==> !text_below(until->0, transactions[i].date->0@)) && text_below(
                transactions[i].date->0@,
                first,
            ) {
            let i = choose|i: int|
                0 <= i < transactions.len() && (#[trigger] transactions[i]).date is Some && (until
                    is Some ==> !text_below(until->0, transactions[i].date->0@)) && text_below(
                    transactions[i].date->0@,
                    first,
                );
            assert(positions.contains(i));
            let k = choose|k: int| 0 <= k < positions.len() && positions[k] == i;
            assert(within[k] == transactions[positions[k]]);
            assert(within[k].date is Some);
            let earliest = earliest_date(within)->0;
            crate::text::lemma_text_order_is_total(earliest, within[k].date->0@);
            if text_below(earliest, within[k].date->0@) {
                crate::text::lemma_text_order_is_transitive(
                    earliest,
                    within[k].date->0@,
                    first,
                );
            }
        }
    }
}

/// The earliest date is that of a transaction, and none is before it; there is
/// none only where no transaction has a date.
pub proof fn law_earliest_date(transactions: Seq<WoobTransaction>)
    ensures
        match earliest_date(transactions) {
            Some(earliest) => (exists|k: int|
                0 <= k < transactions.len() && (#[trigger] transactions[k]).date is Some && Some(
                    transactions[k].date->0@,
                ) == earliest_date(transactions)) && (forall|k: int|
                0 <= k < transactions.len() && (#[trigger] transactions[k]).date is Some
                    ==> !text_below(transactions[k].date->0@, earliest)),
            None => forall|k: int|
                0 <= k < transactions.len() ==> (#[trigger] transactions[k]).date is None,
        },
    decreases transactions.len(),
{
    if transactions.len() > 0 {
        let fewer = transactions.drop_last();
        let last = transactions.len() - 1;
        law_earliest_date(fewer);
        assert forall|k: int| 0 <= k < last implies (#[trigger] transactions[k]) == fewer[k] by {}
        match earliest_date(transactions) {
            Some(earliest) => {
                if transactions[last].date is Some && transactions[last].date->0@ == earliest {
                    assert(Some(transactions[last].date->0@) == earliest_date(transactions));
                } else {
                    let k = choose|k: int|
                        0 <= k < fewer.len() && (#[trigger] fewer[k]).date is Some && Some(
                            fewer[k].date->0@,
                        ) == earliest_date(fewer);
                    assert(transactions[k].date is Some);
                }
                crate::text::lemma_text_not_below_itself(earliest);
                assert forall|k: int|
                    0 <= k < transactions.len() && (#[trigger] transactions[k]).date
                        is Some implies !text_below(transactions[k].date->0@, earliest) by {
                    if k < last {
                        let before = earliest_date(fewer)->0;
                        let date = fewer[k].date->0@;
                        assert(!text_below(date, before));
                        if earliest != before && text_below(date, earliest) {
                            crate::text::lemma_text_order_is_transitive(date, earliest, before);
                        }
                    }
                }
            },
            None => {},
        }
    }
}

/// The latest date is that of a transaction, and none is after it; there is none
/// only where no transaction has a date.
pub proof fn law_latest_date(transactions: Seq<WoobTransaction>)
    ensures
        match latest_date(transactions) {
            Some(latest) => (exists|k: int|
                0 <= k < transactions.len() && (#[trigger] transactions[k]).date is Some
                    && transactions[k].date->0@ == latest) && (forall|k: int|
                0 <= k < transactions.len() && (#[trigger] transactions[k]).date is Some
                    ==> !text_below(latest, transactions[k].date->0@)),
            None => forall|k: int|
                0 <= k < transactions.len() ==> (#[trigger] transactions[k]).date is None,
        },
    decreases transactions.len(),
{
    if transactions.len() > 0 {
        let fewer = transactions.drop_last();
        let last = transactions.len() - 1;
        law_latest_date(fewer);
        assert forall|k: int| 0 <= k < last implies (#[trigger] transactions[k]) == fewer[k] by {}
        match latest_date(transactions) {
            Some(latest) => {
                if transactions[last].date is Some && transactions[last].date->0@ == latest {
                    assert(transactions[last].date->0@ == latest);
                } else {
                    let k = choose|k: int|
                        0 <= k < fewer.len() && (#[trigger] fewer[k]).date is Some
                            && fewer[k].date->0@ == latest;
                    assert(transactions[k].date is Some);
                }
                crate::text::lemma_text_not_below_itself(latest);
                assert forall|k: int|
                    0 <= k < transactions.len() && (#[trigger] transactions[k]).date
                        is Some implies !text_below(latest, transactions[k].date->0@) by {
                    if k < last {
                        let before = latest_date(fewer)->0;
                        let date = fewer[k].date->0@;
                        assert(!text_below(before, date));
                        if latest != before && text_below(latest, date) {
                            crate::text::lemma_text_order_is_total(latest, before);
                            crate::text::lemma_text_order_is_transitive(before, latest, date);
                        }
                    } else if text_below(latest, transactions[last].date->0@) {
                        crate::text::lemma_text_order_is_transitive(
                            latest,
                            transactions[last].date->0@,
                            latest,
                        );
                    }
                }
            },
            None => {},
        }
    }
}

/// Each activity that the account has already, that is not from Woob and has an
/// amount, is told by its type, the first ten bytes of its moment and its amount
/// to two places; and nothing else is.
pub proof fn law_existing_activities_are_told(existing: Seq<ExistingActivity>) -> (positions: Seq<
    int,
>)
    ensures
        are_positions(positions, existing.len() as int),
        positions.len() == fingerprints_of(existing).len(),
        forall|k: int|
            0 <= k < positions.len() ==> {
                let told = fingerprints_of(existing)[k];
                let activity = existing[#[trigger] positions[k]];
                let moment = moment_text(
                    activity.activity_date.seconds,
                    activity.activity_date.nanos,
                );
                &&& told.activity_type == activity.activity_type@
                &&& activity.amount is Some
                &&& told.amount == decimal_text_two_places(activity.amount->0)
                &&& moment is Some
                &&& byte_prefix(moment->0, 10) == Some(told.date)
                &&& activity.source_system is None || activity.source_system->0@ != "WOOB"@
            },
        forall|i: int|
            0 <= i < existing.len() && (#[trigger] existing[i]).amount is Some && (
            existing[i].source_system is None || existing[i].source_system->0@ != "WOOB"@)
                && moment_text(
                existing[i].activity_date.seconds,
                existing[i].activity_date.nanos,
            ) is Some && byte_prefix(
                moment_text(
                    existing[i].activity_date.seconds,
                    existing[i].activity_date.nanos,
                )->0,
                10,
            ) is Some ==> positions.contains(i),
    decreases existing.len(),
{
    if existing.len() == 0 {
        Seq::empty()
    } else {
        let fewer = existing.drop_last();
        let last = existing.len() - 1;
        let before = law_existing_activities_are_told(fewer);
        assert(existing[last] == existing.last());
        let positions = if fingerprint_of(existing.last()) is Some {
            before.push(last)
        } else {
            before
        };
        assert forall|k: int| 0 <= k < before.len() implies (#[trigger] positions[k]) == before[k]
            && fewer[before[k]] == existing[before[k]] && fingerprints_of(existing)[k]
            == fingerprints_of(fewer)[k] by {}
        assert forall|i: int| 0 <= i < last && before.contains(i) implies positions.contains(i) by {
            let k = choose|k: int| 0 <= k < before.len() && before[k] == i;
            assert(positions[k] == i);
        }
        assert forall|i: int| 0 <= i < last implies (#[trigger] existing[i]) == fewer[i] by {}
        if fingerprint_of(existing.last()) is Some {
            assert(positions[positions.len() - 1] == last);
        }
        assert forall|j: int, k: int| 0 <= j < k < positions.len() implies #[trigger] positions[j]
            < #[trigger] positions[k] by {
            assert(positions[j] == before[j]);
            if k < before.len() {
                assert(positions[k] == before[k]);
            }
        }
        positions
    }
}

/// The transactions of a finished history are all in range.
pub proof fn law_history_is_in_range(
    transactions: Seq<WoobTransaction>,
    since: Option<Seq<char>>,
    until: Option<Seq<char>>,
    k: int,
)
    requires
        0 <= k < from_day(up_to(transactions, until), since).len(),
    ensures
        is_within_since(from_day(up_to(transactions, until), since)[k], since),
        is_within_until(from_day(up_to(transactions, until), since)[k], until),
        transactions.contains(from_day(up_to(transactions, until), since)[k]),
{
    let within = up_to(transactions, until);
    lemma_kept(within, |tx: WoobTransaction| is_within_since(tx, since));
    lemma_kept(transactions, |tx: WoobTransaction| is_within_until(tx, until));
    let tx = from_day(within, since)[k];
    assert(within.contains(tx));
    let i = choose|i: int| 0 <= i < within.len() && within[i] == tx;
    assert(is_within_until(within[i], until));
}

} // verus!
