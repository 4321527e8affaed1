//! The vocabulary of the rebalancing worksheet.

use crate::decimal::Decimal;
use vstd::prelude::*;

verus! {

/// Which way an adjustment moves a position.
#[derive(Clone, Copy, Debug, PartialEq, Eq, Structural)]
pub enum WorksheetDirection {
    Increase,
    Reduce,
}

/// Why a category's gap could not be placed.
#[derive(Clone, Copy, Debug, PartialEq, Eq, Structural)]
pub enum UnresolvedReason {
    /// No recorded security carries the category.
    NoRecordedSecurity,
    /// Securities carry the category, and none of them may be adjusted.
    NoEligibleSecurity,
    /// Securities may be adjusted, and none of them has a usable price.
    NoUsablePrice,
}

/// An amount that belongs to a category and was not placed.
#[derive(Debug)]
pub struct UnresolvedCategoryAmount {
    pub category_id: String,
    pub category_name: String,
    pub amount: Decimal,
    pub reason: UnresolvedReason,
}

pub ghost struct UnresolvedCategoryAmountView {
    pub category_id: Seq<char>,
    pub category_name: Seq<char>,
    pub amount: Decimal,
    pub reason: UnresolvedReason,
}

impl View for UnresolvedCategoryAmount {
    type V = UnresolvedCategoryAmountView;

    open spec fn view(&self) -> UnresolvedCategoryAmountView {
        UnresolvedCategoryAmountView {
            category_id: self.category_id@,
            category_name: self.category_name@,
            amount: self.amount,
            reason: self.reason,
        }
    }
}

/// The factors by which the drafts were scaled, where they were.
#[derive(Clone, Copy, Debug)]
pub struct AdjustmentScaling {
    pub reduction_factor: Option<Decimal>,
    pub increase_factor: Option<Decimal>,
}

/// What a constraint restricts.
#[derive(Clone, Copy, Debug, PartialEq, Eq, Structural)]
pub enum ConstraintAction {
    Buy,
    Sell,
    /// Buying and selling both.
    Trade,
}

/// How far a constraint goes.
#[derive(Clone, Copy, Debug, PartialEq, Eq, Structural)]
pub enum ConstraintEffect {
    /// The change is not to be made.
    Block,
    /// The change is to be warned about.
    Avoid,
}

/// What a constraint is about.
#[derive(Clone, Copy, Debug, PartialEq, Eq, Structural)]
pub enum ConstraintSubjectType {
    Asset,
    Account,
    Category,
}

/// A restriction that the user put on the changes a target may ask for.
#[derive(Debug)]
pub struct AllocationTargetConstraint {
    pub subject_type: ConstraintSubjectType,
    pub subject_id: String,
    pub action: ConstraintAction,
    pub effect: ConstraintEffect,
}

/// What is held.
#[derive(Clone, Copy, Debug, PartialEq, Eq, Structural)]
pub enum HoldingType {
    Cash,
    Security,
}

/// A holding of an account.
#[derive(Debug)]
pub struct Holding {
    pub id: String,
    /// The instrument held, where there is one.
    pub instrument_id: Option<String>,
    pub holding_type: HoldingType,
    pub quantity: Decimal,
}

/// A recorded asset.
#[derive(Debug)]
pub struct Asset {
    pub id: String,
    pub display_code: Option<String>,
    pub instrument_symbol: Option<String>,
    pub is_active: bool,
    /// Whether the asset's kind is a tracked investment.
    pub is_investment: bool,
    /// How many units one contract stands for.
    pub contract_multiplier: Decimal,
}

/// A price of an asset.
#[derive(Debug)]
pub struct Quote {
    pub close: Decimal,
    pub currency: String,
}

/// The latest that is known of an asset's price.
#[derive(Debug)]
pub struct LatestQuoteSnapshot {
    pub quote: Option<Quote>,
}

/// What a holding contributes to a category of a taxonomy.
#[derive(Debug)]
pub struct HoldingAllocationContribution {
    pub asset_id: String,
    pub category_id: String,
    pub holding_type: HoldingType,
    pub value: Decimal,
}

} // verus!
