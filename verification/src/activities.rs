//! Activities in the form in which every bank's are imported.

use crate::amounts::{Amount, FloatBits, UnitPrice};
use vstd::prelude::*;

verus! {

/// An activity to be imported.
#[derive(Debug)]
pub struct UniversalActivity {
    /// What the activity is known by, so that it is imported once.
    pub id: String,
    pub source_system: String,
    pub activity_type: String,
    pub trade_date: String,
    pub price: UnitPrice,
    pub units: FloatBits,
    pub amount: Amount,
    pub currency: String,
    pub description: String,
    pub fee: FloatBits,
    pub symbol: Option<String>,
    /// Whether the user has to look at it, to assign the right symbol.
    pub needs_review: bool,
}

pub ghost struct UniversalActivityView {
    pub id: Seq<char>,
    pub source_system: Seq<char>,
    pub activity_type: Seq<char>,
    pub trade_date: Seq<char>,
    pub price: UnitPrice,
    pub units: FloatBits,
    pub value: FloatBits,
    pub two_places: Seq<char>,
    pub currency: Seq<char>,
    pub description: Seq<char>,
    pub fee: FloatBits,
    pub symbol: Option<Seq<char>>,
    pub needs_review: bool,
}

impl View for UniversalActivity {
    type V = UniversalActivityView;

    open spec fn view(&self) -> UniversalActivityView {
        UniversalActivityView {
            id: self.id@,
            source_system: self.source_system@,
            activity_type: self.activity_type@,
            trade_date: self.trade_date@,
            price: self.price,
            units: self.units,
            value: self.amount.value,
            two_places: self.amount.two_places@,
            currency: self.currency@,
            description: self.description@,
            fee: self.fee,
            symbol: match self.symbol {
                Some(symbol) => Some(symbol@),
                None => None,
            },
            needs_review: self.needs_review,
        }
    }
}

/// An activity is seen with everything that it says.
pub proof fn law_activity_is_seen_whole(activity: UniversalActivity)
    ensures
        activity@.id == activity.id@,
        activity@.source_system == activity.source_system@,
        activity@.activity_type == activity.activity_type@,
        activity@.trade_date == activity.trade_date@,
        activity@.price == activity.price,
        activity@.units == activity.units,
        activity@.value == activity.amount.value,
        activity@.two_places == activity.amount.two_places@,
        activity@.currency == activity.currency@,
        activity@.description == activity.description@,
        activity@.fee == activity.fee,
        activity@.symbol is Some <==> activity.symbol is Some,
        activity.symbol is Some ==> activity@.symbol->0 == activity.symbol->0@,
        activity@.needs_review == activity.needs_review,
{
}

/// A list of activities is seen whole, in its order.
pub proof fn law_activities_are_seen_whole(activities: Seq<UniversalActivity>)
    ensures
        activity_views(activities).len() == activities.len(),
        forall|i: int|
            0 <= i < activities.len() ==> activity_views(activities)[i] == (
            #[trigger] activities[i])@,
{
}

/// The views of a list of activities.
pub open spec fn activity_views(activities: Seq<UniversalActivity>) -> Seq<UniversalActivityView> {
    activities.map_values(|activity: UniversalActivity| activity@)
}

} // verus!
