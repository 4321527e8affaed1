//! Allocation targets, and how the portfolio deviates from them, as the
//! assistant's tool reports them.

use crate::collect::{are_positions, lemma_grown_positions};
use crate::decimal::Decimal;
use std::sync::Arc;
use vstd::prelude::*;

verus! {

/// What the tool is asked.
#[derive(Debug)]
pub struct GetPortfolioTargetsArgs {
    /// An account, or `TOTAL` for the entire portfolio.
    pub account_id: String,
}

/// The account that the tool is asked about where none is named.
pub fn default_account_id() -> (id: String)
    ensures
        id@ == "TOTAL"@,
{
    "TOTAL".to_owned()
}

/// An allocation target.
#[derive(Debug)]
pub struct PortfolioTarget {
    pub id: String,
    pub is_active: bool,
}

/// How a category deviates from its target.
#[derive(Debug)]
pub struct CategoryDeviation {
    pub category_id: String,
    pub category_name: String,
    pub target_percent: Decimal,
    pub current_percent: Decimal,
    pub deviation_percent: Decimal,
    pub current_value: Decimal,
    pub target_value: Decimal,
    pub value_delta: Decimal,
    pub is_locked: bool,
}

/// How the portfolio deviates from a target.
#[derive(Debug)]
pub struct DeviationReport {
    pub target_id: String,
    pub target_name: String,
    pub account_id: String,
    pub taxonomy_id: String,
    pub total_value: Decimal,
    pub deviations: Vec<CategoryDeviation>,
}

/// What a target allocates to a category.
#[derive(Debug)]
pub struct TargetAllocation {
    pub id: String,
    pub category_id: String,
}

/// What an allocation wants of a holding.
#[derive(Debug)]
pub struct HoldingTarget {
    pub asset_id: String,
    pub target_percent: i32,
    pub is_locked: bool,
}

/// What an allocation wants of a holding, as it is reported.
#[derive(Clone, Debug)]
pub struct HoldingTargetDto {
    pub asset_id: String,
    /// Target percentage within the category (30 is 30% of Equity).
    pub target_percent: i32,
    pub is_locked: bool,
}

/// How a category deviates from its target, as it is reported.
#[derive(Clone, Debug)]
pub struct DeviationDto {
    pub category_id: String,
    pub category_name: String,
    pub target_percent: Decimal,
    pub current_percent: Decimal,
    /// Positive is overweight, negative underweight.
    pub deviation_percent: Decimal,
    pub current_value: Decimal,
    pub target_value: Decimal,
    /// Positive is a need to buy more, negative overweight.
    pub value_delta: Decimal,
    pub is_locked: bool,
    /// Per-holding targets within this category, where there are any.
    pub holding_targets: Vec<HoldingTargetDto>,
}

/// How the portfolio deviates from a target, as it is reported.
#[derive(Clone, Debug)]
pub struct TargetSummaryDto {
    pub target_id: String,
    pub target_name: String,
    pub account_id: String,
    pub taxonomy_id: String,
    pub total_value: Decimal,
    pub currency: String,
    pub deviations: Vec<DeviationDto>,
}

/// What the tool reports.
#[derive(Clone, Debug)]
pub struct GetPortfolioTargetsOutput {
    pub targets: Vec<TargetSummaryDto>,
}

/// Why the tool could not report.
#[derive(Debug)]
pub enum AiError {
    ToolExecutionFailed(String),
}

/// What the tool asks about targets.
pub trait AiEnvironment {
    fn base_currency(&self) -> (r: String);

    fn get_targets_by_account(&self, account_id: &String) -> (r: Result<
        Vec<PortfolioTarget>,
        String,
    >);

    fn get_deviation_report(&self, target_id: &String, base_currency: &String) -> (r: Result<
        DeviationReport,
        String,
    >);

    fn get_allocations_by_target(&self, target_id: &String) -> (r: Result<
        Vec<TargetAllocation>,
        String,
    >);

    fn get_holding_targets_by_allocation(&self, allocation_id: &String) -> (r: Result<
        Vec<HoldingTarget>,
        String,
    >);
}

// ── Reporting ────────────────────────────────────────────────────────────────

/// The first allocation to a category.
pub open spec fn allocation_to(allocations: Seq<TargetAllocation>,
    category_id: Seq<char>) -> Option<
    TargetAllocation,
>
    decreases allocations.len(),
{
    if allocations.len() == 0 {
        None
    } else if allocations[0].category_id@ == category_id {
        Some(allocations[0])
    } else {
        allocation_to(allocations.drop_first(), category_id)
    }
}

fn find_allocation<'a>(allocations: &'a Vec<TargetAllocation>, category_id: &String) -> (found:
    Option<&'a TargetAllocation>)
    ensures
        match found {
            Some(allocation) => allocation_to(allocations@, category_id@) == Some(*allocation),
            None => allocation_to(allocations@, category_id@) is None,
        },
{
    assert(allocations@.skip(0) =~= allocations@);
    for i in 0..allocations.len()
        invariant
            allocation_to(allocations@, category_id@) == allocation_to(
                allocations@.skip(i as int),
                category_id@,
            ),
    {
        if allocations[i].category_id == *category_id {
            return Some(&allocations[i]);
        }
        assert(allocations@.skip(i as int).drop_first() =~= allocations@.skip(i + 1));
    }
    None
}

/// Whether what is reported is what allocations want of holdings.
pub open spec fn are_reported(reported: Seq<HoldingTargetDto>,
    targets: Seq<HoldingTarget>) -> bool {
    &&& reported.len() == targets.len()
    &&& forall|i: int|
        0 <= i < targets.len() ==> (#[trigger] reported[i]).asset_id == targets[i].asset_id
            && reported[i].target_percent == targets[i].target_percent && reported[i].is_locked
            == targets[i].is_locked
}

/// What allocations want of holdings, as it is reported.
pub fn report_holding_targets(targets: Vec<HoldingTarget>) -> (reported: Vec<HoldingTargetDto>)
    ensures
        are_reported(reported@, targets@),
        reported@.len() == targets@.len(),
        forall|i: int|
            0 <= i < targets@.len() ==> (#[trigger] reported@[i]).asset_id == targets@[i].asset_id
                && reported@[i].target_percent == targets@[i].target_percent
                && reported@[i].is_locked == targets@[i].is_locked,
{
    let ghost every = targets@;
    let mut reported: Vec<HoldingTargetDto> = Vec::new();
    for target in it: targets.into_iter()
        invariant
            it.seq() == every,
            reported@.len() == it.index(),
            forall|i: int|
                0 <= i < it.index() ==> (#[trigger] reported@[i]).asset_id == every[i].asset_id
                    && reported@[i].target_percent == every[i].target_percent
                    && reported@[i].is_locked == every[i].is_locked,
    {
        assert(target == every[it.index() as int]);
        reported.push(
            HoldingTargetDto {
                asset_id: target.asset_id,
                target_percent: target.target_percent,
                is_locked: target.is_locked,
            },
        );
    }
    reported
}

/// Whether what is reported of a category is what deviates in it.
pub open spec fn is_reported_deviation(reported: DeviationDto,
    deviation: CategoryDeviation) -> bool {
    &&& reported.category_id == deviation.category_id
    &&& reported.category_name == deviation.category_name
    &&& reported.target_percent == deviation.target_percent
    &&& reported.current_percent == deviation.current_percent
    &&& reported.deviation_percent == deviation.deviation_percent
    &&& reported.current_value == deviation.current_value
    &&& reported.target_value == deviation.target_value
    &&& reported.value_delta == deviation.value_delta
    &&& reported.is_locked == deviation.is_locked
}

/// What deviates in a category, as it is reported with the targets of its
/// holdings.
pub fn report_deviation(deviation: CategoryDeviation, holding_targets: Vec<HoldingTargetDto>) -> (
reported: DeviationDto)
    ensures
        is_reported_deviation(reported, deviation),
        reported.category_id == deviation.category_id,
        reported.category_name == deviation.category_name,
        reported.target_percent == deviation.target_percent,
        reported.current_percent == deviation.current_percent,
        reported.deviation_percent == deviation.deviation_percent,
        reported.current_value == deviation.current_value,
        reported.target_value == deviation.target_value,
        reported.value_delta == deviation.value_delta,
        reported.is_locked == deviation.is_locked,
        reported.holding_targets == holding_targets,
{
    DeviationDto {
        category_id: deviation.category_id,
        category_name: deviation.category_name,
        target_percent: deviation.target_percent,
        current_percent: deviation.current_percent,
        deviation_percent: deviation.deviation_percent,
        current_value: deviation.current_value,
        target_value: deviation.target_value,
        value_delta: deviation.value_delta,
        is_locked: deviation.is_locked,
        holding_targets,
    }
}

/// The tool that reports targets.
pub struct GetPortfolioTargetsTool<E> {
    env: Arc<E>,
}

impl<E> GetPortfolioTargetsTool<E> {
    pub closed spec fn spec_env(self) -> E {
        *self.env
    }

    /// The tool in an environment.
    pub fn new(env: Arc<E>) -> (tool: Self)
        ensures
            tool.spec_env() == *env,
    {
        GetPortfolioTargetsTool { env }
    }
}

impl<E> Clone for GetPortfolioTargetsTool<E> {
    fn clone(&self) -> (tool: Self)
        ensures
            tool.spec_env() == self.spec_env(),
    {
        GetPortfolioTargetsTool { env: self.env.clone() }
    }
}

impl<E: AiEnvironment> GetPortfolioTargetsTool<E> {
    /// Whether the targets reported for a category's holdings are those of the
    /// category's first allocation: none where there is no allocation, or where
    /// they cannot be had.
    pub open spec fn are_holding_targets(
        self,
        reported: Seq<HoldingTargetDto>,
        allocations: Seq<TargetAllocation>,
        category_id: Seq<char>,
    ) -> bool {
        match allocation_to(allocations, category_id) {
            None => reported.len() == 0,
            Some(allocation) => exists|answer: Result<Vec<HoldingTarget>, String>|
                {
                    &&& #[trigger] call_ensures(
                        E::get_holding_targets_by_allocation,
                        (&self.spec_env(), &allocation.id),
                        answer,
                    )
                    &&& match answer {
                        Ok(targets) => are_reported(reported, targets@),
                        Err(_) => reported.len() == 0,
                    }
                },
        }
    }

    /// Whether all that deviates is reported, in its order.
    pub open spec fn are_deviations(
        self,
        reported: Seq<DeviationDto>,
        deviations: Seq<CategoryDeviation>,
        allocations: Seq<TargetAllocation>,
    ) -> bool {
        &&& reported.len() == deviations.len()
        &&& forall|i: int|
            0 <= i < deviations.len() ==> is_reported_deviation(
                #[trigger] reported[i],
                deviations[i],
            ) && self.are_holding_targets(
                reported[i].holding_targets@,
                allocations,
                deviations[i].category_id@,
            )
    }

    /// What the tool reports of a target, from its report and its allocations.
    pub open spec fn is_summary_of(
        self,
        summary: TargetSummaryDto,
        report: DeviationReport,
        allocations: Seq<TargetAllocation>,
        base_currency: Seq<char>,
    ) -> bool {
        &&& summary.target_id == report.target_id
        &&& summary.target_name == report.target_name
        &&& summary.account_id == report.account_id
        &&& summary.taxonomy_id == report.taxonomy_id
        &&& summary.total_value == report.total_value
        &&& summary.currency@ == base_currency
        &&& self.are_deviations(summary.deviations@, report.deviations@, allocations)
    }

    /// What the tool makes of a target: what it reports, or the first error.
    pub open spec fn is_target_outcome(
        self,
        target: PortfolioTarget,
        base_currency: String,
        outcome: Result<TargetSummaryDto, AiError>,
    ) -> bool {
        exists|report: Result<DeviationReport, String>|
            {
                &&& #[trigger] call_ensures(
                    E::get_deviation_report,
                    (&self.spec_env(), &target.id, &base_currency),
                    report,
                )
                &&& match report {
                    Err(error) => outcome == Err::<TargetSummaryDto, AiError>(
                        AiError::ToolExecutionFailed(error),
                    ),
                    Ok(report) => self.is_report_outcome(target, report, base_currency, outcome),
                }
            }
    }

    pub open spec fn is_report_outcome(
        self,
        target: PortfolioTarget,
        report: DeviationReport,
        base_currency: String,
        outcome: Result<TargetSummaryDto, AiError>,
    ) -> bool {
        exists|allocations: Result<Vec<TargetAllocation>, String>|
            {
                &&& #[trigger] call_ensures(
                    E::get_allocations_by_target,
                    (&self.spec_env(), &target.id),
                    allocations,
                )
                &&& match allocations {
                    Err(error) => outcome == Err::<TargetSummaryDto, AiError>(
                        AiError::ToolExecutionFailed(error),
                    ),
                    Ok(allocations) => outcome matches Ok(summary) && self.is_summary_of(
                        summary,
                        report,
                        allocations@,
                        base_currency@,
                    ),
                }
            }
    }

    /// Whether what is reported are the active ones of the first targets, in
    /// their order.
    pub open spec fn are_summaries(
        self,
        summaries: Seq<TargetSummaryDto>,
        targets: Seq<PortfolioTarget>,
        base_currency: String,
        n: nat,
    ) -> bool
        decreases n,
    {
        if n == 0 {
            summaries.len() == 0
        } else if !targets[n - 1].is_active {
            self.are_summaries(summaries, targets, base_currency, (n - 1) as nat)
        } else {
            &&& summaries.len() > 0
            &&& self.is_target_outcome(
                targets[n - 1],
                base_currency,
                Ok::<TargetSummaryDto, AiError>(summaries.last()),
            )
            &&& self.are_summaries(
                summaries.drop_last(),
                targets,
                base_currency,
                (n - 1) as nat,
            )
        }
    }

    /// What the tool reports of targets: all active ones, or the error of the
    /// first for which there is one.
    pub open spec fn is_targets_outcome(
        self,
        targets: Seq<PortfolioTarget>,
        base_currency: String,
        outcome: Result<GetPortfolioTargetsOutput, AiError>,
    ) -> bool {
        match outcome {
            Ok(output) => self.are_summaries(
                output.targets@,
                targets,
                base_currency,
                targets.len(),
            ),
            Err(error) => exists|k: int, before: Seq<TargetSummaryDto>|
                {
                    &&& 0 <= k < targets.len()
                    &&& targets[k].is_active
                    &&& #[trigger] self.are_summaries(before, targets, base_currency, k as nat)
                    &&& self.is_target_outcome(
                        targets[k],
                        base_currency,
                        Err::<TargetSummaryDto, AiError>(error),
                    )
                },
        }
    }

    /// What the tool reports: the first error, or every active target.
    pub open spec fn is_outcome(
        self,
        args: GetPortfolioTargetsArgs,
        outcome: Result<GetPortfolioTargetsOutput, AiError>,
    ) -> bool {
        exists|base_currency: String, targets: Result<Vec<PortfolioTarget>, String>|
            {
                &&& #[trigger] call_ensures(E::base_currency, (&self.spec_env(),), base_currency)
                &&& #[trigger] call_ensures(
                    E::get_targets_by_account,
                    (&self.spec_env(), &args.account_id),
                    targets,
                )
                &&& match targets {
                    Err(error) => outcome == Err::<GetPortfolioTargetsOutput, AiError>(
                        AiError::ToolExecutionFailed(error),
                    ),
                    Ok(targets) => self.is_targets_outcome(targets@, base_currency, outcome),
                }
            }
    }

    fn report_holdings(&self, allocations: &Vec<TargetAllocation>,
        category_id: &String) -> (reported:
        Vec<HoldingTargetDto>)
        ensures
            self.are_holding_targets(reported@, allocations@, category_id@),
    {
        match find_allocation(allocations, category_id) {
            None => Vec::new(),
            Some(allocation) => {
                let answer = self.env.get_holding_targets_by_allocation(&allocation.id);
                assert(call_ensures(
                    E::get_holding_targets_by_allocation,
                    (&self.spec_env(), &allocation.id),
                    answer,
                ));
                match answer {
                    Ok(targets) => report_holding_targets(targets),
                    Err(_) => Vec::new(),
                }
            },
        }
    }

    fn report_target(&self, target: &PortfolioTarget, base_currency: &String) -> (outcome: Result<
        TargetSummaryDto,
        AiError,
    >)
        ensures
            self.is_target_outcome(*target, *base_currency, outcome),
    {
        let answer = self.env.get_deviation_report(&target.id, base_currency);
        assert(call_ensures(
            E::get_deviation_report,
            (&self.spec_env(), &target.id, base_currency),
            answer,
        ));
        let report = match answer {
            Ok(report) => report,
            Err(error) => {
                return Err(AiError::ToolExecutionFailed(error));
            },
        };
        let answer = self.env.get_allocations_by_target(&target.id);
        assert(call_ensures(
            E::get_allocations_by_target,
            (&self.spec_env(), &target.id),
            answer,
        ));
        let allocations = match answer {
            Ok(allocations) => allocations,
            Err(error) => {
                return Err(AiError::ToolExecutionFailed(error));
            },
        };
        let ghost whole = report;
        let ghost every = report.deviations@;
        let mut deviations: Vec<DeviationDto> = Vec::new();
        for deviation in it: report.deviations.into_iter()
            invariant
                it.seq() == every,
                deviations@.len() == it.index(),
                forall|i: int|
                    0 <= i < it.index() ==> is_reported_deviation(
                        #[trigger] deviations@[i],
                        every[i],
                    ) && self.are_holding_targets(
                        deviations@[i].holding_targets@,
                        allocations@,
                        every[i].category_id@,
                    ),
        {
            assert(deviation == every[it.index() as int]);
            let holding_targets = self.report_holdings(&allocations, &deviation.category_id);
            deviations.push(report_deviation(deviation, holding_targets));
        }
        let summary = TargetSummaryDto {
            target_id: report.target_id,
            target_name: report.target_name,
            account_id: report.account_id,
            taxonomy_id: report.taxonomy_id,
            total_value: report.total_value,
            currency: base_currency.clone(),
            deviations,
        };
        assert(self.is_summary_of(summary, whole, allocations@, base_currency@));
        Ok(summary)
    }

    /// Reports how the portfolio deviates from each active target.
    pub fn call(&self, args: GetPortfolioTargetsArgs) -> (outcome: Result<
        GetPortfolioTargetsOutput,
        AiError,
    >)
        ensures
            self.is_outcome(args, outcome),
    {
        let base_currency = self.env.base_currency();
        let answer = self.env.get_targets_by_account(&args.account_id);
        assert(call_ensures(E::base_currency, (&self.spec_env(),), base_currency));
        assert(call_ensures(
            E::get_targets_by_account,
            (&self.spec_env(), &args.account_id),
            answer,
        ));
        let targets = match answer {
            Ok(targets) => targets,
            Err(error) => {
                return Err(AiError::ToolExecutionFailed(error));
            },
        };
        let mut summaries: Vec<TargetSummaryDto> = Vec::new();
        #[verifier::loop_isolation(false)]
        for i in 0..targets.len()
            invariant
                self.are_summaries(summaries@, targets@, base_currency, i as nat),
        {
            if targets[i].is_active {
                match self.report_target(&targets[i], &base_currency) {
                    Ok(summary) => {
                        let ghost before = summaries@;
                        summaries.push(summary);
                        assert(summaries@.drop_last() =~= before);
                        assert(summaries@.last() == summary);
                    },
                    Err(error) => {
                        proof {
                            let k = i as int;
                            assert(targets@[k].is_active);
                            assert(self.are_summaries(
                                summaries@,
                                targets@,
                                base_currency,
                                k as nat,
                            ));
                            assert(self.is_target_outcome(
                                targets@[k],
                                base_currency,
                                Err::<TargetSummaryDto, AiError>(error),
                            ));
                            assert(self.is_targets_outcome(
                                targets@,
                                base_currency,
                                Err::<GetPortfolioTargetsOutput, AiError>(error),
                            ));
                        }
                        return Err(error);
                    },
                }
            }
        }
        Ok(GetPortfolioTargetsOutput { targets: summaries })
    }
}

/// An allocation is found for a category exactly where there is one, and it is
/// the first of them.
pub proof fn law_first_allocation_is_found(
    allocations: Seq<TargetAllocation>,
    category_id: Seq<char>,
)
    ensures
        match allocation_to(allocations, category_id) {
            Some(allocation) => exists|i: int|
                0 <= i < allocations.len() && (#[trigger] allocations[i]) == allocation
                    && allocation.category_id@ == category_id && (forall|k: int|
                    0 <= k < i ==> (#[trigger] allocations[k]).category_id@ != category_id),
            None => forall|k: int|
                0 <= k < allocations.len() ==> (#[trigger] allocations[k]).category_id@
                    != category_id,
        },
    decreases allocations.len(),
{
    if allocations.len() > 0 {
        let rest = allocations.drop_first();
        if allocations[0].category_id@ != category_id {
            law_first_allocation_is_found(rest, category_id);
            match allocation_to(rest, category_id) {
                Some(allocation) => {
                    let i = choose|i: int|
                        0 <= i < rest.len() && (#[trigger] rest[i]) == allocation
                            && allocation.category_id@ == category_id && (forall|k: int|
                            0 <= k < i ==> (#[trigger] rest[k]).category_id@ != category_id);
                    assert(allocations[i + 1] == allocation);
                    assert forall|k: int| 0 <= k < i + 1 implies (
                    #[trigger] allocations[k]).category_id@ != category_id by {
                        if k > 0 {
                            assert(rest[k - 1] == allocations[k]);
                        }
                    }
                },
                None => {
                    assert forall|k: int| 0 <= k < allocations.len() implies (
                    #[trigger] allocations[k]).category_id@ != category_id by {
                        if k > 0 {
                            assert(rest[k - 1] == allocations[k]);
                        }
                    }
                },
            }
        }
    }
}

/// Every active target is reported, in the order of the targets, and no other.
pub proof fn law_every_active_target_is_reported<E: AiEnvironment>(
    tool: GetPortfolioTargetsTool<E>,
    summaries: Seq<TargetSummaryDto>,
    targets: Seq<PortfolioTarget>,
    base_currency: String,
    n: nat,
) -> (places: Seq<int>)
    requires
        n <= targets.len(),
        tool.are_summaries(summaries, targets, base_currency, n),
    ensures
        are_positions(places, n as int),
        places.len() == summaries.len(),
        forall|k: int|
            0 <= k < places.len() ==> tool.is_target_outcome(
                targets[#[trigger] places[k]],
                base_currency,
                Ok::<TargetSummaryDto, AiError>(summaries[k]),
            ),
        forall|i: int| 0 <= i < n ==> (#[trigger] places.contains(i) <==> targets[i].is_active),
    decreases n,
{
    if n == 0 {
        Seq::empty()
    } else {
        let last = n - 1;
        let is_kept = targets[last].is_active;
        let fewer = if is_kept {
            summaries.drop_last()
        } else {
            summaries
        };
        let before = law_every_active_target_is_reported(
            tool,
            fewer,
            targets,
            base_currency,
            last as nat,
        );
        let places = if is_kept {
            before.push(last)
        } else {
            before
        };
        lemma_grown_positions(before, last, is_kept, places);
        assert forall|k: int| 0 <= k < places.len() implies tool.is_target_outcome(
            targets[#[trigger] places[k]],
            base_currency,
            Ok::<TargetSummaryDto, AiError>(summaries[k]),
        ) by {
            if k < before.len() {
                assert(places[k] == before[k]);
                assert(fewer[k] == summaries[k]);
            } else {
                assert(summaries.last() == summaries[k]);
            }
        }
        places
    }
}

/// What is reported of a target is the report that was had for the target in the
/// base currency, with everything that deviates in it, in its order; of each
/// category the holding targets are those had for its first allocation among
/// those had for the target.
pub proof fn law_report_is_told_whole<E: AiEnvironment>(
    tool: GetPortfolioTargetsTool<E>,
    target: PortfolioTarget,
    base_currency: String,
    summary: TargetSummaryDto,
) -> (answers: (DeviationReport, Vec<TargetAllocation>))
    requires
        tool.is_target_outcome(target, base_currency, Ok::<TargetSummaryDto, AiError>(summary)),
    ensures
        call_ensures(
            E::get_deviation_report,
            (&tool.spec_env(), &target.id, &base_currency),
            Ok::<DeviationReport, String>(answers.0),
        ),
        call_ensures(
            E::get_allocations_by_target,
            (&tool.spec_env(), &target.id),
            Ok::<Vec<TargetAllocation>, String>(answers.1),
        ),
        summary.target_id == answers.0.target_id,
        summary.target_name == answers.0.target_name,
        summary.account_id == answers.0.account_id,
        summary.taxonomy_id == answers.0.taxonomy_id,
        summary.total_value == answers.0.total_value,
        summary.currency@ == base_currency@,
        summary.deviations@.len() == answers.0.deviations@.len(),
        forall|i: int|
            0 <= i < summary.deviations@.len() ==> {
                let reported = #[trigger] summary.deviations@[i];
                let deviation = answers.0.deviations@[i];
                &&& reported.category_id == deviation.category_id
                &&& reported.category_name == deviation.category_name
                &&& reported.target_percent == deviation.target_percent
                &&& reported.current_percent == deviation.current_percent
                &&& reported.deviation_percent == deviation.deviation_percent
                &&& reported.current_value == deviation.current_value
                &&& reported.target_value == deviation.target_value
                &&& reported.value_delta == deviation.value_delta
                &&& reported.is_locked == deviation.is_locked
            },
        forall|i: int|
            0 <= i < summary.deviations@.len() ==> tool.are_holding_targets(
                (#[trigger] summary.deviations@[i]).holding_targets@,
                answers.1@,
                answers.0.deviations@[i].category_id@,
            ),
{
    let outcome = Ok::<TargetSummaryDto, AiError>(summary);
    let report = choose|report: Result<DeviationReport, String>|
        {
            &&& #[trigger] call_ensures(
                E::get_deviation_report,
                (&tool.spec_env(), &target.id, &base_currency),
                report,
            )
            &&& match report {
                Err(error) => outcome == Err::<TargetSummaryDto, AiError>(
                    AiError::ToolExecutionFailed(error),
                ),
                Ok(report) => tool.is_report_outcome(target, report, base_currency, outcome),
            }
        };
    let allocations = choose|allocations: Result<Vec<TargetAllocation>, String>|
        {
            &&& #[trigger] call_ensures(
                E::get_allocations_by_target,
                (&tool.spec_env(), &target.id),
                allocations,
            )
            &&& match allocations {
                Err(error) => outcome == Err::<TargetSummaryDto, AiError>(
                    AiError::ToolExecutionFailed(error),
                ),
                Ok(allocations) => outcome matches Ok(summary) && tool.is_summary_of(
                    summary,
                    report->Ok_0,
                    allocations@,
                    base_currency@,
                ),
            }
        };
    (report->Ok_0, allocations->Ok_0)
}

/// The holding targets of a category are told whole, in their order, as they
/// were had for the allocation; there are none where there is no allocation or
/// where they could not be had.
pub proof fn law_holding_targets_are_told_whole<E: AiEnvironment>(
    tool: GetPortfolioTargetsTool<E>,
    reported: Seq<HoldingTargetDto>,
    allocations: Seq<TargetAllocation>,
    category_id: Seq<char>,
)
    requires
        tool.are_holding_targets(reported, allocations, category_id),
    ensures
        allocation_to(allocations, category_id) is None ==> reported.len() == 0,
        allocation_to(allocations, category_id) is Some && reported.len() > 0 ==> exists|
            targets: Vec<HoldingTarget>,
        |
            #[trigger] call_ensures(
                E::get_holding_targets_by_allocation,
                (&tool.spec_env(), &(allocation_to(allocations, category_id)->0).id),
                Ok::<Vec<HoldingTarget>, String>(targets),
            ) && reported.len() == targets@.len() && forall|i: int|
                0 <= i < reported.len() ==> (#[trigger] reported[i]).asset_id
                    == targets@[i].asset_id && reported[i].target_percent
                    == targets@[i].target_percent && reported[i].is_locked == targets@[i].is_locked,
{
    if allocation_to(allocations, category_id) is Some && reported.len() > 0 {
        let allocation = allocation_to(allocations, category_id)->0;
        let answer = choose|answer: Result<Vec<HoldingTarget>, String>|
            {
                &&& #[trigger] call_ensures(
                    E::get_holding_targets_by_allocation,
                    (&tool.spec_env(), &allocation.id),
                    answer,
                )
                &&& match answer {
                    Ok(targets) => are_reported(reported, targets@),
                    Err(_) => reported.len() == 0,
                }
            };
        let targets = answer->Ok_0;
        assert(answer == Ok::<Vec<HoldingTarget>, String>(targets));
        assert(call_ensures(
            E::get_holding_targets_by_allocation,
            (&tool.spec_env(), &allocation.id),
            Ok::<Vec<HoldingTarget>, String>(targets),
        ));
    }
}

/// What the assistant is told about the tool.
pub const TOOL_NAME: &'static str = "get_portfolio_targets";

pub const TOOL_DESCRIPTION: &'static str = "Get portfolio allocation targets and how the current portfolio deviates from them. Returns each target with per-category target%, current%, deviation%, value delta (positive = need to buy more, negative = overweight), and per-holding targets within each category when defined. Use this to answer questions about rebalancing needs or how aligned the portfolio is with its targets.";

} // verus!
