//! Portfolios: named groups of accounts.

use crate::errors::{CoreError, CoreErrorView};
use crate::json::{json_list_read, json_list_text, read_json_list, write_json_list};
use crate::text::{lists_text, optional_texts, texts};
use crate::time::{current_time, print_second, second_text, Timestamp};
use crate::ids::new_id;
use std::sync::Arc;
use vstd::prelude::*;

verus! {

/// A named group of accounts.
#[derive(Debug)]
pub struct Portfolio {
    pub id: String,
    pub name: String,
    pub account_ids: Vec<String>,
    pub created_at: String,
    pub updated_at: String,
}

/// A group of accounts to be created.
#[derive(Debug)]
pub struct NewPortfolio {
    pub id: Option<String>,
    pub name: String,
    pub account_ids: Vec<String>,
}

pub ghost struct PortfolioView {
    pub id: Seq<char>,
    pub name: Seq<char>,
    pub account_ids: Seq<Seq<char>>,
    pub created_at: Seq<char>,
    pub updated_at: Seq<char>,
}

impl View for Portfolio {
    type V = PortfolioView;

    open spec fn view(&self) -> PortfolioView {
        PortfolioView {
            id: self.id@,
            name: self.name@,
            account_ids: texts(self.account_ids@),
            created_at: self.created_at@,
            updated_at: self.updated_at@,
        }
    }
}

// ── Rules ────────────────────────────────────────────────────────────────────

/// Whether accounts are enough for a portfolio, or what to tell the user.
pub fn validate_portfolio_accounts(account_ids: &Vec<String>) -> (checked: Result<(), CoreError>)
    ensures
        checked is Ok <==> account_ids@.len() >= 2,
        checked matches Err(error) ==> error@ == CoreErrorView::InvalidInput(
            "A portfolio must contain at least 2 accounts."@,
        ),
{
    if account_ids.len() < 2 {
        return Err(
            CoreError::InvalidInput("A portfolio must contain at least 2 accounts.".to_owned()),
        );
    }
    Ok(())
}

/// Whether a portfolio is of some accounts and no others.
pub open spec fn is_of_accounts(portfolio: Portfolio, account_ids: Set<Seq<char>>) -> bool {
    texts(portfolio.account_ids@).to_set() == account_ids
}

/// The first portfolio that is of some accounts and no others.
pub open spec fn first_of_accounts(portfolios: Seq<Portfolio>,
    account_ids: Set<Seq<char>>) -> Option<
    Portfolio,
>
    decreases portfolios.len(),
{
    if portfolios.len() == 0 {
        None
    } else if is_of_accounts(portfolios[0], account_ids) {
        Some(portfolios[0])
    } else {
        first_of_accounts(portfolios.drop_first(), account_ids)
    }
}

/// Whether every text of one list is in another.
fn are_all_listed(list: &Vec<String>, other: &Vec<String>) -> (r: bool)
    ensures
        r == texts(list@).to_set().subset_of(texts(other@).to_set()),
{
    let ghost views = texts(list@);
    let ghost others = texts(other@);
    for i in 0..list.len()
        invariant
            views == texts(list@),
            others == texts(other@),
            forall|k: int| 0 <= k < i ==> others.contains(#[trigger] views[k]),
    {
        assert(views[i as int] == list@[i as int]@);
        if !lists_text(other, &list[i]) {
            assert(views.to_set().contains(views[i as int]));
            return false;
        }
    }
    assert(views.to_set().subset_of(others.to_set())) by {
        assert forall|x: Seq<char>| views.to_set().contains(x) implies others.to_set().contains(
            x,
        ) by {
            let k = choose|k: int| 0 <= k < views.len() && views[k] == x;
            assert(others.contains(views[k]));
        }
    }
    true
}

/// The first portfolio that is of some accounts and no others, whatever the
/// order in which they are named.
pub fn find_of_accounts(portfolios: Vec<Portfolio>, account_ids: &Vec<String>) -> (found: Option<
    Portfolio,
>)
    ensures
        found == first_of_accounts(portfolios@, texts(account_ids@).to_set()),
        match found {
            Some(portfolio) => exists|p: int|
                0 <= p < portfolios@.len() && (#[trigger] portfolios@[p]) == portfolio
                    && are_same_accounts(portfolio.account_ids@, account_ids@) && (forall|q: int|
                    0 <= q < p ==> !are_same_accounts(
                        (#[trigger] portfolios@[q]).account_ids@,
                        account_ids@,
                    )),
            None => forall|q: int|
                0 <= q < portfolios@.len() ==> !are_same_accounts(
                    (#[trigger] portfolios@[q]).account_ids@,
                    account_ids@,
                ),
        },
{
    proof {
        law_found_portfolio_is_the_first(portfolios@, account_ids@);
    }
    let ghost every = portfolios@;
    let ghost wanted = texts(account_ids@).to_set();
    assert(every.skip(0) =~= every);
    #[verifier::loop_isolation(false)]
    for portfolio in it: portfolios.into_iter()
        invariant
            it.seq() == every,
            wanted == texts(account_ids@).to_set(),
            first_of_accounts(every, wanted) == first_of_accounts(
                every.skip(it.index() as int),
                wanted,
            ),
    {
        proof {
            assert(every.skip(it.index() as int)[0] == portfolio);
            assert(every.skip(it.index() as int).drop_first() =~= every.skip(it.index() + 1));
        }
        if are_all_listed(&portfolio.account_ids, account_ids) && are_all_listed(
            account_ids,
            &portfolio.account_ids,
        ) {
            assert(texts(portfolio.account_ids@).to_set() =~= wanted);
            return Some(portfolio);
        }
    }
    assert(every.skip(every.len() as int) =~= Seq::empty());
    None
}

/// The order in which accounts are named, and naming one twice, makes no
/// difference to the portfolio that is found for them.
pub proof fn law_finding_ignores_the_order(
    portfolios: Seq<Portfolio>,
    a: Seq<Seq<char>>,
    b: Seq<Seq<char>>,
)
    requires
        forall|id: Seq<char>| a.contains(id) <==> b.contains(id),
    ensures
        first_of_accounts(portfolios, a.to_set()) == first_of_accounts(portfolios, b.to_set()),
{
    assert forall|id: Seq<char>| a.to_set().contains(id) <==> b.to_set().contains(id) by {
        assert(a.contains(id) <==> b.contains(id));
    }
    assert(a.to_set() =~= b.to_set());
}

/// A portfolio that is found is one of those there are, and of exactly the
/// accounts asked for; where none is found, none is.
pub proof fn law_finding_is_exact(portfolios: Seq<Portfolio>, account_ids: Set<Seq<char>>)
    ensures
        match first_of_accounts(portfolios, account_ids) {
            Some(found) => portfolios.contains(found) && is_of_accounts(found, account_ids),
            None => forall|i: int|
                0 <= i < portfolios.len() ==> !is_of_accounts(#[trigger] portfolios[i],
                    account_ids),
        },
    decreases portfolios.len(),
{
    if portfolios.len() > 0 && !is_of_accounts(portfolios[0], account_ids) {
        let rest = portfolios.drop_first();
        law_finding_is_exact(rest, account_ids);
        match first_of_accounts(rest, account_ids) {
            Some(found) => {
                let i = choose|i: int| 0 <= i < rest.len() && rest[i] == found;
                assert(portfolios[i + 1] == found);
            },
            None => {
                assert forall|i: int| 0 <= i < portfolios.len() implies !is_of_accounts(
                    #[trigger] portfolios[i],
                    account_ids,
                ) by {
                    if i > 0 {
                        assert(portfolios[i] == rest[i - 1]);
                    }
                }
            },
        }
    } else if portfolios.len() > 0 {
        assert(portfolios[0] == first_of_accounts(portfolios, account_ids)->0);
    }
}

/// Whether a list names an account.
pub open spec fn names_account(list: Seq<String>, account_id: Seq<char>) -> bool {
    exists|i: int| 0 <= i < list.len() && (#[trigger] list[i])@ == account_id
}

/// Whether two lists name the same accounts.
pub open spec fn are_same_accounts(a: Seq<String>, b: Seq<String>) -> bool {
    forall|account_id: Seq<char>| #[trigger]
        names_account(a, account_id) <==> names_account(b, account_id)
}

proof fn lemma_named_accounts(list: Seq<String>, account_id: Seq<char>)
    ensures
        texts(list).to_set().contains(account_id) <==> names_account(list, account_id),
{
    let views = texts(list);
    if views.contains(account_id) {
        let i = choose|i: int| 0 <= i < views.len() && views[i] == account_id;
        assert(list[i]@ == account_id);
    }
    if names_account(list, account_id) {
        let i = choose|i: int| 0 <= i < list.len() && (#[trigger] list[i])@ == account_id;
        assert(views[i] == account_id);
    }
}

proof fn lemma_same_accounts(a: Seq<String>, b: Seq<String>)
    ensures
        are_same_accounts(a, b) <==> texts(a).to_set() == texts(b).to_set(),
{
    let left = texts(a).to_set();
    let right = texts(b).to_set();
    assert forall|id: Seq<char>| #[trigger] left.contains(id) <==> names_account(a, id) by {
        lemma_named_accounts(a, id);
    }
    assert forall|id: Seq<char>| #[trigger] right.contains(id) <==> names_account(b, id) by {
        lemma_named_accounts(b, id);
    }
    if are_same_accounts(a, b) {
        assert forall|id: Seq<char>| left.contains(id) <==> right.contains(id) by {
            assert(names_account(a, id) <==> names_account(b, id));
        }
        assert(left =~= right);
    }
    if left == right {
        assert forall|id: Seq<char>| #[trigger] names_account(a, id) <==> names_account(b, id) by {
            assert(left.contains(id) <==> right.contains(id));
        }
    }
}

/// The portfolio that is found names every account asked for and no other, and
/// none before it does; where none is found, none does.
pub proof fn law_found_portfolio_is_the_first(portfolios: Seq<Portfolio>, account_ids: Seq<String>)
    ensures
        match first_of_accounts(portfolios, texts(account_ids).to_set()) {
            Some(found) => exists|p: int|
                0 <= p < portfolios.len() && (#[trigger] portfolios[p]) == found
                    && are_same_accounts(found.account_ids@, account_ids) && (forall|q: int|
                    0 <= q < p ==> !are_same_accounts(
                        (#[trigger] portfolios[q]).account_ids@,
                        account_ids,
                    )),
            None => forall|q: int|
                0 <= q < portfolios.len() ==> !are_same_accounts(
                    (#[trigger] portfolios[q]).account_ids@,
                    account_ids,
                ),
        },
    decreases portfolios.len(),
{
    let wanted = texts(account_ids).to_set();
    if portfolios.len() > 0 {
        lemma_same_accounts(portfolios[0].account_ids@, account_ids);
        let rest = portfolios.drop_first();
        if is_of_accounts(portfolios[0], wanted) {
            assert(portfolios[0] == first_of_accounts(portfolios, wanted)->0);
        } else {
            law_found_portfolio_is_the_first(rest, account_ids);
            match first_of_accounts(rest, wanted) {
                Some(found) => {
                    let p = choose|p: int|
                        0 <= p < rest.len() && (#[trigger] rest[p]) == found && are_same_accounts(
                            found.account_ids@,
                            account_ids,
                        ) && (forall|q: int|
                            0 <= q < p ==> !are_same_accounts(
                                (#[trigger] rest[q]).account_ids@,
                                account_ids,
                            ));
                    assert(portfolios[p + 1] == found);
                    assert forall|q: int| 0 <= q < p + 1 implies !are_same_accounts(
                        (#[trigger] portfolios[q]).account_ids@,
                        account_ids,
                    ) by {
                        if q > 0 {
                            assert(rest[q - 1] == portfolios[q]);
                        }
                    }
                },
                None => {
                    assert forall|q: int| 0 <= q < portfolios.len() implies !are_same_accounts(
                        (#[trigger] portfolios[q]).account_ids@,
                        account_ids,
                    ) by {
                        if q > 0 {
                            assert(rest[q - 1] == portfolios[q]);
                        }
                    }
                },
            }
        }
    }
}

/// A portfolio is seen with everything that it says.
pub proof fn law_portfolio_is_seen_whole(portfolio: Portfolio)
    ensures
        portfolio@.id == portfolio.id@,
        portfolio@.name == portfolio.name@,
        portfolio@.account_ids.len() == portfolio.account_ids@.len(),
        forall|i: int|
            0 <= i < portfolio.account_ids@.len() ==> portfolio@.account_ids[i] == (
            #[trigger] portfolio.account_ids@[i])@,
        portfolio@.created_at == portfolio.created_at@,
        portfolio@.updated_at == portfolio.updated_at@,
{
}

// ── Service ──────────────────────────────────────────────────────────────────

pub trait PortfolioRepositoryTrait {
    fn get_all(&self) -> (r: Result<Vec<Portfolio>, CoreError>);

    fn get_by_id(&self, id: &String) -> (r: Result<Option<Portfolio>, CoreError>);

    fn insert(&self, new: NewPortfolio) -> (r: Result<Portfolio, CoreError>);

    fn update(&self, portfolio: Portfolio) -> (r: Result<Portfolio, CoreError>);

    fn delete(&self, id: &String) -> (r: Result<usize, CoreError>);
}

pub trait PortfolioServiceTrait {
    fn get_all_portfolios(&self) -> (r: Result<Vec<Portfolio>, CoreError>);

    fn get_portfolio(&self, id: &String) -> (r: Result<Option<Portfolio>, CoreError>);

    fn create_portfolio(&self, new: NewPortfolio) -> (r: Result<Portfolio, CoreError>);

    fn update_portfolio(&self, portfolio: Portfolio) -> (r: Result<Portfolio, CoreError>);

    fn delete_portfolio(&self, id: &String) -> (r: Result<usize, CoreError>);

    /// Find a portfolio whose accounts match exactly, whatever their order.
    fn find_by_accounts(&self, account_ids: &Vec<String>) -> (r: Result<
        Option<Portfolio>,
        CoreError,
    >);
}

/// Portfolios, under the rules that hold for them, in a repository.
pub struct PortfolioService<R> {
    repository: Arc<R>,
}

impl<R> PortfolioService<R> {
    pub closed spec fn spec_repository(self) -> R {
        *self.repository
    }

    /// A service on a repository.
    pub fn new(repository: Arc<R>) -> (service: Self)
        ensures
            service.spec_repository() == *repository,
    {
        PortfolioService { repository }
    }
}

/// The error for too few accounts.
pub open spec fn is_too_few<A>(r: Result<A, CoreError>) -> bool {
    r matches Err(error) && error@ == CoreErrorView::InvalidInput(
        "A portfolio must contain at least 2 accounts."@,
    )
}

impl<R: PortfolioRepositoryTrait> PortfolioServiceTrait for PortfolioService<R> {
    fn get_all_portfolios(&self) -> (r: Result<Vec<Portfolio>, CoreError>)
        ensures
            call_ensures(R::get_all, (&self.spec_repository(),), r),
    {
        self.repository.get_all()
    }

    fn get_portfolio(&self, id: &String) -> (r: Result<Option<Portfolio>, CoreError>)
        ensures
            call_ensures(R::get_by_id, (&self.spec_repository(), id), r),
    {
        self.repository.get_by_id(id)
    }

    /// Fewer than two accounts are refused, and the repository is not asked.
    fn create_portfolio(&self, new: NewPortfolio) -> (r: Result<Portfolio, CoreError>)
        ensures
            if new.account_ids@.len() < 2 {
                is_too_few(r)
            } else {
                call_ensures(R::insert, (&self.spec_repository(), new), r)
            },
    {
        match validate_portfolio_accounts(&new.account_ids) {
            Ok(_) => self.repository.insert(new),
            Err(error) => Err(error),
        }
    }

    /// Fewer than two accounts are refused, and the repository is not asked.
    fn update_portfolio(&self, portfolio: Portfolio) -> (r: Result<Portfolio, CoreError>)
        ensures
            if portfolio.account_ids@.len() < 2 {
                is_too_few(r)
            } else {
                call_ensures(R::update, (&self.spec_repository(), portfolio), r)
            },
    {
        match validate_portfolio_accounts(&portfolio.account_ids) {
            Ok(_) => self.repository.update(portfolio),
            Err(error) => Err(error),
        }
    }

    fn delete_portfolio(&self, id: &String) -> (r: Result<usize, CoreError>)
        ensures
            call_ensures(R::delete, (&self.spec_repository(), id), r),
    {
        self.repository.delete(id)
    }

    /// For fewer than two accounts there is no portfolio, and the repository is
    /// not asked.
    fn find_by_accounts(&self, account_ids: &Vec<String>) -> (r: Result<
        Option<Portfolio>,
        CoreError,
    >)
        ensures
            if account_ids@.len() < 2 {
                r == Ok::<Option<Portfolio>, CoreError>(None)
            } else {
                exists|answer: Result<Vec<Portfolio>, CoreError>|
                    {
                        &&& #[trigger] call_ensures(
                            R::get_all,
                            (&self.spec_repository(),),
                            answer,
                        )
                        &&& match answer {
                            Err(error) => r == Err::<Option<Portfolio>, CoreError>(error),
                            Ok(portfolios) => r == Ok::<Option<Portfolio>, CoreError>(
                                first_of_accounts(portfolios@, texts(account_ids@).to_set()),
                            ),
                        }
                    }
            },
    {
        if account_ids.len() < 2 {
            return Ok(None);
        }
        let answer = self.repository.get_all();
        assert(call_ensures(R::get_all, (&self.spec_repository(),), answer));
        match answer {
            Err(error) => Err(error),
            Ok(portfolios) => Ok(find_of_accounts(portfolios, account_ids)),
        }
    }
}

// ── Rows ─────────────────────────────────────────────────────────────────────

/// A row of the table of portfolios.
#[derive(Clone, Debug)]
pub struct PortfolioDB {
    pub id: String,
    pub name: String,
    /// A JSON array.
    pub account_ids: String,
    pub created_at: String,
    pub updated_at: String,
}

/// A row to be written to the table of portfolios.
#[derive(Debug)]
pub struct NewPortfolioDB {
    pub id: String,
    pub name: String,
    /// A JSON array.
    pub account_ids: String,
    pub created_at: String,
    pub updated_at: String,
}

/// The portfolio of a row, of the accounts that were read in it.
pub open spec fn portfolio_of(row: PortfolioDB,
    account_ids: Option<Seq<Seq<char>>>) -> PortfolioView {
    PortfolioView {
        id: row.id@,
        name: row.name@,
        account_ids: match account_ids {
            Some(account_ids) => account_ids,
            None => Seq::empty(),
        },
        created_at: row.created_at@,
        updated_at: row.updated_at@,
    }
}

/// The portfolio of a row, of the accounts that were read in it: of none where
/// nothing was.
pub fn portfolio_with(row: PortfolioDB, account_ids: Option<Vec<String>>) -> (portfolio: Portfolio)
    ensures
        portfolio@ == portfolio_of(row, optional_texts(account_ids)),
        portfolio.id@ == row.id@,
        portfolio.name@ == row.name@,
        account_ids is Some ==> portfolio.account_ids@ == account_ids->0@,
        account_ids is None ==> portfolio.account_ids@.len() == 0,
        portfolio.created_at@ == row.created_at@,
        portfolio.updated_at@ == row.updated_at@,
{
    let account_ids = match account_ids {
        Some(account_ids) => account_ids,
        None => {
            let none: Vec<String> = Vec::new();
            assert(texts(none@) =~= Seq::empty());
            none
        },
    };
    Portfolio {
        id: row.id,
        name: row.name,
        account_ids,
        created_at: row.created_at,
        updated_at: row.updated_at,
    }
}

/// The portfolio of a row.
pub fn portfolio_from_row(row: PortfolioDB) -> (portfolio: Portfolio)
    ensures
        portfolio@ == portfolio_of(row, json_list_read(row.account_ids@)),
        portfolio.id@ == row.id@,
        portfolio.name@ == row.name@,
        json_list_read(row.account_ids@) is Some ==> texts(portfolio.account_ids@)
            == json_list_read(row.account_ids@)->0,
        json_list_read(row.account_ids@) is None ==> portfolio.account_ids@.len() == 0,
        portfolio.created_at@ == row.created_at@,
        portfolio.updated_at@ == row.updated_at@,
{
    let account_ids = read_json_list(row.account_ids.as_str());
    portfolio_with(row, account_ids)
}

/// The row of a portfolio to be created, with the identifier and the moment
/// that it gets, and the accounts as they are written.
pub fn new_row_with(
    new: NewPortfolio,
    new_id: String,
    account_ids: String,
    now: String,
) -> (row: NewPortfolioDB)
    ensures
        row.id@ == match new.id {
            Some(id) => id@,
            None => new_id@,
        },
        row.name == new.name,
        row.account_ids == account_ids,
        row.created_at@ == now@,
        row.updated_at@ == now@,
{
    NewPortfolioDB {
        id: match new.id {
            Some(id) => id,
            None => new_id,
        },
        name: new.name,
        account_ids,
        created_at: now.clone(),
        updated_at: now,
    }
}

/// Whether a row is the one of a portfolio to be created, as of a moment: there
/// is one where the moment is in the calendar, and the accounts read back from
/// it.
pub open spec fn is_new_row(row: Option<NewPortfolioDB>, new: NewPortfolio,
    now: Timestamp) -> bool {
    &&& row is Some <==> second_text(now.seconds, now.nanos) is Some
    &&& row matches Some(found) ==> {
        &&& new.id matches Some(id) ==> found.id@ == id@
        &&& found.name@ == new.name@
        &&& found.account_ids@ == json_list_text(texts(new.account_ids@))
        &&& json_list_read(found.account_ids@) == Some(texts(new.account_ids@))
        &&& found.created_at@ == second_text(now.seconds, now.nanos)->0
        &&& found.updated_at@ == found.created_at@
    }
}

/// The row of a portfolio to be created, as of a moment.
pub fn new_row_at(new: NewPortfolio, now: Timestamp) -> (row: Option<NewPortfolioDB>)
    ensures
        is_new_row(row, new, now),
        row matches Some(found) ==> {
            &&& new.id is Some ==> found.id@ == new.id->0@
            &&& found.name@ == new.name@
            &&& json_list_read(found.account_ids@) == Some(texts(new.account_ids@))
            &&& second_text(now.seconds, now.nanos) == Some(found.created_at@)
            &&& second_text(now.seconds, now.nanos) == Some(found.updated_at@)
        },
{
    match print_second(now) {
        None => None,
        Some(text) => {
            let account_ids = write_json_list(&new.account_ids);
            Some(new_row_with(new, new_id(), account_ids, text))
        },
    }
}

/// The row of a portfolio to be created, as of the present moment.
pub fn new_row(new: NewPortfolio) -> (row: Option<NewPortfolioDB>)
    ensures
        exists|now: Timestamp| is_new_row(row, new, now),
{
    let now = current_time();
    new_row_at(new, now)
}

/// Whether a row of the table is the row that was written.
pub open spec fn is_stored(row: PortfolioDB, written: NewPortfolioDB) -> bool {
    &&& row.id@ == written.id@
    &&& row.name@ == written.name@
    &&& row.account_ids@ == written.account_ids@
    &&& row.created_at@ == written.created_at@
    &&& row.updated_at@ == written.updated_at@
}

/// Whether a row is the one of a portfolio that has changed, as of a moment:
/// there is one where the moment is in the calendar, it keeps the moment at
/// which the portfolio was created, and it reads back as the portfolio, but for
/// when it was changed.
pub open spec fn is_changed_row(
    row: Option<NewPortfolioDB>,
    portfolio: Portfolio,
    now: Timestamp,
) -> bool {
    &&& row is Some <==> second_text(now.seconds, now.nanos) is Some
    &&& row matches Some(found) ==> {
        &&& found.id@ == portfolio.id@
        &&& found.name@ == portfolio.name@
        &&& found.account_ids@ == json_list_text(texts(portfolio.account_ids@))
        &&& found.created_at@ == portfolio.created_at@
        &&& found.updated_at@ == second_text(now.seconds, now.nanos)->0
        &&& forall|row: PortfolioDB| #[trigger]
            is_stored(row, found) ==> portfolio_of(row, json_list_read(row.account_ids@)) == (
            PortfolioView { updated_at: found.updated_at@, ..portfolio@ })
    }
}

/// The row of a portfolio that has changed, as of a moment.
pub fn changed_row_at(portfolio: Portfolio, now: Timestamp) -> (row: Option<NewPortfolioDB>)
    ensures
        is_changed_row(row, portfolio, now),
        row matches Some(found) ==> {
            &&& found.id@ == portfolio.id@
            &&& found.name@ == portfolio.name@
            &&& json_list_read(found.account_ids@) == Some(texts(portfolio.account_ids@))
            &&& found.created_at@ == portfolio.created_at@
            &&& second_text(now.seconds, now.nanos) == Some(found.updated_at@)
        },
{
    match print_second(now) {
        None => None,
        Some(text) => Some(
            NewPortfolioDB {
                id: portfolio.id,
                name: portfolio.name,
                account_ids: write_json_list(&portfolio.account_ids),
                created_at: portfolio.created_at,
                updated_at: text,
            },
        ),
    }
}

/// The row of a portfolio that has changed, as of the present moment.
pub fn changed_row(portfolio: Portfolio) -> (row: Option<NewPortfolioDB>)
    ensures
        exists|now: Timestamp| is_changed_row(row, portfolio, now),
{
    let now = current_time();
    changed_row_at(portfolio, now)
}

} // verus!
