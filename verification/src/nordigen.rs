//! Importing bank accounts through GoCardless.

use crate::activities::{activity_views, UniversalActivity, UniversalActivityView};
use crate::amounts::{Amount, FloatBits, ONE, UnitPrice};
use crate::collect::are_positions;
use crate::text::{chain, optional_text, replace_char, replaced};
use crate::time::{current_time, iso_day_text, print_iso_day, SECONDS_PER_DAY, Timestamp};
use crate::ids::new_id;
use vstd::prelude::*;

verus! {

pub const GOCARDLESS_BASE_URL: &'static str = "https://bankaccountdata.gocardless.com/api/v2";

/// The names under which the secret store has what GoCardless needs.
pub const SECRET_CLIENT_ID: &'static str = "nordigen_client_id";

pub const SECRET_CLIENT_SECRET: &'static str = "nordigen_client_secret";

pub const SECRET_ACCESS_TOKEN: &'static str = "nordigen_access_token";

pub const SECRET_REFRESH_TOKEN: &'static str = "nordigen_refresh_token";

/// A bank that GoCardless reaches.
#[derive(Clone, Debug)]
pub struct GcInstitution {
    pub id: String,
    pub name: String,
    pub bic: Option<String>,
    pub transaction_total_days: Option<String>,
    pub countries: Vec<String>,
    pub logo: Option<String>,
}

/// A connection to a bank.
#[derive(Clone, Debug)]
pub struct GcRequisition {
    pub id: String,
    pub status: String,
    pub link: String,
    pub accounts: Vec<String>,
    pub institution_id: String,
}

/// An account at a bank.
#[derive(Clone, Debug)]
pub struct GcAccount {
    pub id: String,
    pub iban: Option<String>,
    pub currency: Option<String>,
    pub name: Option<String>,
    pub product: Option<String>,
    pub status: Option<String>,
}

/// A booked transaction.
#[derive(Debug)]
pub struct GcTransaction {
    pub transaction_id: Option<String>,
    pub booking_date: Option<String>,
    pub value_date: Option<String>,
    /// As the bank writes it.
    pub amount: String,
    /// What the amount is as a number, where it is one.
    pub parsed_amount: Option<Amount>,
    pub currency: String,
    pub remittance_information_unstructured: Option<String>,
    pub remittance_information_structured: Option<String>,
    pub debtor_name: Option<String>,
    pub creditor_name: Option<String>,
}

// ── Addresses ────────────────────────────────────────────────────────────────

/// The address of what GoCardless has under a path.
pub open spec fn address(path: Seq<char>) -> Seq<char> {
    GOCARDLESS_BASE_URL@ + path
}

fn address_of(path: &str) -> (url: String)
    ensures
        url@ == address(path@),
{
    chain(GOCARDLESS_BASE_URL, path)
}

/// Where new tokens are had.
pub fn new_token_url() -> (url: String)
    ensures
        url@ == address("/token/new/"@),
{
    address_of("/token/new/")
}

/// Where a token is refreshed.
pub fn refresh_token_url() -> (url: String)
    ensures
        url@ == address("/token/refresh/"@),
{
    address_of("/token/refresh/")
}

/// Where the banks of a country are listed.
pub fn institutions_url(country: &str) -> (url: String)
    ensures
        url@ == address("/institutions/?country="@ + country@),
{
    address_of(chain("/institutions/?country=", country).as_str())
}

/// Where connections are made.
pub fn requisitions_url() -> (url: String)
    ensures
        url@ == address("/requisitions/"@),
{
    address_of("/requisitions/")
}

/// Where a connection is looked at or deleted.
pub fn requisition_url(requisition_id: &str) -> (url: String)
    ensures
        url@ == address("/requisitions/"@ + requisition_id@ + "/"@),
{
    address_of(chain(chain("/requisitions/", requisition_id).as_str(), "/").as_str())
}

/// Where the details of an account are.
pub fn account_details_url(account_id: &str) -> (url: String)
    ensures
        url@ == address("/accounts/"@ + account_id@ + "/details/"@),
{
    address_of(chain(chain("/accounts/", account_id).as_str(), "/details/").as_str())
}

/// Where the transactions of an account are, from a day on.
pub fn transactions_url(account_id: &str, date_from: &str) -> (url: String)
    ensures
        url@ == address(
            "/accounts/"@ + account_id@ + "/transactions/?date_from="@ + date_from@,
        ),
{
    let start = chain(chain("/accounts/", account_id).as_str(), "/transactions/?date_from=");
    address_of(chain(start.as_str(), date_from).as_str())
}

/// By what a new connection is told from the others.
pub fn requisition_reference() -> (reference: String)
    ensures
        exists|id: Seq<char>| reference@ == "wealthfolio-"@ + id,
{
    let id = new_id();
    let reference = chain("wealthfolio-", id.as_str());
    assert(reference@ == "wealthfolio-"@ + id@);
    reference
}

// ── Access ───────────────────────────────────────────────────────────────────

/// Which secret to ask the store for, on the way to access.
#[derive(Debug)]
pub enum TokenQuestion {
    AccessToken,
    RefreshToken,
    /// The client's id, with the refresh token that is there.
    ClientId(String),
    /// The client's secret, with the refresh token that is there.
    ClientSecret(String),
}

/// What to do next, to get access.
#[derive(Debug)]
pub enum TokenStep {
    /// Ask the store for a secret.
    Ask(TokenQuestion),
    /// Use a token that is there already.
    Use(String),
    /// Get a new token, for this refresh token.
    Refresh(String),
    /// Give up, for this reason.
    Fail(String),
}

pub ghost enum TokenQuestionView {
    AccessToken,
    RefreshToken,
    ClientId(Seq<char>),
    ClientSecret(Seq<char>),
}

pub ghost enum TokenStepView {
    Ask(TokenQuestionView),
    Use(Seq<char>),
    Refresh(Seq<char>),
    Fail(Seq<char>),
}

impl View for TokenQuestion {
    type V = TokenQuestionView;

    open spec fn view(&self) -> TokenQuestionView {
        match self {
            TokenQuestion::AccessToken => TokenQuestionView::AccessToken,
            TokenQuestion::RefreshToken => TokenQuestionView::RefreshToken,
            TokenQuestion::ClientId(refresh) => TokenQuestionView::ClientId(refresh@),
            TokenQuestion::ClientSecret(refresh) => TokenQuestionView::ClientSecret(refresh@),
        }
    }
}

impl View for TokenStep {
    type V = TokenStepView;

    open spec fn view(&self) -> TokenStepView {
        match self {
            TokenStep::Ask(question) => TokenStepView::Ask(question@),
            TokenStep::Use(token) => TokenStepView::Use(token@),
            TokenStep::Refresh(token) => TokenStepView::Refresh(token@),
            TokenStep::Fail(reason) => TokenStepView::Fail(reason@),
        }
    }
}

/// What the secret store answers: a secret, that there is none, or an error.
pub open spec fn answer_view(answer: Result<Option<String>, String>) -> Result<
    Option<Seq<char>>,
    Seq<char>,
> {
    match answer {
        Ok(secret) => Ok(optional_text(secret)),
        Err(error) => Err(error@),
    }
}

/// The name under which the store has the secret that is asked for.
pub open spec fn secret_name(question: TokenQuestionView) -> Seq<char> {
    match question {
        TokenQuestionView::AccessToken => SECRET_ACCESS_TOKEN@,
        TokenQuestionView::RefreshToken => SECRET_REFRESH_TOKEN@,
        TokenQuestionView::ClientId(_) => SECRET_CLIENT_ID@,
        TokenQuestionView::ClientSecret(_) => SECRET_CLIENT_SECRET@,
    }
}

/// What to tell the user where a secret is missing. The access token may be
/// missing.
pub open spec fn missing_message(question: TokenQuestionView) -> Seq<char> {
    match question {
        TokenQuestionView::AccessToken => Seq::empty(),
        TokenQuestionView::RefreshToken =>
            "Not authenticated with GoCardless. Please connect first."@,
        TokenQuestionView::ClientId(_) => "GoCardless client ID not configured."@,
        TokenQuestionView::ClientSecret(_) => "GoCardless client secret not configured."@,
    }
}

/// What to do when a secret that has to be there is.
pub open spec fn step_with(question: TokenQuestionView, secret: Seq<char>) -> TokenStepView {
    match question {
        TokenQuestionView::AccessToken => TokenStepView::Use(secret),
        TokenQuestionView::RefreshToken => TokenStepView::Ask(TokenQuestionView::ClientId(secret)),
        TokenQuestionView::ClientId(refresh) => TokenStepView::Ask(
            TokenQuestionView::ClientSecret(refresh),
        ),
        TokenQuestionView::ClientSecret(refresh) => TokenStepView::Refresh(refresh),
    }
}

/// What to do with the store's answer to a question. An access token that is
/// there and not empty is used. Without one, the secrets by which a new one can
/// be had are asked for in turn, up to the first that is missing.
pub open spec fn step_after(
    question: TokenQuestionView,
    answer: Result<Option<Seq<char>>, Seq<char>>,
) -> TokenStepView {
    match answer {
        Ok(Some(secret)) if question != TokenQuestionView::AccessToken || secret.len() > 0 =>
            step_with(question, secret),
        _ if question == TokenQuestionView::AccessToken => TokenStepView::Ask(
            TokenQuestionView::RefreshToken,
        ),
        Err(error) => TokenStepView::Fail(error),
        _ => TokenStepView::Fail(missing_message(question)),
    }
}

/// A secret that is there leads on: an access token that is not empty is used, a
/// refresh token is kept while the client's id and secret are asked for, and is
/// then the one to be refreshed. Without an access token the refresh token is
/// asked for; without another secret the user is told which is missing, or what
/// the store said.
pub proof fn law_every_answer_leads_on(
    refresh: Seq<char>,
    secret: Seq<char>,
    error: Seq<char>,
)
    ensures
        secret.len() > 0 ==> step_after(TokenQuestionView::AccessToken, Ok(Some(secret)))
            == TokenStepView::Use(secret),
        secret.len() == 0 ==> step_after(TokenQuestionView::AccessToken, Ok(Some(secret)))
            == TokenStepView::Ask(TokenQuestionView::RefreshToken),
        step_after(TokenQuestionView::AccessToken, Ok(None)) == TokenStepView::Ask(
            TokenQuestionView::RefreshToken,
        ),
        step_after(TokenQuestionView::AccessToken, Err(error)) == TokenStepView::Ask(
            TokenQuestionView::RefreshToken,
        ),
        step_after(TokenQuestionView::RefreshToken, Ok(Some(secret))) == TokenStepView::Ask(
            TokenQuestionView::ClientId(secret),
        ),
        step_after(TokenQuestionView::ClientId(refresh), Ok(Some(secret))) == TokenStepView::Ask(
            TokenQuestionView::ClientSecret(refresh),
        ),
        step_after(TokenQuestionView::ClientSecret(refresh), Ok(Some(secret)))
            == TokenStepView::Refresh(refresh),
        step_after(TokenQuestionView::RefreshToken, Ok(None)) == TokenStepView::Fail(
            "Not authenticated with GoCardless. Please connect first."@,
        ),
        step_after(TokenQuestionView::ClientId(refresh), Ok(None)) == TokenStepView::Fail(
            "GoCardless client ID not configured."@,
        ),
        step_after(TokenQuestionView::ClientSecret(refresh), Ok(None)) == TokenStepView::Fail(
            "GoCardless client secret not configured."@,
        ),
        step_after(TokenQuestionView::RefreshToken, Err(error)) == TokenStepView::Fail(error),
        step_after(TokenQuestionView::ClientId(refresh), Err(error)) == TokenStepView::Fail(error),
        step_after(TokenQuestionView::ClientSecret(refresh), Err(error)) == TokenStepView::Fail(
            error,
        ),
{
}

/// The name under which the store has the secret that is asked for.
pub fn secret_name_for(question: &TokenQuestion) -> (name: &'static str)
    ensures
        name@ == secret_name(question@),
{
    match question {
        TokenQuestion::AccessToken => SECRET_ACCESS_TOKEN,
        TokenQuestion::RefreshToken => SECRET_REFRESH_TOKEN,
        TokenQuestion::ClientId(_) => SECRET_CLIENT_ID,
        TokenQuestion::ClientSecret(_) => SECRET_CLIENT_SECRET,
    }
}

/// The secret in an answer about one that has to be there, or the reason why
/// there is none.
fn owed_secret(answer: Result<Option<String>, String>, message: &str) -> (secret: Result<
    String,
    String,
>)
    ensures
        match answer_view(answer) {
            Ok(Some(found)) => secret is Ok && secret->Ok_0@ == found,
            Ok(None) => secret is Err && secret->Err_0@ == message@,
            Err(error) => secret is Err && secret->Err_0@ == error,
        },
{
    match answer {
        Ok(Some(found)) => Ok(found),
        Ok(None) => Err(message.to_owned()),
        Err(error) => Err(error),
    }
}

/// What to do with the store's answer to a question, on the way to access that
/// starts with the access token.
pub fn token_step(question: TokenQuestion, answer: Result<Option<String>, String>) -> (step:
    TokenStep)
    ensures
        step@ == step_after(question@, answer_view(answer)),
{
    match question {
        TokenQuestion::AccessToken => match answer {
            Ok(Some(token)) => {
                if token.as_str().is_empty() {
                    TokenStep::Ask(TokenQuestion::RefreshToken)
                } else {
                    TokenStep::Use(token)
                }
            },
            _ => TokenStep::Ask(TokenQuestion::RefreshToken),
        },
        TokenQuestion::RefreshToken => match owed_secret(
            answer,
            "Not authenticated with GoCardless. Please connect first.",
        ) {
            Ok(refresh) => TokenStep::Ask(TokenQuestion::ClientId(refresh)),
            Err(reason) => TokenStep::Fail(reason),
        },
        TokenQuestion::ClientId(refresh) => match owed_secret(
            answer,
            "GoCardless client ID not configured.",
        ) {
            Ok(_) => TokenStep::Ask(TokenQuestion::ClientSecret(refresh)),
            Err(reason) => TokenStep::Fail(reason),
        },
        TokenQuestion::ClientSecret(refresh) => match owed_secret(
            answer,
            "GoCardless client secret not configured.",
        ) {
            Ok(_) => TokenStep::Refresh(refresh),
            Err(reason) => TokenStep::Fail(reason),
        },
    }
}

/// How many questions may follow a question.
pub open spec fn questions_behind(question: TokenQuestionView) -> nat {
    match question {
        TokenQuestionView::AccessToken => 3,
        TokenQuestionView::RefreshToken => 2,
        TokenQuestionView::ClientId(_) => 1,
        TokenQuestionView::ClientSecret(_) => 0,
    }
}

/// What comes of asking a store with some secrets, from one question on.
pub open spec fn access_from(
    question: TokenQuestionView,
    store: spec_fn(Seq<char>) -> Result<Option<Seq<char>>, Seq<char>>,
) -> TokenStepView
    decreases questions_behind(question),
{
    match step_after(question, store(secret_name(question))) {
        TokenStepView::Ask(next) => access_from(next, store),
        step => step,
    }
}

/// Access is had with the token that the store has, unless it is empty, and then
/// nothing else is asked. It is had with a new token, for the refresh token that
/// the store has, exactly where the store has the client's id and secret too.
pub proof fn law_access_is_had_where_the_secrets_are(
    store: spec_fn(Seq<char>) -> Result<Option<Seq<char>>, Seq<char>>,
)
    ensures
        ({
            let outcome = access_from(TokenQuestionView::AccessToken, store);
            let cached = store(SECRET_ACCESS_TOKEN@);
            let refresh = store(SECRET_REFRESH_TOKEN@);
            let is_cached = cached matches Ok(Some(token)) && token.len() > 0;
            let has_others = refresh matches Ok(Some(_)) && store(SECRET_CLIENT_ID@) matches Ok(
                Some(_),
            ) && store(SECRET_CLIENT_SECRET@) matches Ok(Some(_));
            &&& is_cached ==> step_after(TokenQuestionView::AccessToken, cached) == outcome
                && outcome == TokenStepView::Use(cached->Ok_0->0)
            &&& !is_cached && has_others ==> outcome == TokenStepView::Refresh(refresh->Ok_0->0)
            &&& !is_cached && !has_others ==> outcome is Fail
        }),
{
    reveal_with_fuel(access_from, 4);
}

/// Whether a secret is there and not empty.
pub open spec fn is_filled(secret: Option<String>) -> bool {
    secret matches Some(text) && text@.len() > 0
}

/// Whether the user is connected: both the client and a refresh token are there.
pub fn has_credentials(client_id: &Option<String>, refresh_token: &Option<String>) -> (r: bool)
    ensures
        r == (is_filled(*client_id) && is_filled(*refresh_token)),
        r <==> client_id is Some && client_id->0@.len() > 0 && refresh_token is Some
            && refresh_token->0@.len() > 0,
{
    let has_id = match client_id {
        Some(id) => !id.as_str().is_empty(),
        None => false,
    };
    let has_refresh = match refresh_token {
        Some(token) => !token.as_str().is_empty(),
        None => false,
    };
    has_id && has_refresh
}

/// What to tell the user when a token can no longer be refreshed.
pub fn expired_message(body: &str) -> (message: String)
    ensures
        message@ == "GoCardless session expired ("@ + body@ + "). Please reconnect."@,
{
    chain(chain("GoCardless session expired (", body).as_str(), "). Please reconnect.")
}

/// What to tell the user of something that failed.
pub fn failure(what: &str, detail: &str) -> (message: String)
    ensures
        message@ == what@ + ": "@ + detail@,
{
    chain(chain(what, ": ").as_str(), detail)
}

// ── Importing ────────────────────────────────────────────────────────────────

/// How many days back the transactions start where the user does not say.
pub const DEFAULT_DAYS: i64 = 90;

/// The first of some texts that is there.
pub open spec fn first_text(a: Option<Seq<char>>, b: Option<Seq<char>>) -> Option<Seq<char>> {
    match a {
        Some(text) => Some(text),
        None => b,
    }
}

fn either(a: &Option<String>, b: &Option<String>) -> (r: Option<String>)
    ensures
        optional_text(r) == first_text(optional_text(*a), optional_text(*b)),
{
    match a {
        Some(text) => Some(text.clone()),
        None => match b {
            Some(text) => Some(text.clone()),
            None => None,
        },
    }
}

/// The moment some days before another.
fn days_before(now: Timestamp, days: i64) -> (moment: Option<Timestamp>)
    requires
        0 <= days <= 1_000_000,
    ensures
        moment is Some <==> now.seconds - days * SECONDS_PER_DAY >= i64::MIN,
        moment matches Some(found) ==> found.seconds == now.seconds - days * SECONDS_PER_DAY
            && found.nanos == now.nanos,
{
    let back: i64 = days * SECONDS_PER_DAY;
    match now.seconds.checked_sub(back) {
        Some(seconds) => Some(Timestamp { seconds, nanos: now.nanos }),
        None => None,
    }
}

/// The day from which transactions are fetched: what the user says, or ninety
/// days before a moment, where the calendar has that day.
pub open spec fn start_day_of(date_from: Option<Seq<char>>, now: Timestamp) -> Option<Seq<char>> {
    let seconds = now.seconds - DEFAULT_DAYS * SECONDS_PER_DAY;
    match date_from {
        Some(date) => Some(date),
        None => if seconds >= i64::MIN {
            iso_day_text(seconds as i64, now.nanos)
        } else {
            None
        },
    }
}

/// The day from which transactions are fetched, as of a moment.
pub fn start_day_at(date_from: &Option<String>, now: Timestamp) -> (day: Option<String>)
    ensures
        optional_text(day) == start_day_of(optional_text(*date_from), now),
{
    match date_from {
        Some(date) => Some(date.clone()),
        None => match days_before(now, DEFAULT_DAYS) {
            Some(moment) => print_iso_day(moment),
            None => None,
        },
    }
}

/// Transactions are fetched from the day that the user gives, and where none is
/// given from the day as many seconds back as ninety days have.
pub proof fn law_fetching_starts_on_the_day_given(date_from: Option<Seq<char>>, now: Timestamp)
    ensures
        date_from is Some ==> start_day_of(date_from, now) == date_from,
        date_from is None && now.seconds - 7_776_000 >= i64::MIN ==> start_day_of(date_from, now)
            == iso_day_text((now.seconds - 7_776_000) as i64, now.nanos),
        date_from is None && now.seconds - 7_776_000 < i64::MIN ==> start_day_of(
            date_from,
            now,
        ) is None,
{
}

/// The day from which transactions are fetched, as of the present moment.
pub fn start_day(date_from: &Option<String>) -> (day: Option<String>)
    ensures
        exists|now: Timestamp| optional_text(day)
            == #[trigger] start_day_of(optional_text(*date_from), now),
{
    let now = current_time();
    start_day_at(date_from, now)
}

/// The text of an amount with a point where the bank writes a comma.
pub open spec fn dotted(amount: Seq<char>) -> Seq<char> {
    replaced(amount, ',', '.')
}

/// The text of an amount, for it to be read as a number.
pub fn amount_text(amount: &str) -> (text: String)
    ensures
        text@ == dotted(amount@),
{
    replace_char(amount, ',', '.')
}

/// What a transaction is described by: what the sender wrote, or who paid or was
/// paid, the first that is there.
pub open spec fn gc_description(tx: GcTransaction) -> Seq<char> {
    let written = first_text(
        optional_text(tx.remittance_information_unstructured),
        optional_text(tx.remittance_information_structured),
    );
    match first_text(
        written,
        first_text(optional_text(tx.creditor_name), optional_text(tx.debtor_name)),
    ) {
        Some(description) => description,
        None => Seq::empty(),
    }
}

/// The date of a transaction: when it was booked, or else its value date.
pub open spec fn gc_date(tx: GcTransaction) -> Option<Seq<char>> {
    first_text(optional_text(tx.booking_date), optional_text(tx.value_date))
}

/// What a transaction is known by: what GoCardless calls it, or its date and its
/// amount.
pub open spec fn gc_id(tx: GcTransaction, date: Seq<char>) -> Seq<char> {
    match tx.transaction_id {
        Some(id) => id@,
        None => "gc-"@ + date + "-"@ + replaced(replaced(dotted(tx.amount@), '.', '_'), '-', 'm'),
    }
}

/// The activity of a transaction: money that enters is a deposit, money that
/// leaves a withdrawal; none where the amount is no number or zero, or where
/// there is no date.
pub open spec fn gc_activity_of(tx: GcTransaction) -> Option<UniversalActivityView> {
    match (tx.parsed_amount, gc_date(tx)) {
        (Some(amount), Some(date)) => if amount.value.spec_is_zero() {
            None
        } else {
            Some(
                UniversalActivityView {
                    id: gc_id(tx, date),
                    source_system: "GOCARDLESS"@,
                    activity_type: if amount.value.spec_is_positive() {
                        "DEPOSIT"@
                    } else {
                        "WITHDRAWAL"@
                    },
                    trade_date: date,
                    price: UnitPrice::Stated(amount.value.spec_abs()),
                    units: FloatBits { bits: ONE },
                    value: amount.value.spec_abs(),
                    two_places: amount.two_places@,
                    currency: tx.currency@,
                    description: gc_description(tx),
                    fee: FloatBits { bits: 0 },
                    symbol: None,
                    needs_review: false,
                },
            )
        },
        _ => None,
    }
}

/// Whether an activity is what a booked transaction is imported as: money that
/// enters is deposited, money that leaves is withdrawn, on the day and in the
/// currency of the transaction.
pub open spec fn is_import_of(activity: UniversalActivity, tx: GcTransaction) -> bool {
    &&& tx.parsed_amount is Some && tx.parsed_amount->0.value.bits != 0
        && tx.parsed_amount->0.value.bits != 0x8000_0000_0000_0000 && (tx.booking_date is Some
        || tx.value_date is Some)
    &&& activity.source_system@ == "GOCARDLESS"@
    &&& activity.trade_date@ == (match tx.booking_date { Some(date) => date@,
        None => tx.value_date->0@ })
    &&& activity.currency@ == tx.currency@
    &&& activity.amount.two_places@ == tx.parsed_amount->0.two_places@
    &&& (0 < tx.parsed_amount->0.value.bits <= 0x7FF0_0000_0000_0000 ==> activity.activity_type@
        == "DEPOSIT"@)
    &&& (!(0 < tx.parsed_amount->0.value.bits <= 0x7FF0_0000_0000_0000) ==> activity.activity_type@
        == "WITHDRAWAL"@)
    &&& (tx.parsed_amount->0.value.bits < 0x8000_0000_0000_0000 ==> activity.amount.value.bits
        == tx.parsed_amount->0.value.bits)
    &&& (tx.parsed_amount->0.value.bits >= 0x8000_0000_0000_0000 ==> activity.amount.value.bits
        + 0x8000_0000_0000_0000 == tx.parsed_amount->0.value.bits)
    &&& activity.price == UnitPrice::Stated(activity.amount.value)
    &&& activity.units.bits == 0x3FF0_0000_0000_0000
    &&& activity.fee.bits == 0
    &&& activity.symbol is None
    &&& !activity.needs_review
    &&& (tx.transaction_id matches Some(id) ==> activity.id@ == id@)
    &&& (tx.remittance_information_unstructured matches Some(text) ==> activity.description@
        == text@)
    &&& (tx.remittance_information_unstructured is None
        && tx.remittance_information_structured is Some ==> activity.description@
        == tx.remittance_information_structured->0@)
    &&& (tx.remittance_information_unstructured is None
        && tx.remittance_information_structured is None && tx.creditor_name is Some
        ==> activity.description@ == tx.creditor_name->0@)
    &&& (tx.remittance_information_unstructured is None
        && tx.remittance_information_structured is None && tx.creditor_name is None
        && tx.debtor_name is Some ==> activity.description@ == tx.debtor_name->0@)
    &&& (tx.remittance_information_unstructured is None
        && tx.remittance_information_structured is None && tx.creditor_name is None
        && tx.debtor_name is None ==> activity.description@.len() == 0)
}

/// The activity of a transaction.
pub fn map_gc_transaction(tx: &GcTransaction) -> (activity: Option<UniversalActivity>)
    ensures
        match activity {
            Some(found) => gc_activity_of(*tx) == Some(found@),
            None => gc_activity_of(*tx) is None,
        },
        activity is Some <==> tx.parsed_amount is Some
            && tx.parsed_amount->0.value.bits != 0
            && tx.parsed_amount->0.value.bits != 0x8000_0000_0000_0000
            && (tx.booking_date is Some || tx.value_date is Some),
        activity matches Some(found) ==> is_import_of(found, *tx),
{
    proof {
        law_booked_transaction_is_mapped(*tx);
    }
    let amount = match &tx.parsed_amount {
        Some(amount) => amount,
        None => {
            return None;
        },
    };
    if amount.value.is_zero() {
        return None;
    }
    let date = match either(&tx.booking_date, &tx.value_date) {
        Some(date) => date,
        None => {
            return None;
        },
    };
    let activity_type = if amount.value.is_positive() {
        "DEPOSIT"
    } else {
        "WITHDRAWAL"
    };
    let written = either(
        &tx.remittance_information_unstructured,
        &tx.remittance_information_structured,
    );
    let names = either(&tx.creditor_name, &tx.debtor_name);
    let description = match either(&written, &names) {
        Some(description) => description,
        None => String::new(),
    };
    let id = match &tx.transaction_id {
        Some(id) => id.clone(),
        None => {
            let underlined = replace_char(amount_text(tx.amount.as_str()).as_str(), '.', '_');
            let safe = replace_char(underlined.as_str(), '-', 'm');
            let start = chain(chain("gc-", date.as_str()).as_str(), "-");
            chain(start.as_str(), safe.as_str())
        },
    };
    Some(
        UniversalActivity {
            id,
            source_system: "GOCARDLESS".to_owned(),
            activity_type: activity_type.to_owned(),
            trade_date: date,
            price: UnitPrice::Stated(amount.value.abs()),
            units: FloatBits { bits: ONE },
            amount: Amount { value: amount.value.abs(), two_places: amount.two_places.clone() },
            currency: tx.currency.clone(),
            description,
            fee: FloatBits { bits: 0 },
            symbol: None,
            needs_review: false,
        },
    )
}

/// The activities of transactions.
pub open spec fn gc_activities_of(transactions: Seq<GcTransaction>) -> Seq<UniversalActivityView>
    decreases transactions.len(),
{
    if transactions.len() == 0 {
        Seq::empty()
    } else {
        match gc_activity_of(transactions.last()) {
            Some(activity) => gc_activities_of(transactions.drop_last()).push(activity),
            None => gc_activities_of(transactions.drop_last()),
        }
    }
}

/// A booked transaction is imported exactly where it has an amount other than
/// zero and a date, as a deposit where the amount is more than zero and as a
/// withdrawal otherwise: with its own date, currency and amount, under the
/// identifier that GoCardless gives it.
pub proof fn law_booked_transaction_is_mapped(tx: GcTransaction)
    ensures
        gc_activity_of(tx) is Some <==> tx.parsed_amount is Some
            && tx.parsed_amount->0.value.bits != 0
            && tx.parsed_amount->0.value.bits != 0x8000_0000_0000_0000
            && (tx.booking_date is Some || tx.value_date is Some),
        gc_activity_of(tx) matches Some(activity) ==> {
            &&& activity.source_system == "GOCARDLESS"@
            &&& activity.trade_date == (match tx.booking_date { Some(date) => date@,
                None => tx.value_date->0@ })
            &&& activity.currency == tx.currency@
            &&& activity.two_places == tx.parsed_amount->0.two_places@
            &&& (0 < tx.parsed_amount->0.value.bits <= 0x7FF0_0000_0000_0000
                ==> activity.activity_type == "DEPOSIT"@)
            &&& (!(0 < tx.parsed_amount->0.value.bits <= 0x7FF0_0000_0000_0000)
                ==> activity.activity_type == "WITHDRAWAL"@)
            &&& (tx.parsed_amount->0.value.bits < 0x8000_0000_0000_0000 ==> activity.value.bits
                == tx.parsed_amount->0.value.bits)
            &&& (tx.parsed_amount->0.value.bits >= 0x8000_0000_0000_0000 ==> activity.value.bits
                + 0x8000_0000_0000_0000 == tx.parsed_amount->0.value.bits)
            &&& activity.price == UnitPrice::Stated(activity.value)
            &&& activity.units.bits == 0x3FF0_0000_0000_0000
            &&& activity.fee.bits == 0
            &&& activity.symbol is None
            &&& !activity.needs_review
            &&& (tx.transaction_id matches Some(id) ==> activity.id == id@)
            &&& (tx.remittance_information_unstructured matches Some(text) ==> activity.description
                == text@)
            &&& (tx.remittance_information_unstructured is None
                && tx.remittance_information_structured is Some ==> activity.description
                == tx.remittance_information_structured->0@)
            &&& (tx.remittance_information_unstructured is None
                && tx.remittance_information_structured is None && tx.creditor_name is Some
                ==> activity.description == tx.creditor_name->0@)
            &&& (tx.remittance_information_unstructured is None
                && tx.remittance_information_structured is None && tx.creditor_name is None
                && tx.debtor_name is Some ==> activity.description == tx.debtor_name->0@)
            &&& (tx.remittance_information_unstructured is None
                && tx.remittance_information_structured is None && tx.creditor_name is None
                && tx.debtor_name is None ==> activity.description.len() == 0)
        },
        gc_activity_of(tx) is Some && tx.transaction_id is None ==> gc_activity_of(tx)->0.id
            == "gc-"@ + gc_activity_of(tx)->0.trade_date + "-"@ + tx.amount@.map_values(
            (|c: char|
                if c == ',' || c == '.' {
                    '_'
                } else if c == '-' {
                    'm'
                } else {
                    c
                }),
        ),
{
    assert(replaced(replaced(dotted(tx.amount@), '.', '_'), '-', 'm') =~= tx.amount@.map_values(
        (|c: char|
            if c == ',' || c == '.' {
                '_'
            } else if c == '-' {
                'm'
            } else {
                c
            }),
    ));
}

/// Every booked transaction with an amount other than zero and a date is
/// imported, once, in the order of the transactions, and nothing else is.
pub proof fn law_every_booked_transaction_is_imported(booked: Seq<GcTransaction>) -> (positions: Seq<
    int,
>)
    ensures
        are_positions(positions, booked.len() as int),
        positions.len() == gc_activities_of(booked).len(),
        forall|k: int|
            0 <= k < positions.len() ==> Some(gc_activities_of(booked)[k]) == gc_activity_of(
                booked[#[trigger] positions[k]],
            ),
        forall|i: int|
            0 <= i < booked.len() && (#[trigger] booked[i]).parsed_amount is Some
                && booked[i].parsed_amount->0.value.bits != 0
                && booked[i].parsed_amount->0.value.bits != 0x8000_0000_0000_0000
                && (booked[i].booking_date is Some || booked[i].value_date is Some)
                    ==> positions.contains(i),
    decreases booked.len(),
{
    if booked.len() == 0 {
        Seq::empty()
    } else {
        let fewer = booked.drop_last();
        let last = booked.len() - 1;
        let before = law_every_booked_transaction_is_imported(fewer);
        law_booked_transaction_is_mapped(booked[last]);
        let positions = if gc_activity_of(booked.last()) is Some {
            before.push(last)
        } else {
            before
        };
        assert forall|k: int| 0 <= k < positions.len() implies Some(gc_activities_of(booked)[k])
            == gc_activity_of(booked[#[trigger] positions[k]]) by {
            if k < before.len() {
                assert(positions[k] == before[k]);
                assert(fewer[before[k]] == booked[before[k]]);
            }
        }
        assert forall|i: int|
            0 <= i < booked.len() && gc_activity_of(#[trigger] booked[i]) is Some
                implies positions.contains(
            i,
        ) by {
            law_booked_transaction_is_mapped(booked[i]);
            if i < last {
                assert(fewer[i] == booked[i]);
                assert(before.contains(i));
                let k = choose|k: int| 0 <= k < before.len() && before[k] == i;
                assert(positions[k] == i);
            } else {
                assert(positions[positions.len() - 1] == i);
            }
        }
        assert forall|i: int|
            0 <= i < booked.len() && (#[trigger] booked[i]).parsed_amount is Some
                && booked[i].parsed_amount->0.value.bits != 0
                && booked[i].parsed_amount->0.value.bits != 0x8000_0000_0000_0000
                && (booked[i].booking_date is Some || booked[i].value_date is Some)
                    implies positions.contains(i) by {
            law_booked_transaction_is_mapped(booked[i]);
        }
        assert forall|j: int, k: int| 0 <= j < k < positions.len() implies #[trigger] positions[j]
            < #[trigger] positions[k] by {
            assert(positions[j] == before[j]);
            if k < before.len() {
                assert(positions[k] == before[k]);
            }
        }
        positions
    }
}

/// What is to be imported of booked transactions.
#[derive(Debug)]
pub struct GcImportPlan {
    pub activities: Vec<UniversalActivity>,
    pub skipped: usize,
}

/// What is to be imported of booked transactions: every one that has an
/// activity, in their order.
pub fn plan_gc_import(booked: &Vec<GcTransaction>) -> (plan: GcImportPlan)
    ensures
        activity_views(plan.activities@) == gc_activities_of(booked@),
        plan.activities@.len() + plan.skipped == booked@.len(),
        exists|positions: Seq<int>| #[trigger]
            are_positions(positions, booked@.len() as int) && positions.len()
                == plan.activities@.len() && (forall|k: int|
                0 <= k < positions.len() ==> is_import_of(
                    plan.activities@[k],
                    booked@[#[trigger] positions[k]],
                )) && (forall|i: int|
                0 <= i < booked@.len() && (#[trigger] booked@[i]).parsed_amount is Some
                    && booked@[i].parsed_amount->0.value.bits != 0
                    && booked@[i].parsed_amount->0.value.bits != 0x8000_0000_0000_0000
                    && (booked@[i].booking_date is Some || booked@[i].value_date is Some)
                        ==> positions.contains(i)),
{
    let mut activities: Vec<UniversalActivity> = Vec::new();
    assert(activity_views(activities@) =~= gc_activities_of(booked@.take(0)));
    for i in 0..booked.len()
        invariant
            activities@.len() <= i,
            activity_views(activities@) == gc_activities_of(booked@.take(i as int)),
    {
        let ghost before = activities@;
        assert(booked@.take(i + 1).drop_last() =~= booked@.take(i as int));
        match map_gc_transaction(&booked[i]) {
            Some(activity) => {
                activities.push(activity);
                assert(activity_views(activities@) =~= activity_views(before).push(activity@));
            },
            None => {},
        }
    }
    assert(booked@.take(booked@.len() as int) =~= booked@);
    let skipped: usize = booked.len() - activities.len();
    proof {
        let positions = law_every_booked_transaction_is_imported(booked@);
        assert forall|k: int| 0 <= k < positions.len() implies Some(activities@[k]@)
            == gc_activity_of(booked@[#[trigger] positions[k]]) by {
            assert(activity_views(activities@)[k] == activities@[k]@);
        }
        assert forall|k: int| 0 <= k < positions.len() implies is_import_of(
            activities@[k],
            booked@[#[trigger] positions[k]],
        ) by {
            law_booked_transaction_is_mapped(booked@[positions[k]]);
        }
    }
    GcImportPlan { activities, skipped }
}

/// What came of a synchronisation.
#[derive(Debug)]
pub struct NordigenSyncResult {
    pub account_id: String,
    pub transactions_imported: usize,
    pub transactions_skipped: usize,
}

/// What came of a synchronisation, from its plan and the number of activities
/// that were imported.
pub fn gc_sync_result(account_id: String, plan: &GcImportPlan, imported: usize) -> (result:
    NordigenSyncResult)
    ensures
        result.account_id == account_id,
        result.transactions_imported == imported,
        result.transactions_skipped == plan.skipped,
{
    NordigenSyncResult {
        account_id,
        transactions_imported: imported,
        transactions_skipped: plan.skipped,
    }
}

} // verus!
