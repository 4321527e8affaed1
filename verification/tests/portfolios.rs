use std::cell::RefCell;
use std::sync::Arc;
use wealthfolio::errors::CoreError;
use wealthfolio::portfolios::{
    changed_row, changed_row_at, find_of_accounts, new_row, new_row_at, new_row_with,
    portfolio_from_row, portfolio_with, validate_portfolio_accounts, NewPortfolio, NewPortfolioDB,
    Portfolio, PortfolioDB, PortfolioRepositoryTrait, PortfolioService, PortfolioServiceTrait,
};
use wealthfolio::time::Timestamp;

fn ids(list: &[&str]) -> Vec<String> {
    list.iter().map(|id| id.to_string()).collect()
}

fn portfolio(id: &str, accounts: &[&str]) -> Portfolio {
    Portfolio {
        id: id.to_string(),
        name: format!("Portfolio {id}"),
        account_ids: ids(accounts),
        created_at: "then".to_string(),
        updated_at: "then".to_string(),
    }
}

struct Repository {
    asked: RefCell<Vec<String>>,
}

impl PortfolioRepositoryTrait for Repository {
    fn get_all(&self) -> Result<Vec<Portfolio>, CoreError> {
        self.asked.borrow_mut().push("all".to_string());
        Ok(vec![
            portfolio("1", &["a", "b"]),
            portfolio("2", &["b", "c"]),
            portfolio("3", &["c", "b"]),
        ])
    }

    fn get_by_id(&self, id: &String) -> Result<Option<Portfolio>, CoreError> {
        Ok(if id == "1" {
            Some(portfolio("1", &["a", "b"]))
        } else {
            None
        })
    }

    fn insert(&self, new: NewPortfolio) -> Result<Portfolio, CoreError> {
        self.asked.borrow_mut().push(format!("insert {}", new.name));
        Ok(portfolio("new", &["a", "b"]))
    }

    fn update(&self, portfolio: Portfolio) -> Result<Portfolio, CoreError> {
        self.asked
            .borrow_mut()
            .push(format!("update {}", portfolio.id));
        Ok(portfolio)
    }

    fn delete(&self, id: &String) -> Result<usize, CoreError> {
        self.asked.borrow_mut().push(format!("delete {id}"));
        Ok(1)
    }
}

fn service() -> (PortfolioService<Repository>, Arc<Repository>) {
    let repository = Arc::new(Repository {
        asked: RefCell::new(vec![]),
    });
    (PortfolioService::new(repository.clone()), repository)
}

fn new_portfolio(accounts: &[&str]) -> NewPortfolio {
    NewPortfolio {
        id: None,
        name: "Mine".to_string(),
        account_ids: ids(accounts),
    }
}

#[test]
fn a_portfolio_has_two_accounts_or_more() {
    assert!(validate_portfolio_accounts(&ids(&["a", "b"])).is_ok());
    let error = validate_portfolio_accounts(&ids(&["a"])).unwrap_err();
    assert!(matches!(error, CoreError::InvalidInput(_)));
    assert_eq!(
        error.message(),
        "A portfolio must contain at least 2 accounts."
    );
}

#[test]
fn too_few_accounts_never_reach_the_repository() {
    let (service, repository) = service();
    assert!(service.create_portfolio(new_portfolio(&["a"])).is_err());
    assert!(service.update_portfolio(portfolio("1", &[])).is_err());
    assert!(service.find_by_accounts(&ids(&["a"])).unwrap().is_none());
    assert!(repository.asked.borrow().is_empty());
}

#[test]
fn requests_are_handed_on() {
    let (service, repository) = service();
    assert_eq!(service.get_all_portfolios().unwrap().len(), 3);
    assert_eq!(
        service
            .get_portfolio(&"1".to_string())
            .unwrap()
            .map(|found| found.id),
        Some("1".to_string())
    );
    assert!(service.get_portfolio(&"9".to_string()).unwrap().is_none());
    assert_eq!(
        service
            .create_portfolio(new_portfolio(&["a", "b"]))
            .unwrap()
            .id,
        "new"
    );
    assert_eq!(
        service
            .update_portfolio(portfolio("2", &["a", "b"]))
            .unwrap()
            .id,
        "2"
    );
    assert_eq!(service.delete_portfolio(&"3".to_string()).unwrap(), 1);
    assert_eq!(
        *repository.asked.borrow(),
        vec!["all", "insert Mine", "update 2", "delete 3"]
    );
}

#[test]
fn accounts_are_found_in_any_order() {
    let (service, _) = service();
    for accounts in [&["b", "c"][..], &["c", "b"][..], &["c", "b", "c"][..]] {
        let found = service.find_by_accounts(&ids(accounts)).unwrap();
        assert_eq!(found.map(|found| found.id), Some("2".to_string()));
    }
    assert!(service
        .find_by_accounts(&ids(&["a", "b", "c"]))
        .unwrap()
        .is_none());
    assert!(service
        .find_by_accounts(&ids(&["a", "c"]))
        .unwrap()
        .is_none());
    assert!(find_of_accounts(vec![], &ids(&["a", "b"])).is_none());
}

fn stored(row: NewPortfolioDB) -> PortfolioDB {
    PortfolioDB {
        id: row.id,
        name: row.name,
        account_ids: row.account_ids,
        created_at: row.created_at,
        updated_at: row.updated_at,
    }
}

// 2024-05-06 12:34:56 UTC
const NOW: Timestamp = Timestamp {
    seconds: 1_714_998_896,
    nanos: 0,
};

#[test]
fn a_new_portfolio_gets_an_id_and_a_moment() {
    let row = new_row_at(new_portfolio(&["a", "b\"c"]), NOW).unwrap();
    assert_eq!(row.id.len(), 36);
    assert_eq!(row.name, "Mine");
    assert_eq!(row.account_ids, "[\"a\",\"b\\\"c\"]");
    assert_eq!(row.created_at, "2024-05-06T12:34:56Z");
    assert_eq!(row.updated_at, "2024-05-06T12:34:56Z");

    let mut named = new_portfolio(&["a", "b"]);
    named.id = Some("own".to_string());
    assert_eq!(new_row(named).unwrap().id, "own");

    let row = new_row_with(
        new_portfolio(&["a", "b"]),
        "given".to_string(),
        "[]".to_string(),
        "now".to_string(),
    );
    assert_eq!(row.id, "given");
    assert_eq!(row.account_ids, "[]");
    assert_eq!(row.created_at, "now");
}

#[test]
fn a_moment_out_of_the_calendar_makes_no_row() {
    let never = Timestamp {
        seconds: i64::MAX,
        nanos: 0,
    };
    assert!(new_row_at(new_portfolio(&["a", "b"]), never).is_none());
    assert!(changed_row_at(portfolio("1", &["a", "b"]), never).is_none());
}

#[test]
fn what_is_written_reads_back() {
    let row = changed_row_at(portfolio("1", &["a", "é\n", "\u{1F600}"]), NOW).unwrap();
    let read = portfolio_from_row(stored(row));
    assert_eq!(read.id, "1");
    assert_eq!(read.name, "Portfolio 1");
    assert_eq!(read.account_ids, ids(&["a", "é\n", "\u{1F600}"]));
    assert_eq!(read.created_at, "then");
    assert_eq!(read.updated_at, "2024-05-06T12:34:56Z");
    assert_eq!(
        changed_row(portfolio("1", &["a", "b"])).unwrap().created_at,
        "then"
    );
}

#[test]
fn accounts_that_cannot_be_read_are_none() {
    let mut row = stored(changed_row_at(portfolio("1", &["a", "b"]), NOW).unwrap());
    row.account_ids = "not json".to_string();
    assert!(portfolio_from_row(row).account_ids.is_empty());
    let row = stored(changed_row_at(portfolio("1", &["a", "b"]), NOW).unwrap());
    assert_eq!(
        portfolio_with(row, Some(ids(&["x"]))).account_ids,
        ids(&["x"])
    );
}
