use crowdfunding::{Contract, LedgerError, ProjectMetadata};

fn metadata() -> ProjectMetadata {
    ProjectMetadata {
        title: String::from("t"),
        description: String::from("d"),
        target: 100,
        minimum_pledge: 10,
        started_at: None,
        ended_at: None,
        funded: None,
        media: None,
        media_hash: None,
        extra: None,
        reference: None,
        reference_hash: None,
    }
}

fn ledger() -> Contract {
    let mut contract = Contract::new("admin".to_string());
    contract.create_project("first".to_string(), metadata(), "alice".to_string(), 1).unwrap();
    contract.donate_project("first".to_string(), 20, "bob".to_string()).unwrap();
    contract.vote_project("first".to_string(), "carol".to_string()).unwrap();
    contract
}

#[test]
fn sufficient_deposit_keeps_the_registration_and_returns_the_excess() {
    let mut contract = ledger();
    contract.create_project("second".to_string(), metadata(), "alice".to_string(), 2).unwrap();
    assert_eq!(contract.settle_registration("second".to_string(), 100, 3, 1000), Ok(700));
    assert_eq!(contract.get_number_of_projects(), 2);
    assert_eq!(contract.get_project_started_time("second".to_string()), Some(2));
    assert_eq!(contract.get_projects_by_owner("alice".to_string(), Some(0), Some(9)).len(), 2);
    // A deposit that is exactly the price leaves nothing to return.
    assert_eq!(contract.settle_registration("second".to_string(), 100, 10, 1000), Ok(0));
}

#[test]
fn short_deposit_undoes_the_registration() {
    let mut contract = ledger();
    let before = contract.records();
    contract.create_project("second".to_string(), metadata(), "alice".to_string(), 2).unwrap();
    contract.create_project("third".to_string(), metadata(), "dave".to_string(), 3).unwrap();
    assert_eq!(
        contract.settle_registration("third".to_string(), 100, 10, 999),
        Err(LedgerError::InsufficientPayment)
    );
    assert!(contract.get_project_info("third".to_string()).is_none());
    assert!(contract.get_projects_by_owner("dave".to_string(), Some(0), Some(9)).is_empty());
    assert_eq!(contract.get_number_of_projects(), 2);
    assert_eq!(
        contract.settle_registration("second".to_string(), u64::MAX, u128::MAX, u128::MAX),
        Err(LedgerError::InsufficientPayment)
    );
    assert!(contract.get_project_info("second".to_string()).is_none());
    assert_eq!(contract.get_number_of_projects(), 1);
    let owned = contract.get_projects_by_owner("alice".to_string(), Some(0), Some(9));
    assert_eq!(owned.len(), 1);
    assert_eq!(owned[0].project_id, "first");
    assert_eq!(contract.get_project_funded("first".to_string()), Some(20));
    assert_eq!(contract.get_project_supporters("first".to_string()), vec!["bob"]);
    assert_eq!(contract.get_project_voters("first".to_string()), vec!["carol"]);
    let after = contract.records();
    assert_eq!(after.len(), before.len());
    assert_eq!(after[0].project, before[0].project);
    // The identifier is free again.
    assert!(contract.create_project("second".to_string(), metadata(), "erin".to_string(), 4).is_ok());
}

#[test]
fn only_the_last_registration_is_settled() {
    let mut contract = ledger();
    contract.create_project("second".to_string(), metadata(), "alice".to_string(), 2).unwrap();
    assert_eq!(
        contract.settle_registration("first".to_string(), 100, 10, 0),
        Err(LedgerError::NotFound)
    );
    assert_eq!(
        contract.settle_registration("nowhere".to_string(), 100, 10, 5000),
        Err(LedgerError::NotFound)
    );
    assert_eq!(contract.get_number_of_projects(), 2);
    let mut empty = Contract::new("admin".to_string());
    assert_eq!(empty.settle_registration("first".to_string(), 1, 1, 1), Err(LedgerError::NotFound));
}

#[test]
fn later_operations_keep_the_time_of_registration() {
    let mut contract = Contract::new("admin".to_string());
    let mut supplied = metadata();
    supplied.started_at = Some(999);
    contract.create_project("first".to_string(), supplied, "alice".to_string(), 5).unwrap();
    assert_eq!(contract.get_project_started_time("first".to_string()), Some(5));
    contract.donate_project("first".to_string(), 20, "bob".to_string()).unwrap();
    contract.vote_project("first".to_string(), "carol".to_string()).unwrap();
    contract.create_project("second".to_string(), metadata(), "alice".to_string(), 6).unwrap();
    assert!(contract.create_project("first".to_string(), metadata(), "eve".to_string(), 7).is_err());
    contract.donate_project("first".to_string(), 90, "dave".to_string()).unwrap();
    assert!(contract.donate_project("first".to_string(), 90, "dave".to_string()).is_err());
    assert_eq!(contract.get_project_started_time("first".to_string()), Some(5));
    assert_eq!(contract.get_project_info("first".to_string()).unwrap().owner_id, "alice");
    assert_eq!(contract.get_project_started_time("nowhere".to_string()), None);
}
