use crowdfunding::records::ProjectRecord;
use crowdfunding::{Contract, JsonProject, LedgerError, ProjectMetadata};

fn metadata(target: u128, funded: Option<u128>) -> ProjectMetadata {
    ProjectMetadata {
        title: String::from("t"),
        description: String::from("d"),
        target,
        minimum_pledge: 10,
        started_at: Some(3),
        ended_at: None,
        funded,
        media: None,
        media_hash: None,
        extra: None,
        reference: Some(String::from("https://example.org/more.json")),
        reference_hash: Some(vec![9, 8, 7]),
    }
}

fn record(id: &str, owner: &str, supporters: &[&str], voters: &[&str]) -> ProjectRecord {
    ProjectRecord {
        project: JsonProject {
            owner_id: owner.to_string(),
            project_id: id.to_string(),
            metadata: metadata(100, Some(40)),
        },
        supporters: supporters.iter().map(|s| s.to_string()).collect(),
        voters: voters.iter().map(|s| s.to_string()).collect(),
    }
}

#[test]
fn ledger_is_written_out_project_by_project() {
    let mut contract = Contract::new("admin".to_string());
    contract.create_project("fund-1".to_string(), metadata(100, None), "alice".to_string(), 1).unwrap();
    contract.create_project("fund-2".to_string(), metadata(50, None), "bob".to_string(), 2).unwrap();
    contract.donate_project("fund-1".to_string(), 30, "carol".to_string()).unwrap();
    contract.donate_project("fund-1".to_string(), 30, "dave".to_string()).unwrap();
    contract.vote_project("fund-2".to_string(), "erin".to_string()).unwrap();

    let records = contract.records();
    assert_eq!(records.len(), 2);
    assert_eq!(records[0].project.project_id, "fund-1");
    assert_eq!(records[0].project.owner_id, "alice");
    assert_eq!(records[0].project.metadata.funded, Some(60));
    assert_eq!(records[0].project.metadata.started_at, Some(1));
    assert_eq!(records[0].supporters, vec!["carol", "dave"]);
    assert!(records[0].voters.is_empty());
    assert_eq!(records[1].project.project_id, "fund-2");
    assert!(records[1].supporters.is_empty());
    assert_eq!(records[1].voters, vec!["erin"]);
}

#[test]
fn ledger_read_back_is_the_ledger_written_out() {
    let mut contract = Contract::new("admin".to_string());
    for (i, owner) in ["alice", "bob", "alice", "carol", "alice"].iter().enumerate() {
        contract
            .create_project(format!("fund-{}", i), metadata(100, None), owner.to_string(), i as u64)
            .unwrap();
    }
    contract.donate_project("fund-0".to_string(), 30, "dave".to_string()).unwrap();
    contract.donate_project("fund-3".to_string(), 100, "dave".to_string()).unwrap();
    contract.vote_project("fund-2".to_string(), "erin".to_string()).unwrap();
    contract.vote_project("fund-2".to_string(), "dave".to_string()).unwrap();

    let back = Contract::from_records(contract.owner_id().clone(), &contract.records()).unwrap();
    assert_eq!(back.owner_id(), "admin");
    assert_eq!(back.get_number_of_projects(), 5);
    assert_eq!(back.get_projects_info(Some(0), Some(9)), contract.get_projects_info(Some(0), Some(9)));
    for owner in ["alice", "bob", "carol", "dave"] {
        assert_eq!(
            back.get_projects_by_owner(owner.to_string(), Some(0), Some(9)),
            contract.get_projects_by_owner(owner.to_string(), Some(0), Some(9))
        );
    }
    for i in 0..5 {
        let id = format!("fund-{}", i);
        assert_eq!(back.get_project_supporters(id.clone()), contract.get_project_supporters(id.clone()));
        assert_eq!(back.get_project_voters(id.clone()), contract.get_project_voters(id.clone()));
    }
    assert_eq!(back.get_project_funded("fund-3".to_string()), Some(100));
    // The ledger read back goes on where the other one stands.
    let mut back = back;
    assert_eq!(
        back.donate_project("fund-3".to_string(), 10, "erin".to_string()),
        Err(LedgerError::TargetAlreadyReached)
    );
    assert!(matches!(
        back.create_project("fund-4".to_string(), metadata(1, None), "x".to_string(), 9),
        Err(LedgerError::AlreadyExists)
    ));
}

#[test]
fn records_are_taken_as_they_are() {
    let records = vec![
        record("B", "bob", &["s1", "s2", "s1"], &[]),
        record("A", "alice", &[], &["v1", "v1"]),
    ];
    let contract = Contract::from_records("admin".to_string(), &records).unwrap();
    assert_eq!(contract.get_number_of_projects(), 2);
    let listed = contract.get_projects_info(Some(0), Some(5));
    assert_eq!(listed[0].project_id, "B");
    assert_eq!(listed[1].project_id, "A");
    // The registration time of a record is kept.
    assert_eq!(contract.get_project_started_time("A".to_string()), Some(3));
    assert_eq!(contract.get_project_funded("A".to_string()), Some(40));
    assert_eq!(contract.get_project_supporters("B".to_string()), vec!["s1", "s2"]);
    assert_eq!(contract.get_project_voters("A".to_string()), vec!["v1"]);
    assert_eq!(contract.get_projects_by_owner("bob".to_string(), None, Some(5)).len(), 1);
}

#[test]
fn records_that_name_a_project_twice_are_refused() {
    let records = vec![
        record("A", "alice", &[], &[]),
        record("B", "bob", &[], &[]),
        record("A", "carol", &[], &[]),
    ];
    assert!(matches!(
        Contract::from_records("admin".to_string(), &records),
        Err(LedgerError::AlreadyExists)
    ));
    let none: Vec<ProjectRecord> = Vec::new();
    let empty = Contract::from_records("admin".to_string(), &none).unwrap();
    assert_eq!(empty.get_number_of_projects(), 0);
    assert!(empty.records().is_empty());
}
