use crowdfunding::{Contract, LedgerError, ProjectMetadata, Transfer};
use near_sdk::test_utils::accounts;

const CREATE_PROJECT_STORAGE_COST: u128 = 60000000000000000000000;
const DONATE_PROJECT_AMOUNT: u128 = 3000_000_000_000_000_000_000_000;
const TARGET: u128 = 10_000_000_000_000_000_000_000_000;
const MINIMUM_PLEDGE: u128 = 1_000_000_000_000_000_000_000_000;
const ONE_NEAR: u128 = 1_000_000_000_000_000_000_000_000;
const BLOCK_TIMESTAMP: u64 = 0;

fn get_sample_metadata() -> ProjectMetadata {
    ProjectMetadata {
        title: String::from("PROJECT_TEST"),
        description: String::from("PROJECT_DESCRIPTION"),
        target: TARGET,
        minimum_pledge: MINIMUM_PLEDGE,
        started_at: Some(BLOCK_TIMESTAMP),
        ended_at: Some(BLOCK_TIMESTAMP + 2000_000_000 as u64),
        funded: Some(0 as u128),
        media: None,
        media_hash: None,
        extra: None,
        reference: None,
        reference_hash: None,
    }
}

fn small_metadata(target: u128, minimum_pledge: u128) -> ProjectMetadata {
    ProjectMetadata {
        title: String::from("small"),
        description: String::from("a small project"),
        target,
        minimum_pledge,
        started_at: None,
        ended_at: None,
        funded: None,
        media: Some(String::from("https://example.org/cover.png")),
        media_hash: Some(vec![1, 2, 3]),
        extra: Some(String::from("{}")),
        reference: None,
        reference_hash: None,
    }
}

#[test]
fn test_create_project() {
    // Init contract
    let mut contract = Contract::new(accounts(0).to_string());

    let project_id = "VBI_FUND".to_string();
    contract
        .create_project(
            project_id.clone(),
            get_sample_metadata(),
            accounts(0).to_string(),
            BLOCK_TIMESTAMP,
        )
        .unwrap();

    let project = contract.get_project_info(project_id.clone()).unwrap();

    assert_eq!(accounts(0).to_string(), project.owner_id);
    assert_eq!(project_id.clone(), project.project_id);
    assert_eq!(project.metadata, get_sample_metadata());
    assert_eq!(contract.get_number_of_projects(), 1);
}

#[test]
fn test_get_target() {
    let mut contract = Contract::new(accounts(0).to_string());

    let project_id = "VBI_FUND".to_string();
    contract
        .create_project(
            project_id.clone(),
            get_sample_metadata(),
            accounts(0).to_string(),
            BLOCK_TIMESTAMP,
        )
        .unwrap();

    assert_eq!(contract.get_project_target(project_id.clone()), Some(10 * ONE_NEAR));
}

#[test]
fn test_get_funded() {
    let mut contract = Contract::new(accounts(0).to_string());

    let project_id = "VBI_FUND".to_string();
    contract
        .create_project(
            project_id.clone(),
            get_sample_metadata(),
            accounts(0).to_string(),
            BLOCK_TIMESTAMP,
        )
        .unwrap();

    assert_eq!(contract.get_project_funded(project_id.clone()), Some(0));
}

#[test]
fn test_donate() {
    let mut contract = Contract::new(accounts(0).to_string());

    let project_id = "VBI_FUND".to_string();
    contract
        .create_project(
            project_id.clone(),
            get_sample_metadata(),
            accounts(0).to_string(),
            BLOCK_TIMESTAMP,
        )
        .unwrap();

    // The deposit that came with the registration is under the minimum pledge.
    assert_eq!(
        contract.donate_project(
            project_id.clone(),
            CREATE_PROJECT_STORAGE_COST,
            accounts(0).to_string()
        ),
        Err(LedgerError::BelowMinimumPledge)
    );
    assert_eq!(contract.get_project_supporters(project_id.clone()).len(), 0);

    assert_eq!(
        contract.donate_project(project_id.clone(), DONATE_PROJECT_AMOUNT, accounts(0).to_string()),
        Ok(None)
    );
    assert_eq!(contract.get_project_supporters(project_id.clone()).len(), 1);
    assert_eq!(contract.get_project_funded(project_id.clone()), Some(DONATE_PROJECT_AMOUNT));
    assert_eq!(contract.get_project_voters(project_id.clone()).len(), 0);
}

#[test]
fn test_vote() {
    let mut contract = Contract::new(accounts(0).to_string());

    let project_id = "VBI_FUND".to_string();
    contract
        .create_project(
            project_id.clone(),
            get_sample_metadata(),
            accounts(0).to_string(),
            BLOCK_TIMESTAMP,
        )
        .unwrap();

    contract.vote_project(project_id.clone(), accounts(0).to_string()).unwrap();
    assert_eq!(contract.get_project_voters(project_id.clone()).len(), 1);
}

#[test]
fn new_ledger_is_empty() {
    let contract = Contract::new("admin".to_string());
    assert_eq!(contract.owner_id(), "admin");
    assert_eq!(contract.get_number_of_projects(), 0);
    assert!(contract.get_project_info("fund-1".to_string()).is_none());
    assert!(contract.get_projects_info(Some(0), Some(10)).is_empty());
    assert!(contract.get_projects_by_owner("alice".to_string(), Some(0), Some(10)).is_empty());
    assert!(contract.get_project_supporters("fund-1".to_string()).is_empty());
    assert!(contract.get_project_voters("fund-1".to_string()).is_empty());
}

#[test]
fn registration_overwrites_started_at() {
    let mut contract = Contract::new("admin".to_string());
    let mut metadata = small_metadata(100, 10);
    metadata.started_at = Some(5);
    contract.create_project("fund-1".to_string(), metadata, "alice".to_string(), 1234).unwrap();

    let project = contract.get_project_info("fund-1".to_string()).unwrap();
    let mut expected = small_metadata(100, 10);
    expected.started_at = Some(1234);
    assert_eq!(project.owner_id, "alice");
    assert_eq!(project.project_id, "fund-1");
    assert_eq!(project.metadata, expected);
    assert_eq!(contract.get_project_started_time("fund-1".to_string()), Some(1234));
    assert_eq!(contract.get_project_started_time("fund-2".to_string()), None);
}

#[test]
fn second_registration_is_refused() {
    let mut contract = Contract::new("admin".to_string());
    contract.create_project("fund-1".to_string(), small_metadata(100, 10), "alice".to_string(), 1).unwrap();
    contract.vote_project("fund-1".to_string(), "carol".to_string()).unwrap();
    contract.donate_project("fund-1".to_string(), 20, "bob".to_string()).unwrap();

    let again = contract.create_project("fund-1".to_string(), small_metadata(7, 7), "mallory".to_string(), 2);
    assert!(matches!(again, Err(LedgerError::AlreadyExists)));

    let mut expected = small_metadata(100, 10);
    expected.started_at = Some(1);
    expected.funded = Some(20);
    let project = contract.get_project_info("fund-1".to_string()).unwrap();
    assert_eq!(project.owner_id, "alice");
    assert_eq!(project.metadata, expected);
    assert_eq!(contract.get_number_of_projects(), 1);
    assert_eq!(contract.get_project_supporters("fund-1".to_string()), vec!["bob".to_string()]);
    assert_eq!(contract.get_project_voters("fund-1".to_string()), vec!["carol".to_string()]);
    assert!(contract.get_projects_by_owner("mallory".to_string(), Some(0), Some(5)).is_empty());
    assert_eq!(contract.get_projects_by_owner("alice".to_string(), Some(0), Some(5)).len(), 1);
}

#[test]
fn pledge_below_minimum_is_refused() {
    let mut contract = Contract::new("admin".to_string());
    contract.create_project("fund-1".to_string(), small_metadata(100, 10), "alice".to_string(), 1).unwrap();
    assert_eq!(
        contract.donate_project("fund-1".to_string(), 9, "bob".to_string()),
        Err(LedgerError::BelowMinimumPledge)
    );
    assert_eq!(contract.get_project_funded("fund-1".to_string()), Some(0));
    assert!(contract.get_project_supporters("fund-1".to_string()).is_empty());
    // The minimum itself is accepted.
    assert_eq!(contract.donate_project("fund-1".to_string(), 10, "bob".to_string()), Ok(None));
    assert_eq!(contract.get_project_funded("fund-1".to_string()), Some(10));
}

#[test]
fn pledge_to_unknown_project_is_refused() {
    let mut contract = Contract::new("admin".to_string());
    assert_eq!(
        contract.donate_project("nowhere".to_string(), 50, "bob".to_string()),
        Err(LedgerError::NotFound)
    );
    assert_eq!(contract.get_project_funded("nowhere".to_string()), None);
    assert_eq!(contract.get_project_target("nowhere".to_string()), None);
}

#[test]
fn threshold_scenario() {
    let mut contract = Contract::new("admin".to_string());
    contract.create_project("P1".to_string(), small_metadata(100, 10), "alice".to_string(), 1).unwrap();

    assert_eq!(contract.donate_project("P1".to_string(), 60, "bob".to_string()), Ok(None));
    assert_eq!(contract.get_project_funded("P1".to_string()), Some(60));

    assert_eq!(
        contract.donate_project("P1".to_string(), 50, "carol".to_string()),
        Ok(Some(Transfer { receiver_id: "alice".to_string(), amount: 104 }))
    );
    assert_eq!(contract.get_project_funded("P1".to_string()), Some(110));

    for amount in [0u128, 1, 10, 50, 1000, u128::MAX] {
        assert_eq!(
            contract.donate_project("P1".to_string(), amount, "dave".to_string()),
            Err(LedgerError::TargetAlreadyReached)
        );
        assert_eq!(contract.get_project_funded("P1".to_string()), Some(110));
    }
    assert_eq!(
        contract.get_project_supporters("P1".to_string()),
        vec!["bob".to_string(), "carol".to_string()]
    );
}

#[test]
fn pledge_that_meets_the_target_exactly_pays_out() {
    let mut contract = Contract::new("admin".to_string());
    contract.create_project("fund-1".to_string(), small_metadata(100, 10), "alice".to_string(), 1).unwrap();
    assert_eq!(contract.donate_project("fund-1".to_string(), 99, "bob".to_string()), Ok(None));
    // Under the minimum, even though it would reach the target.
    assert_eq!(
        contract.donate_project("fund-1".to_string(), 1, "bob".to_string()),
        Err(LedgerError::BelowMinimumPledge)
    );
    assert_eq!(
        contract.donate_project("fund-1".to_string(), 10, "bob".to_string()),
        Ok(Some(Transfer { receiver_id: "alice".to_string(), amount: 103 }))
    );
    assert_eq!(contract.get_project_funded("fund-1".to_string()), Some(109));
    assert_eq!(contract.get_project_supporters("fund-1".to_string()), vec!["bob".to_string()]);
}

#[test]
fn project_with_target_zero_takes_no_pledge() {
    let mut contract = Contract::new("admin".to_string());
    contract.create_project("fund-0".to_string(), small_metadata(0, 0), "alice".to_string(), 1).unwrap();
    assert_eq!(
        contract.donate_project("fund-0".to_string(), 5, "bob".to_string()),
        Err(LedgerError::TargetAlreadyReached)
    );
}

#[test]
fn pledge_that_overflows_is_refused() {
    let mut contract = Contract::new("admin".to_string());
    contract
        .create_project("BIG".to_string(), small_metadata(u128::MAX, 1), "alice".to_string(), 1)
        .unwrap();
    assert_eq!(contract.donate_project("BIG".to_string(), u128::MAX - 1, "bob".to_string()), Ok(None));
    assert_eq!(
        contract.donate_project("BIG".to_string(), 2, "bob".to_string()),
        Err(LedgerError::IntegrityOverflow)
    );
    assert_eq!(contract.get_project_funded("BIG".to_string()), Some(u128::MAX - 1));
    let paid = contract.donate_project("BIG".to_string(), 1, "bob".to_string()).unwrap().unwrap();
    assert_eq!(paid.receiver_id, "alice");
    assert_eq!(paid.amount, 323268248574891540290205877060179800882);
    assert_eq!(contract.get_project_funded("BIG".to_string()), Some(u128::MAX));
}

#[test]
fn voting_is_idempotent() {
    let mut contract = Contract::new("admin".to_string());
    contract.create_project("fund-1".to_string(), small_metadata(100, 10), "alice".to_string(), 1).unwrap();
    assert_eq!(contract.vote_project("fund-1".to_string(), "bob".to_string()), Ok(()));
    assert_eq!(contract.vote_project("fund-1".to_string(), "bob".to_string()), Ok(()));
    assert_eq!(contract.get_project_voters("fund-1".to_string()), vec!["bob".to_string()]);
    // A vote has no accounting effect.
    assert_eq!(contract.get_project_funded("fund-1".to_string()), Some(0));
    assert!(contract.get_project_supporters("fund-1".to_string()).is_empty());
}

#[test]
fn distinct_voters_are_all_counted() {
    let mut contract = Contract::new("admin".to_string());
    contract.create_project("fund-1".to_string(), small_metadata(100, 10), "alice".to_string(), 1).unwrap();
    contract.create_project("fund-2".to_string(), small_metadata(100, 10), "alice".to_string(), 2).unwrap();
    for i in 0..6 {
        contract.vote_project("fund-1".to_string(), accounts(i).to_string()).unwrap();
    }
    contract.vote_project("fund-1".to_string(), accounts(3).to_string()).unwrap();
    assert_eq!(contract.get_project_voters("fund-1".to_string()).len(), 6);
    assert_eq!(
        contract.get_project_voters("fund-1".to_string()),
        vec!["alice", "bob", "charlie", "danny", "eugene", "fargo"]
    );
    assert!(contract.get_project_voters("fund-2".to_string()).is_empty());
}

#[test]
fn vote_for_unknown_project_is_refused() {
    let mut contract = Contract::new("admin".to_string());
    assert_eq!(
        contract.vote_project("nowhere".to_string(), "bob".to_string()),
        Err(LedgerError::NotFound)
    );
    assert!(contract.get_project_voters("nowhere".to_string()).is_empty());
}

fn ledger_with_projects(n: usize) -> Contract {
    let mut contract = Contract::new("admin".to_string());
    for i in 0..n {
        let owner = if i % 2 == 0 { "alice" } else { "bob" };
        contract
            .create_project(format!("fund-{}", i), small_metadata(100, 10), owner.to_string(), i as u64)
            .unwrap();
    }
    contract
}

fn ids(page: &Vec<crowdfunding::JsonProject>) -> Vec<String> {
    page.iter().map(|p| p.project_id.clone()).collect()
}

#[test]
fn listing_pages_follow_registration_order() {
    let contract = ledger_with_projects(5);
    assert_eq!(contract.get_number_of_projects(), 5);
    assert_eq!(ids(&contract.get_projects_info(Some(0), Some(5))), vec!["fund-0", "fund-1", "fund-2", "fund-3", "fund-4"]);
    assert_eq!(ids(&contract.get_projects_info(None, Some(2))), vec!["fund-0", "fund-1"]);
    assert_eq!(ids(&contract.get_projects_info(Some(1), Some(3))), vec!["fund-1", "fund-2", "fund-3"]);
    assert_eq!(ids(&contract.get_projects_info(Some(3), Some(10))), vec!["fund-3", "fund-4"]);
    assert_eq!(ids(&contract.get_projects_info(Some(4), Some(u64::MAX))), vec!["fund-4"]);
    assert!(contract.get_projects_info(Some(5), Some(10)).is_empty());
    assert!(contract.get_projects_info(Some(6), Some(10)).is_empty());
    assert!(contract.get_projects_info(Some(u128::MAX), Some(10)).is_empty());
    // An offset beyond 32 or 64 bits is not cut down to a small one.
    assert!(contract.get_projects_info(Some(1u128 << 32), Some(10)).is_empty());
    assert!(contract.get_projects_info(Some(1u128 << 64), Some(10)).is_empty());
}

#[test]
fn listing_without_limit_is_empty() {
    let contract = ledger_with_projects(3);
    assert!(contract.get_projects_info(Some(0), Some(0)).is_empty());
    assert!(contract.get_projects_info(Some(0), None).is_empty());
    assert!(contract.get_projects_info(None, None).is_empty());
    assert!(contract.get_projects_by_owner("alice".to_string(), Some(0), Some(0)).is_empty());
    assert!(contract.get_projects_by_owner("alice".to_string(), None, None).is_empty());
}

#[test]
fn listing_by_owner() {
    let contract = ledger_with_projects(5);
    let alice = contract.get_projects_by_owner("alice".to_string(), Some(0), Some(10));
    assert_eq!(ids(&alice), vec!["fund-0", "fund-2", "fund-4"]);
    assert!(alice.iter().all(|p| p.owner_id == "alice"));
    assert_eq!(alice[1].metadata.started_at, Some(2));
    assert_eq!(ids(&contract.get_projects_by_owner("alice".to_string(), Some(1), Some(1))), vec!["fund-2"]);
    assert_eq!(ids(&contract.get_projects_by_owner("bob".to_string(), None, Some(7))), vec!["fund-1", "fund-3"]);
    assert!(contract.get_projects_by_owner("bob".to_string(), Some(2), Some(7)).is_empty());
    assert!(contract.get_projects_by_owner("carol".to_string(), Some(0), Some(7)).is_empty());
}

#[test]
fn deadline_is_compared_with_the_clock() {
    let mut contract = Contract::new("admin".to_string());
    let mut metadata = small_metadata(100, 10);
    metadata.ended_at = Some(1000);
    contract.create_project("fund-1".to_string(), metadata, "alice".to_string(), 1).unwrap();
    contract.create_project("fund-2".to_string(), small_metadata(100, 10), "alice".to_string(), 1).unwrap();

    assert_eq!(contract.is_project_ended("fund-1".to_string(), 999), Some(false));
    assert_eq!(contract.is_project_ended("fund-1".to_string(), 1000), Some(false));
    assert_eq!(contract.is_project_ended("fund-1".to_string(), 1001), Some(true));
    // No deadline, or no project: unknown.
    assert_eq!(contract.is_project_ended("fund-2".to_string(), 1001), None);
    assert_eq!(contract.is_project_ended("fund-3".to_string(), 1001), None);
    // The deadline does not stop pledges.
    assert_eq!(contract.donate_project("fund-1".to_string(), 10, "bob".to_string()), Ok(None));
}

#[test]
fn unset_funded_counts_as_zero() {
    let mut contract = Contract::new("admin".to_string());
    contract.create_project("fund-1".to_string(), small_metadata(100, 10), "alice".to_string(), 1).unwrap();
    assert_eq!(contract.get_project_info("fund-1".to_string()).unwrap().metadata.funded, None);
    assert_eq!(contract.get_project_funded("fund-1".to_string()), Some(0));
    contract.donate_project("fund-1".to_string(), 15, "bob".to_string()).unwrap();
    assert_eq!(contract.get_project_info("fund-1".to_string()).unwrap().metadata.funded, Some(15));
}

#[test]
fn supporter_is_filed_once() {
    let mut contract = Contract::new("admin".to_string());
    contract.create_project("fund-1".to_string(), small_metadata(100, 10), "alice".to_string(), 1).unwrap();
    contract.create_project("fund-2".to_string(), small_metadata(100, 10), "alice".to_string(), 1).unwrap();
    contract.donate_project("fund-1".to_string(), 10, "bob".to_string()).unwrap();
    contract.donate_project("fund-1".to_string(), 11, "carol".to_string()).unwrap();
    contract.donate_project("fund-1".to_string(), 12, "bob".to_string()).unwrap();
    contract.donate_project("fund-2".to_string(), 13, "dave".to_string()).unwrap();
    assert_eq!(
        contract.get_project_supporters("fund-1".to_string()),
        vec!["bob".to_string(), "carol".to_string()]
    );
    assert_eq!(contract.get_project_supporters("fund-2".to_string()), vec!["dave".to_string()]);
    assert_eq!(contract.get_project_funded("fund-1".to_string()), Some(33));
    assert_eq!(contract.get_project_funded("fund-2".to_string()), Some(13));
}
