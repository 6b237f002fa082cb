use ledger_sync::mirror::{
    check_notes_unique, find_account, map_account_type, plan_account_creation, AccountRole,
    LedgerAccount, SourceAccount,
};

fn source(id: &str, name: &str, kind: &str) -> SourceAccount {
    SourceAccount {
        external_id: id.to_string(),
        name: name.to_string(),
        account_type: kind.to_string(),
        account_number: format!("9710.{id}"),
    }
}

fn ledger(id: i64, note: Option<&str>) -> LedgerAccount {
    LedgerAccount { id, name: format!("acct {id}"), external_note: note.map(|n| n.to_string()) }
}

#[test]
fn account_type_mapping() {
    assert_eq!(map_account_type("High interest account").unwrap(), AccountRole::SavingAsset);
    assert_eq!(map_account_type("Standard account").unwrap(), AccountRole::DefaultAsset);
    assert_eq!(map_account_type("BSU account").unwrap(), AccountRole::SavingAsset);
    let err = map_account_type("Credit card").unwrap_err();
    assert_eq!(err.account_type, "Credit card");
}

#[test]
fn missing_accounts_are_planned_with_mapped_fields() {
    let sources = vec![source("A", "Brukskonto", "Standard account"), source("B", "Sparekonto", "High interest account")];
    let existing = vec![ledger(1, Some("A")), ledger(2, None)];
    let planned = plan_account_creation(&sources, &existing).unwrap();
    assert_eq!(planned.len(), 1);
    assert_eq!(planned[0].name, "Sparekonto");
    assert_eq!(planned[0].role, AccountRole::SavingAsset);
    assert_eq!(planned[0].external_note, "B");
    assert_eq!(planned[0].account_number, "9710.B");
}

#[test]
fn unsupported_type_aborts_planning() {
    let sources = vec![source("A", "Kredittkort", "Credit card")];
    let existing = Vec::new();
    let err = plan_account_creation(&sources, &existing).unwrap_err();
    assert_eq!(err.account_type, "Credit card");
}

#[test]
fn mirroring_twice_creates_nothing_new() {
    let sources = vec![source("A", "Brukskonto", "Standard account"), source("B", "Sparekonto", "BSU account")];
    let planned = plan_account_creation(&sources, &Vec::new()).unwrap();
    assert_eq!(planned.len(), 2);
    // create the planned accounts, then plan again against the re-fetched list
    let refetched: Vec<LedgerAccount> = planned
        .iter()
        .enumerate()
        .map(|(k, p)| LedgerAccount {
            id: k as i64 + 1,
            name: p.name.clone(),
            external_note: Some(p.external_note.clone()),
        })
        .collect();
    let second = plan_account_creation(&sources, &refetched).unwrap();
    assert!(second.is_empty());
}

#[test]
fn find_account_returns_first_match() {
    let accounts = vec![ledger(1, None), ledger(2, Some("A")), ledger(3, Some("A"))];
    assert_eq!(find_account(&accounts, "A"), Some(1));
    assert_eq!(find_account(&accounts, "B"), None);
}

#[test]
fn duplicate_notes_are_detected() {
    let accounts = vec![ledger(1, Some("A")), ledger(2, None), ledger(3, Some("A"))];
    assert!(!check_notes_unique(&accounts));
    let accounts = vec![ledger(1, Some("A")), ledger(2, None), ledger(3, Some("B"))];
    assert!(check_notes_unique(&accounts));
}
