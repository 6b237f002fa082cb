use ledger_sync::classify::{classify, Classification, SourceTransaction};
use ledger_sync::date::Date;
use ledger_sync::mirror::LedgerAccount;
use ledger_sync::orchestrate::{current_sync_bound, plan_sync, process_year, SyncPlan, YearWindow};
use ledger_sync::posting::{PostingKind, PostingSide};

fn tx(account: &str, cents: i64, date: Date, text: &str, code: &str) -> SourceTransaction {
    SourceTransaction {
        account_external_id: account.to_string(),
        amount_cents: cents,
        date,
        text: text.to_string(),
        type_code: code.to_string(),
    }
}

fn ledger(id: i64, note: &str) -> LedgerAccount {
    LedgerAccount { id, name: format!("acct {id}"), external_note: Some(note.to_string()) }
}

fn march1() -> Date {
    Date { year: 2021, month: 3, day: 1 }
}

#[test]
fn classification_follows_code_then_sign() {
    assert_eq!(classify(&tx("A", -100, march1(), "x", "OVFNETTB")), Classification::InternalTransfer);
    assert_eq!(classify(&tx("A", 100, march1(), "x", "MOB.B.OVF")), Classification::InternalTransfer);
    assert_eq!(classify(&tx("A", -100, march1(), "x", "TILBAKEF.")), Classification::InternalTransfer);
    assert_eq!(classify(&tx("A", -100, march1(), "x", "VISA")), Classification::Withdrawal);
    assert_eq!(classify(&tx("A", 100, march1(), "x", "VISA")), Classification::Deposit);
    assert_eq!(classify(&tx("A", 100, march1(), "x", "")), Classification::Deposit);
}

#[test]
fn zero_amount_defaults_to_deposit() {
    assert_eq!(classify(&tx("A", 0, march1(), "x", "VISA")), Classification::Deposit);
}

#[test]
fn internal_transfer_becomes_one_transfer_posting() {
    // two source transactions, a debit on A and a credit on B, merge into
    // a single transfer posting from A's ledger account to B's
    let txs = vec![
        tx("A", -50000, march1(), "Til: Savings", "OVFNETTB"),
        tx("B", 50000, march1(), "Til: Savings", "OVFNETTB"),
    ];
    let accounts = vec![ledger(1, "A"), ledger(2, "B")];
    let out = process_year(&txs, &accounts);
    assert!(out.direct_postings.is_empty());
    assert_eq!(out.candidates.len(), 2);
    assert_eq!(out.reconciliation.pairs, vec![(0usize, 1usize)]);
    assert!(out.reconciliation.leftovers.is_empty());
    assert_eq!(out.transfer_postings.len(), 1);
    let p = &out.transfer_postings[0];
    assert_eq!(p.kind, PostingKind::Transfer);
    assert_eq!(p.amount_cents, 50000);
    assert_eq!(p.date, march1());
    assert_eq!(p.description, "Til: Savings");
    assert!(matches!(p.source, PostingSide::Account(1)));
    assert!(matches!(p.destination, PostingSide::Account(2)));
}

#[test]
fn card_purchase_becomes_a_withdrawal_with_cleaned_name() {
    let txs = vec![tx("A", -4250, march1(), "12.02 KIWI OSLO Betalt: 01.03.21", "VISA")];
    let accounts = vec![ledger(1, "A")];
    let out = process_year(&txs, &accounts);
    assert_eq!(out.direct_postings.len(), 1);
    assert!(out.candidates.is_empty());
    assert!(out.transfer_postings.is_empty());
    let p = &out.direct_postings[0];
    assert_eq!(p.kind, PostingKind::Withdrawal);
    assert_eq!(p.amount_cents, 4250);
    assert_eq!(p.description, "12.02 KIWI OSLO Betalt: 01.03.21");
    assert_eq!(p.category, "VISA");
    assert!(matches!(p.source, PostingSide::Account(1)));
    match &p.destination {
        PostingSide::Name(n) => assert_eq!(n, "KIWI OSLO"),
        PostingSide::Account(_) => panic!("expected a counterparty name"),
    }
}

#[test]
fn deposit_puts_the_name_on_the_source_side() {
    let txs = vec![tx("A", 12345, march1(), "Fra: Employer", "LONN")];
    let accounts = vec![ledger(7, "A")];
    let out = process_year(&txs, &accounts);
    assert_eq!(out.direct_postings.len(), 1);
    let p = &out.direct_postings[0];
    assert_eq!(p.kind, PostingKind::Deposit);
    assert_eq!(p.amount_cents, 12345);
    assert!(matches!(p.destination, PostingSide::Account(7)));
    match &p.source {
        PostingSide::Name(n) => assert_eq!(n, "Employer"),
        PostingSide::Account(_) => panic!("expected a counterparty name"),
    }
}

#[test]
fn transactions_of_unmirrored_accounts_are_skipped() {
    let txs = vec![tx("X", -100, march1(), "anything", "VISA")];
    let accounts = vec![ledger(1, "A")];
    let out = process_year(&txs, &accounts);
    assert!(out.direct_postings.is_empty());
    assert!(out.candidates.is_empty());
}

#[test]
fn uneven_transfer_group_leaves_a_leftover() {
    let txs = vec![
        tx("A", -30000, march1(), "t", "OVFNETTB"),
        tx("B", 30000, march1(), "t", "OVFNETTB"),
        tx("C", 30000, march1(), "t", "OVFNETTB"),
    ];
    let accounts = vec![ledger(1, "A"), ledger(2, "B"), ledger(3, "C")];
    let out = process_year(&txs, &accounts);
    assert_eq!(out.reconciliation.pairs, vec![(0usize, 1usize)]);
    assert_eq!(out.reconciliation.leftovers, vec![2usize]);
    assert_eq!(out.transfer_postings.len(), 1);
}

#[test]
fn absent_checkpoint_iterates_from_default_year() {
    let bound = Date { year: 2021, month: 6, day: 20 };
    match plan_sync(None, bound, 2019) {
        SyncPlan::Run { windows, checkpoint } => {
            assert_eq!(checkpoint, bound);
            assert_eq!(
                windows,
                vec![
                    YearWindow {
                        year: 2019,
                        from: Date { year: 2019, month: 1, day: 1 },
                        to: Date { year: 2019, month: 12, day: 31 },
                    },
                    YearWindow {
                        year: 2020,
                        from: Date { year: 2020, month: 1, day: 1 },
                        to: Date { year: 2020, month: 12, day: 31 },
                    },
                    YearWindow { year: 2021, from: Date { year: 2021, month: 1, day: 1 }, to: bound },
                ]
            );
        },
        SyncPlan::UpToDate => panic!("expected a run"),
    }
}

#[test]
fn checkpoint_clips_the_first_window() {
    let cp = Date { year: 2020, month: 11, day: 5 };
    let bound = Date { year: 2021, month: 6, day: 20 };
    match plan_sync(Some(cp), bound, 2019) {
        SyncPlan::Run { windows, checkpoint } => {
            assert_eq!(checkpoint, bound);
            assert_eq!(
                windows,
                vec![
                    YearWindow { year: 2020, from: cp, to: Date { year: 2020, month: 12, day: 31 } },
                    YearWindow { year: 2021, from: Date { year: 2021, month: 1, day: 1 }, to: bound },
                ]
            );
        },
        SyncPlan::UpToDate => panic!("expected a run"),
    }
}

#[test]
fn single_year_window_runs_from_checkpoint_to_bound() {
    let cp = Date { year: 2021, month: 6, day: 1 };
    let bound = Date { year: 2021, month: 6, day: 20 };
    match plan_sync(Some(cp), bound, 2019) {
        SyncPlan::Run { windows, checkpoint } => {
            assert_eq!(checkpoint, bound);
            assert_eq!(windows, vec![YearWindow { year: 2021, from: cp, to: bound }]);
        },
        SyncPlan::UpToDate => panic!("expected a run"),
    }
}

#[test]
fn checkpoint_equal_to_bound_is_a_no_op() {
    let bound = Date { year: 2021, month: 6, day: 20 };
    assert!(matches!(plan_sync(Some(bound), bound, 2019), SyncPlan::UpToDate));
}

#[test]
fn sync_bound_is_a_valid_date() {
    let d = current_sync_bound(10).expect("clock within calendar range");
    assert!(1 <= d.month && d.month <= 12);
    assert!(1 <= d.day && d.day <= 31);
    assert!(d.year >= 2020);
    let no_delay = current_sync_bound(0).expect("clock within calendar range");
    assert!(no_delay.year >= d.year);
}
