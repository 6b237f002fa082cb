//! Builds ledger postings out of classified transactions and matched
//! transfer pairs. A direct (non-transfer) posting keeps the raw text as
//! its description and uses the normalizer only for the free-text
//! counterparty side; a transfer posting joins two ledger accounts.

use vstd::prelude::*;
use crate::classify::SourceTransaction;
use crate::date::Date;
use crate::normalize::normalize;
use crate::normalize::normalize_spec;
use crate::reconcile::TransferCandidate;

verus! {

/// One side of a posting: a ledger account, or a free-text counterparty
/// name for the side the ledger has no account for. Exactly one of the
/// two is set, by construction.
pub enum PostingSide {
    /// A ledger account, by its numeric id.
    Account(i64),
    /// A free-text counterparty name.
    Name(String),
}

/// The kind of ledger entry a posting makes.
#[derive(Clone, Copy, PartialEq, Eq, Structural, Debug)]
pub enum PostingKind {
    /// Money entering one of the mirrored accounts from outside.
    Deposit,
    /// Money leaving one of the mirrored accounts to outside.
    Withdrawal,
    /// Money moving between two mirrored accounts.
    Transfer,
}

/// One entry to submit to the ledger.
pub struct LedgerPosting {
    /// Accounting date.
    pub date: Date,
    /// Absolute amount in cents.
    pub amount_cents: u64,
    /// Description: the raw source transaction text.
    pub description: String,
    /// Deposit, withdrawal or transfer.
    pub kind: PostingKind,
    /// Where the money comes from.
    pub source: PostingSide,
    /// Where the money goes.
    pub destination: PostingSide,
    /// Category: the source transaction-type code.
    pub category: String,
}

/// Absolute value of a signed cent amount.
pub open spec fn abs_cents(a: i64) -> int {
    if a < 0 {
        -(a as int)
    } else {
        a as int
    }
}

/// What a direct posting must hold for transaction `t` on ledger account
/// `account_id`: the date, absolute amount, raw text and type code carry
/// over; a negative amount makes a withdrawal from the account to the
/// normalized counterparty name, any other amount a deposit the other
/// way around.
pub open spec fn direct_posting_ok(p: LedgerPosting, t: SourceTransaction, account_id: i64) -> bool {
    &&& p.date == t.date
    &&& p.amount_cents == abs_cents(t.amount_cents)
    &&& p.description@ == t.text@
    &&& p.category@ == t.type_code@
    &&& if t.amount_cents < 0 {
        &&& p.kind == PostingKind::Withdrawal
        &&& p.source == PostingSide::Account(account_id)
        &&& p.destination matches PostingSide::Name(nm) && nm@ == normalize_spec(t.text@)
    } else {
        &&& p.kind == PostingKind::Deposit
        &&& p.destination == PostingSide::Account(account_id)
        &&& p.source matches PostingSide::Name(nm) && nm@ == normalize_spec(t.text@)
    }
}

/// Builds the posting for a transaction classified as a deposit or a
/// withdrawal, on the ledger account mirroring its source account.
pub fn build_direct_posting(t: &SourceTransaction, account_id: i64) -> (p: LedgerPosting)
    requires
        t.is_valid(),
    ensures
        direct_posting_ok(p, *t, account_id),
{
    let name = normalize(t.text.as_str());
    if t.amount_cents < 0 {
        LedgerPosting {
            date: t.date,
            amount_cents: (-t.amount_cents) as u64,
            description: t.text.clone(),
            kind: PostingKind::Withdrawal,
            source: PostingSide::Account(account_id),
            destination: PostingSide::Name(name),
            category: t.type_code.clone(),
        }
    } else {
        LedgerPosting {
            date: t.date,
            amount_cents: t.amount_cents as u64,
            description: t.text.clone(),
            kind: PostingKind::Deposit,
            source: PostingSide::Name(name),
            destination: PostingSide::Account(account_id),
            category: t.type_code.clone(),
        }
    }
}

/// What a transfer posting must hold for a matched pair: kind transfer,
/// the pair's shared date and text, the absolute amount, the debit leg's
/// type code, and the two mirroring ledger accounts as its sides.
pub open spec fn transfer_posting_ok(
    p: LedgerPosting,
    debit: TransferCandidate,
    credit: TransferCandidate,
    source_account: i64,
    destination_account: i64,
) -> bool {
    &&& p.date == debit.date
    &&& p.amount_cents == debit.abs_amount()
    &&& p.description@ == debit.text@
    &&& p.category@ == debit.type_code@
    &&& p.kind == PostingKind::Transfer
    &&& p.source == PostingSide::Account(source_account)
    &&& p.destination == PostingSide::Account(destination_account)
}

/// Builds the single transfer posting for a matched (debit, credit)
/// pair, from the debit account to the credit account.
pub fn build_transfer_posting(
    debit: &TransferCandidate,
    credit: &TransferCandidate,
    source_account: i64,
    destination_account: i64,
) -> (p: LedgerPosting)
    requires
        debit.is_valid(),
        debit.is_neg(),
        !credit.is_neg(),
        debit.amount_cents + credit.amount_cents == 0,
        debit.date == credit.date,
        debit.text@ == credit.text@,
    ensures
        transfer_posting_ok(p, *debit, *credit, source_account, destination_account),
{
    LedgerPosting {
        date: debit.date,
        amount_cents: (-debit.amount_cents) as u64,
        description: debit.text.clone(),
        kind: PostingKind::Transfer,
        source: PostingSide::Account(source_account),
        destination: PostingSide::Account(destination_account),
        category: debit.type_code.clone(),
    }
}

} // verus!
