//! Labels each fetched source transaction as a deposit, a withdrawal, or a
//! candidate for internal-transfer reconciliation, going by its
//! transaction-type code and the sign of its amount.

use vstd::prelude::*;
use crate::date::Date;
use crate::text::str_eq;

verus! {

/// A transaction fetched from the source banking API, read-only input to
/// the sync. Amounts are signed integer cents.
pub struct SourceTransaction {
    /// External id of the source account the transaction belongs to.
    pub account_external_id: String,
    /// Signed amount in cents; negative for money leaving the account.
    pub amount_cents: i64,
    /// Accounting date (the date part only).
    pub date: Date,
    /// Raw transaction text as the source API reports it.
    pub text: String,
    /// The source API's transaction-type code.
    pub type_code: String,
}

impl SourceTransaction {
    /// Machine-limit sanity: the amount's absolute value is representable.
    pub open spec fn is_valid(self) -> bool {
        &&& self.amount_cents > i64::MIN
        &&& self.date.is_valid()
    }
}

/// The label the classifier gives a transaction.
#[derive(Clone, Copy, PartialEq, Eq, Structural, Debug)]
pub enum Classification {
    /// Money entering the account from outside.
    Deposit,
    /// Money leaving the account to outside.
    Withdrawal,
    /// One leg of a transfer between two of the user's own accounts.
    InternalTransfer,
}

/// The transaction-type codes the source API uses for transfers between
/// the user's own accounts.
pub open spec fn is_transfer_code(code: Seq<char>) -> bool {
    ||| code == "OVFNETTB"@
    ||| code == "MOB.B.OVF"@
    ||| code == "TILBAKEF."@
}

/// How a transaction is classified: a transfer code wins regardless of
/// sign; otherwise a negative amount is a withdrawal and any other amount
/// (zero included) a deposit.
pub open spec fn classification_of(t: SourceTransaction) -> Classification {
    if is_transfer_code(t.type_code@) {
        Classification::InternalTransfer
    } else if t.amount_cents < 0 {
        Classification::Withdrawal
    } else {
        Classification::Deposit
    }
}

/// Classifies one source transaction.
pub fn classify(t: &SourceTransaction) -> (c: Classification)
    ensures
        c == classification_of(*t),
{
    let code = t.type_code.as_str();
    if str_eq(code, "OVFNETTB") || str_eq(code, "MOB.B.OVF") || str_eq(code, "TILBAKEF.") {
        Classification::InternalTransfer
    } else if t.amount_cents < 0 {
        Classification::Withdrawal
    } else {
        Classification::Deposit
    }
}

} // verus!
