//! Drives one sync run: plans the per-year fetch windows from the
//! checkpoint and today's date, and turns one year's fetched transactions
//! into the postings to submit. The surrounding program performs the
//! fetches and submissions and persists the checkpoint.

use vstd::prelude::*;
use crate::classify::Classification;
use crate::classify::SourceTransaction;
use crate::classify::classification_of;
use crate::classify::classify;
use crate::date::Date;
use crate::date::date_from_parts;
use crate::mirror::LedgerAccount;
use crate::mirror::find_account;
use crate::mirror::has_match;
use crate::mirror::matched_account_id;
use crate::posting::LedgerPosting;
use crate::posting::build_direct_posting;
use crate::posting::build_transfer_posting;
use crate::posting::direct_posting_ok;
use crate::posting::transfer_posting_ok;
use crate::reconcile::Reconciliation;
use crate::reconcile::TransferCandidate;
use crate::reconcile::candidate_of;
use crate::reconcile::pair_ok;
use crate::reconcile::reconcile;
use crate::reconcile::reconciliation_ok;
use crate::reconcile::to_candidate;

verus! {

/// The fetch window for one calendar year of the sync.
#[derive(Clone, Copy, PartialEq, Eq, Structural, Debug)]
pub struct YearWindow {
    /// The calendar year.
    pub year: u16,
    /// Lower fetch bound, inclusive.
    pub from: Date,
    /// Upper fetch bound, inclusive.
    pub to: Date,
}

/// January 1 of year `y`.
pub open spec fn jan1(y: u16) -> Date {
    Date { year: y, month: 1, day: 1 }
}

/// December 31 of year `y`.
pub open spec fn dec31(y: u16) -> Date {
    Date { year: y, month: 12, day: 31 }
}

/// What one run of the orchestrator does.
pub enum SyncPlan {
    /// The checkpoint already equals the sync bound: nothing is fetched
    /// and the checkpoint is left untouched.
    UpToDate,
    /// Fetch the windows in order; only after every year succeeded is
    /// `checkpoint` written.
    Run {
        /// One window per calendar year, oldest first.
        windows: Vec<YearWindow>,
        /// The checkpoint value to persist on success.
        checkpoint: Date,
    },
}

/// The first year a run covers: the previous checkpoint's year, or the
/// configured default when no checkpoint exists.
pub open spec fn plan_first_year(checkpoint: Option<Date>, default_first_year: u16) -> u16 {
    if checkpoint is Some {
        checkpoint->0.year
    } else {
        default_first_year
    }
}

/// What the planned windows must look like: one per year from the first
/// year to the bound's year; every bound is Jan 1 / Dec 31 of its year,
/// except that the first window starts at the previous checkpoint (when
/// one exists) and the last window ends at the sync bound.
pub open spec fn windows_ok(
    ws: Seq<YearWindow>,
    checkpoint: Option<Date>,
    bound: Date,
    fy: u16,
) -> bool {
    &&& ws.len() == if fy <= bound.year {
        bound.year - fy + 1
    } else {
        0
    }
    &&& forall|k: int| 0 <= k < ws.len() ==> (#[trigger] ws[k]).year == fy + k
    &&& forall|k: int|
        0 <= k < ws.len() ==> (#[trigger] ws[k]).from == (if k == 0 {
            if checkpoint is Some {
                checkpoint->0
            } else {
                jan1(fy)
            }
        } else {
            jan1((fy + k) as u16)
        })
    &&& forall|k: int|
        0 <= k < ws.len() ==> (#[trigger] ws[k]).to == (if k == ws.len() - 1 {
            bound
        } else {
            dec31((fy + k) as u16)
        })
}

/// Plans one sync run: a no-op when the checkpoint already equals the
/// sync bound, otherwise one clipped window per calendar year up to the
/// bound, and the bound as the checkpoint to write on success.
pub fn plan_sync(checkpoint: Option<Date>, bound: Date, default_first_year: u16) -> (r: SyncPlan)
    requires
        bound.is_valid(),
        checkpoint matches Some(c) ==> c.is_valid(),
        default_first_year >= 1,
    ensures
        r is UpToDate <==> checkpoint == Some(bound),
        r matches SyncPlan::Run { windows, checkpoint: cp } ==> {
            &&& cp == bound
            &&& windows_ok(windows@, checkpoint, bound, plan_first_year(checkpoint, default_first_year))
            &&& forall|k: int|
                0 <= k < windows@.len() ==> (#[trigger] windows@[k]).from.is_valid()
                    && windows@[k].to.is_valid()
        },
{
    let up_to_date = match checkpoint {
        Some(c) => c == bound,
        None => false,
    };
    if up_to_date {
        return SyncPlan::UpToDate;
    }
    let fy = match checkpoint {
        Some(c) => c.year,
        None => default_first_year,
    };
    let mut windows: Vec<YearWindow> = Vec::new();
    if fy <= bound.year {
        let mut y = fy;
        while y <= bound.year
            invariant
                fy <= y <= bound.year + 1,
                fy >= 1,
                bound.is_valid(),
                checkpoint matches Some(c) ==> c.is_valid() && c.year == fy,
                windows@.len() == y - fy,
                forall|k: int| 0 <= k < windows@.len() ==> (#[trigger] windows@[k]).year == fy + k,
                forall|k: int|
                    0 <= k < windows@.len() ==> (#[trigger] windows@[k]).from == (if k == 0 {
                        if checkpoint is Some {
                            checkpoint->0
                        } else {
                            jan1(fy)
                        }
                    } else {
                        jan1((fy + k) as u16)
                    }),
                forall|k: int|
                    0 <= k < windows@.len() ==> (#[trigger] windows@[k]).to == (if fy + k
                        == bound.year {
                        bound
                    } else {
                        dec31((fy + k) as u16)
                    }),
                forall|k: int|
                    0 <= k < windows@.len() ==> (#[trigger] windows@[k]).from.is_valid()
                        && windows@[k].to.is_valid(),
            decreases bound.year + 1 - y,
        {
            let from = if y == fy {
                match checkpoint {
                    Some(c) => c,
                    None => Date { year: y, month: 1, day: 1 },
                }
            } else {
                Date { year: y, month: 1, day: 1 }
            };
            let to = if y == bound.year {
                bound
            } else {
                Date { year: y, month: 12, day: 31 }
            };
            windows.push(YearWindow { year: y, from, to });
            y = y + 1;
        }
    }
    SyncPlan::Run { windows, checkpoint: bound }
}

/// Relies on chrono's `Utc::now`, `NaiveDate::checked_sub_days` and the
/// `Datelike` accessors: the current UTC calendar date moved back `days`
/// days, as plain year/month/day numbers. chrono documents `month()` as
/// 1 to 12 and `day()` as 1 to 31; nothing else is assumed of the clock.
#[verifier::external_body]
fn today_minus_days(days: u16) -> (r: Option<(i64, i64, i64)>)
    ensures
        r matches Some(p) ==> 1 <= p.1 <= 12 && 1 <= p.2 <= 31,
{
    let today = chrono::Utc::now().date_naive();
    match today.checked_sub_days(chrono::Days::new(days as u64)) {
        Some(d) => Some(
            (
                chrono::Datelike::year(&d) as i64,
                chrono::Datelike::month(&d) as i64,
                chrono::Datelike::day(&d) as i64,
            ),
        ),
        None => None,
    }
}

/// The sync bound for a run starting now: today (UTC) minus the
/// configured delay, as a validated date. `None` when the clock reports
/// something no valid date can hold.
pub fn current_sync_bound(delay_days: u16) -> (r: Option<Date>)
    ensures
        r matches Some(d) ==> d.is_valid(),
{
    match today_minus_days(delay_days) {
        Some((y, m, d)) => date_from_parts(y, m, d),
        None => None,
    }
}

/// Whether the sync keeps transaction `t` at all: only transactions of
/// mirrored accounts are imported.
pub open spec fn tx_kept(t: SourceTransaction, ledger: Seq<LedgerAccount>) -> bool {
    has_match(ledger, t.account_external_id@)
}

/// The kept transactions classified as transfer candidates, in fetch
/// order, as candidate records.
pub open spec fn candidates_spec(
    txs: Seq<SourceTransaction>,
    ledger: Seq<LedgerAccount>,
) -> Seq<TransferCandidate>
    decreases txs.len(),
{
    if txs.len() == 0 {
        Seq::empty()
    } else {
        let rest = candidates_spec(txs.drop_last(), ledger);
        if tx_kept(txs.last(), ledger) && classification_of(txs.last()) is InternalTransfer {
            rest.push(candidate_of(txs.last()))
        } else {
            rest
        }
    }
}

/// The kept transactions classified as deposits or withdrawals, in
/// fetch order.
pub open spec fn direct_txs(
    txs: Seq<SourceTransaction>,
    ledger: Seq<LedgerAccount>,
) -> Seq<SourceTransaction>
    decreases txs.len(),
{
    if txs.len() == 0 {
        Seq::empty()
    } else {
        let rest = direct_txs(txs.drop_last(), ledger);
        if tx_kept(txs.last(), ledger) && !(classification_of(txs.last()) is InternalTransfer) {
            rest.push(txs.last())
        } else {
            rest
        }
    }
}

/// Everything one sync year produces.
pub struct YearOutcome {
    /// Deposit and withdrawal postings, in fetch order.
    pub direct_postings: Vec<LedgerPosting>,
    /// The year's transfer candidates, in fetch order.
    pub candidates: Vec<TransferCandidate>,
    /// How the candidates were paired; leftovers are reported, never
    /// posted.
    pub reconciliation: Reconciliation,
    /// One transfer posting per matched pair, in pair order.
    pub transfer_postings: Vec<LedgerPosting>,
}

/// Turns one year's fetched transactions into postings: transactions of
/// unmirrored accounts are skipped; deposits and withdrawals become
/// direct postings on their mirrored account; transfer candidates are
/// reconciled and each matched pair becomes one transfer posting.
pub fn process_year(txs: &Vec<SourceTransaction>, ledger: &Vec<LedgerAccount>) -> (r: YearOutcome)
    requires
        forall|i: int| 0 <= i < txs@.len() ==> (#[trigger] txs@[i]).is_valid(),
    ensures
        r.candidates@ == candidates_spec(txs@, ledger@),
        r.direct_postings@.len() == direct_txs(txs@, ledger@).len(),
        forall|m: int|
            0 <= m < r.direct_postings@.len() ==> direct_posting_ok(
                #[trigger] r.direct_postings@[m],
                direct_txs(txs@, ledger@)[m],
                matched_account_id(ledger@, direct_txs(txs@, ledger@)[m].account_external_id@),
            ),
        reconciliation_ok(r.candidates@, r.reconciliation.pairs@, r.reconciliation.leftovers@),
        r.transfer_postings@.len() == r.reconciliation.pairs@.len(),
        forall|m: int|
            0 <= m < r.reconciliation.pairs@.len() ==> transfer_posting_ok(
                #[trigger] r.transfer_postings@[m],
                r.candidates@[r.reconciliation.pairs@[m].0 as int],
                r.candidates@[r.reconciliation.pairs@[m].1 as int],
                matched_account_id(
                    ledger@,
                    r.candidates@[r.reconciliation.pairs@[m].0 as int].account_external_id@,
                ),
                matched_account_id(
                    ledger@,
                    r.candidates@[r.reconciliation.pairs@[m].1 as int].account_external_id@,
                ),
            ),
{
    let n = txs.len();
    let mut directs: Vec<LedgerPosting> = Vec::new();
    let mut cands: Vec<TransferCandidate> = Vec::new();
    let mut idx: usize = 0;
    while idx < n
        invariant
            idx <= n == txs@.len(),
            forall|i: int| 0 <= i < txs@.len() ==> (#[trigger] txs@[i]).is_valid(),
            cands@ == candidates_spec(txs@.take(idx as int), ledger@),
            directs@.len() == direct_txs(txs@.take(idx as int), ledger@).len(),
            forall|m: int|
                0 <= m < directs@.len() ==> direct_posting_ok(
                    #[trigger] directs@[m],
                    direct_txs(txs@.take(idx as int), ledger@)[m],
                    matched_account_id(
                        ledger@,
                        direct_txs(txs@.take(idx as int), ledger@)[m].account_external_id@,
                    ),
                ),
            forall|i: int|
                0 <= i < cands@.len() ==> (#[trigger] cands@[i]).is_valid() && has_match(
                    ledger@,
                    cands@[i].account_external_id@,
                ),
        decreases n - idx,
    {
        let t = &txs[idx];
        proof {
            assert(txs@.take(idx + 1).drop_last() =~= txs@.take(idx as int));
            assert(txs@.take(idx + 1).last() == txs@[idx as int]);
        }
        match find_account(ledger, t.account_external_id.as_str()) {
            Some(a) => {
                match classify(t) {
                    Classification::InternalTransfer => {
                        cands.push(to_candidate(t));
                    },
                    _ => {
                        directs.push(build_direct_posting(t, ledger[a].id));
                    },
                }
            },
            None => {},
        }
        idx = idx + 1;
    }
    proof {
        assert(txs@.take(n as int) =~= txs@);
    }
    let reconciliation = reconcile(&cands);
    let mut transfers: Vec<LedgerPosting> = Vec::new();
    let mut m: usize = 0;
    while m < reconciliation.pairs.len()
        invariant
            m <= reconciliation.pairs@.len(),
            reconciliation_ok(cands@, reconciliation.pairs@, reconciliation.leftovers@),
            forall|i: int|
                0 <= i < cands@.len() ==> (#[trigger] cands@[i]).is_valid() && has_match(
                    ledger@,
                    cands@[i].account_external_id@,
                ),
            transfers@.len() == m,
            forall|m2: int|
                0 <= m2 < m ==> transfer_posting_ok(
                    #[trigger] transfers@[m2],
                    cands@[reconciliation.pairs@[m2].0 as int],
                    cands@[reconciliation.pairs@[m2].1 as int],
                    matched_account_id(
                        ledger@,
                        cands@[reconciliation.pairs@[m2].0 as int].account_external_id@,
                    ),
                    matched_account_id(
                        ledger@,
                        cands@[reconciliation.pairs@[m2].1 as int].account_external_id@,
                    ),
                ),
        decreases reconciliation.pairs@.len() - m,
    {
        let (i, j) = reconciliation.pairs[m];
        proof {
            assert(pair_ok(cands@, i as int, j as int));
        }
        let debit_pos = match find_account(ledger, cands[i].account_external_id.as_str()) {
            Some(a) => a,
            None => {
                proof {
                    assert(false);
                }
                unreached()
            },
        };
        let credit_pos = match find_account(ledger, cands[j].account_external_id.as_str()) {
            Some(a) => a,
            None => {
                proof {
                    assert(false);
                }
                unreached()
            },
        };
        let p = build_transfer_posting(
            &cands[i],
            &cands[j],
            ledger[debit_pos].id,
            ledger[credit_pos].id,
        );
        transfers.push(p);
        m = m + 1;
    }
    YearOutcome { direct_postings: directs, candidates: cands, reconciliation, transfer_postings: transfers }
}

} // verus!
