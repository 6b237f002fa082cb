//! Keeps the ledger's asset accounts in step with the source bank's
//! accounts: every source account must have a ledger account carrying its
//! external id in the ledger account's note field. Planning which accounts
//! are missing is pure; the caller performs the create calls and re-fetches
//! the ledger list before relying on the join.

use vstd::prelude::*;
use crate::text::str_eq;

verus! {

/// A bank account as the source API reports it. Immutable snapshot.
pub struct SourceAccount {
    /// The source API's stable id for the account.
    pub external_id: String,
    /// Display name.
    pub name: String,
    /// The source API's account-type label.
    pub account_type: String,
    /// Account number.
    pub account_number: String,
}

/// An asset account as the ledger reports it.
pub struct LedgerAccount {
    /// The ledger's numeric id.
    pub id: i64,
    /// Display name.
    pub name: String,
    /// The note field, which carries a source external id when the
    /// account mirrors a source account.
    pub external_note: Option<String>,
}

/// The role the ledger gives an asset account.
#[derive(Clone, Copy, PartialEq, Eq, Structural, Debug)]
pub enum AccountRole {
    /// An everyday account.
    DefaultAsset,
    /// A savings account.
    SavingAsset,
}

/// A ledger account the mirror wants created.
#[derive(Debug)]
pub struct NewLedgerAccount {
    /// Name, taken from the source account.
    pub name: String,
    /// Role, derived from the source account type.
    pub role: AccountRole,
    /// Account number, taken from the source account.
    pub account_number: String,
    /// The source external id, to be stored in the note field.
    pub external_note: String,
}

/// A source account type the mirror has no mapping for.
#[derive(Debug)]
pub struct UnsupportedAccountType {
    /// The label the source API reported.
    pub account_type: String,
}

/// The role mapping: which ledger role each known source account type
/// gets; `None` for an unknown type.
pub open spec fn role_of_type(t: Seq<char>) -> Option<AccountRole> {
    if t == "High interest account"@ {
        Some(AccountRole::SavingAsset)
    } else if t == "Standard account"@ {
        Some(AccountRole::DefaultAsset)
    } else if t == "BSU account"@ {
        Some(AccountRole::SavingAsset)
    } else {
        None
    }
}

/// Maps a source account type to a ledger role, rejecting unknown types.
pub fn map_account_type(t: &str) -> (r: Result<AccountRole, UnsupportedAccountType>)
    ensures
        r is Ok <==> role_of_type(t@) is Some,
        r is Ok ==> Some(r->Ok_0) == role_of_type(t@),
        r is Err ==> r->Err_0.account_type@ == t@,
{
    if str_eq(t, "High interest account") {
        Ok(AccountRole::SavingAsset)
    } else if str_eq(t, "Standard account") {
        Ok(AccountRole::DefaultAsset)
    } else if str_eq(t, "BSU account") {
        Ok(AccountRole::SavingAsset)
    } else {
        Err(UnsupportedAccountType { account_type: String::from_str(t) })
    }
}

/// Whether ledger account `l` carries `ext` in its note field.
pub open spec fn note_matches(l: LedgerAccount, ext: Seq<char>) -> bool {
    l.external_note is Some && l.external_note->0@ == ext
}

/// Whether some ledger account carries `ext` in its note field.
pub open spec fn has_match(ledger: Seq<LedgerAccount>, ext: Seq<char>) -> bool {
    exists|k: int| 0 <= k < ledger.len() && note_matches(#[trigger] ledger[k], ext)
}

/// The position of the first ledger account whose note carries `ext`;
/// meaningful only when [`has_match`] holds.
pub open spec fn first_match_index(ledger: Seq<LedgerAccount>, ext: Seq<char>) -> int
    decreases ledger.len(),
{
    if ledger.len() == 0 {
        0
    } else if note_matches(ledger[0], ext) {
        0
    } else {
        1 + first_match_index(ledger.skip(1), ext)
    }
}

/// The id of the ledger account the note join resolves `ext` to.
pub open spec fn matched_account_id(ledger: Seq<LedgerAccount>, ext: Seq<char>) -> i64 {
    ledger[first_match_index(ledger, ext)].id
}

/// When a match exists, `first_match_index` points at the first of them.
pub proof fn lemma_first_match_index(ledger: Seq<LedgerAccount>, ext: Seq<char>)
    requires
        has_match(ledger, ext),
    ensures
        0 <= first_match_index(ledger, ext) < ledger.len(),
        note_matches(ledger[first_match_index(ledger, ext)], ext),
        forall|k: int|
            0 <= k < first_match_index(ledger, ext) ==> !note_matches(#[trigger] ledger[k], ext),
    decreases ledger.len(),
{
    let w = choose|k: int| 0 <= k < ledger.len() && note_matches(#[trigger] ledger[k], ext);
    if !note_matches(ledger[0], ext) {
        assert(ledger.skip(1)[w - 1] == ledger[w]);
        assert(has_match(ledger.skip(1), ext));
        lemma_first_match_index(ledger.skip(1), ext);
        let i1 = first_match_index(ledger.skip(1), ext);
        assert(ledger[i1 + 1] == ledger.skip(1)[i1]);
        assert forall|k: int| 0 <= k < i1 + 1 implies !note_matches(#[trigger] ledger[k], ext) by {
            if k > 0 {
                assert(ledger.skip(1)[k - 1] == ledger[k]);
            }
        }
    }
}

/// Looks up the ledger account that mirrors the source external id `ext`,
/// returning the position of the first match.
pub fn find_account(ledger: &Vec<LedgerAccount>, ext: &str) -> (r: Option<usize>)
    ensures
        r is Some <==> has_match(ledger@, ext@),
        r is Some ==> {
            &&& r->0 < ledger@.len()
            &&& note_matches(ledger@[r->0 as int], ext@)
            &&& r->0 as int == first_match_index(ledger@, ext@)
            &&& forall|k: int| 0 <= k < r->0 ==> !note_matches(#[trigger] ledger@[k], ext@)
        },
{
    let n = ledger.len();
    let mut k: usize = 0;
    while k < n
        invariant
            k <= n == ledger@.len(),
            forall|k2: int| 0 <= k2 < k ==> !note_matches(#[trigger] ledger@[k2], ext@),
        decreases n - k,
    {
        match &ledger[k].external_note {
            Some(note) => {
                if str_eq(note.as_str(), ext) {
                    proof {
                        assert(note_matches(ledger@[k as int], ext@));
                        assert(has_match(ledger@, ext@));
                        lemma_first_match_index(ledger@, ext@);
                        assert(k as int == first_match_index(ledger@, ext@));
                    }
                    return Some(k);
                }
            },
            None => {},
        }
        k = k + 1;
    }
    None
}

/// Whether no two ledger accounts carry the same note: the precondition
/// for the note field to act as a join key.
pub open spec fn notes_unique(ledger: Seq<LedgerAccount>) -> bool {
    forall|k1: int, k2: int|
        0 <= k1 < k2 < ledger.len() && (#[trigger] ledger[k1]).external_note is Some && (
        #[trigger] ledger[k2]).external_note is Some ==> ledger[k1].external_note->0@
            != ledger[k2].external_note->0@
}

/// Checks that no two ledger accounts carry the same note, so a join on
/// the note field cannot silently pick among several matches.
pub fn check_notes_unique(ledger: &Vec<LedgerAccount>) -> (b: bool)
    ensures
        b == notes_unique(ledger@),
{
    let n = ledger.len();
    let mut k1: usize = 0;
    while k1 < n
        invariant
            k1 <= n == ledger@.len(),
            forall|a: int, b: int|
                0 <= a < b < ledger@.len() && a < k1 && (#[trigger] ledger@[a]).external_note
                    is Some && (#[trigger] ledger@[b]).external_note is Some ==> ledger@[a].external_note->0@
                    != ledger@[b].external_note->0@,
        decreases n - k1,
    {
        match &ledger[k1].external_note {
            Some(note1) => {
                let mut k2: usize = k1 + 1;
                while k2 < n
                    invariant
                        k1 < k2 <= n == ledger@.len(),
                        ledger@[k1 as int].external_note is Some,
                        note1@ == ledger@[k1 as int].external_note->0@,
                        forall|b: int|
                            k1 < b < k2 && (#[trigger] ledger@[b]).external_note is Some
                                ==> ledger@[k1 as int].external_note->0@
                                != ledger@[b].external_note->0@,
                    decreases n - k2,
                {
                    match &ledger[k2].external_note {
                        Some(note2) => {
                            if str_eq(note1.as_str(), note2.as_str()) {
                                return false;
                            }
                        },
                        None => {},
                    }
                    k2 = k2 + 1;
                }
            },
            None => {},
        }
        k1 = k1 + 1;
    }
    true
}

/// The source accounts that have no mirroring ledger account, in their
/// original order.
pub open spec fn missing_sources(
    sources: Seq<SourceAccount>,
    ledger: Seq<LedgerAccount>,
) -> Seq<SourceAccount>
    decreases sources.len(),
{
    if sources.len() == 0 {
        Seq::empty()
    } else {
        let rest = missing_sources(sources.drop_last(), ledger);
        if has_match(ledger, sources.last().external_id@) {
            rest
        } else {
            rest.push(sources.last())
        }
    }
}

/// The fields a created ledger account gets from its source account.
pub open spec fn planned_account_ok(p: NewLedgerAccount, src: SourceAccount) -> bool {
    &&& p.name@ == src.name@
    &&& Some(p.role) == role_of_type(src.account_type@)
    &&& p.account_number@ == src.account_number@
    &&& p.external_note@ == src.external_id@
}

/// Plans the ledger accounts to create: one per source account whose
/// external id no ledger note carries. Fails on the first missing source
/// account whose type has no role mapping; the run is then aborted.
pub fn plan_account_creation(
    sources: &Vec<SourceAccount>,
    ledger: &Vec<LedgerAccount>,
) -> (r: Result<Vec<NewLedgerAccount>, UnsupportedAccountType>)
    ensures
        r is Ok ==> {
            &&& r->Ok_0@.len() == missing_sources(sources@, ledger@).len()
            &&& forall|m: int|
                0 <= m < r->Ok_0@.len() ==> planned_account_ok(
                    #[trigger] r->Ok_0@[m],
                    missing_sources(sources@, ledger@)[m],
                )
        },
        r is Ok <==> forall|k: int|
            0 <= k < sources@.len() && !has_match(ledger@, (#[trigger] sources@[k]).external_id@)
                ==> role_of_type(sources@[k].account_type@) is Some,
        r is Err ==> exists|k: int|
            {
                &&& 0 <= k < sources@.len()
                &&& !has_match(ledger@, (#[trigger] sources@[k]).external_id@)
                &&& role_of_type(sources@[k].account_type@) is None
                &&& r->Err_0.account_type@ == sources@[k].account_type@
            },
{
    let n = sources.len();
    let mut planned: Vec<NewLedgerAccount> = Vec::new();
    let mut k: usize = 0;
    while k < n
        invariant
            k <= n == sources@.len(),
            planned@.len() == missing_sources(sources@.take(k as int), ledger@).len(),
            forall|m: int|
                0 <= m < planned@.len() ==> planned_account_ok(
                    #[trigger] planned@[m],
                    missing_sources(sources@.take(k as int), ledger@)[m],
                ),
            forall|k2: int|
                0 <= k2 < k && !has_match(ledger@, (#[trigger] sources@[k2]).external_id@)
                    ==> role_of_type(sources@[k2].account_type@) is Some,
        decreases n - k,
    {
        let src = &sources[k];
        proof {
            assert(sources@.take(k + 1).drop_last() =~= sources@.take(k as int));
            assert(sources@.take(k + 1).last() == sources@[k as int]);
        }
        match find_account(ledger, src.external_id.as_str()) {
            Some(_) => {},
            None => {
                match map_account_type(src.account_type.as_str()) {
                    Ok(role) => {
                        planned.push(
                            NewLedgerAccount {
                                name: src.name.clone(),
                                role,
                                account_number: src.account_number.clone(),
                                external_note: src.external_id.clone(),
                            },
                        );
                    },
                    Err(e) => {
                        return Err(e);
                    },
                }
            },
        }
        k = k + 1;
    }
    proof {
        assert(sources@.take(n as int) =~= sources@);
    }
    Ok(planned)
}

/// Every source account lacking a ledger match appears in the missing
/// list.
proof fn lemma_missing_sources_complete(
    sources: Seq<SourceAccount>,
    ledger: Seq<LedgerAccount>,
    k: int,
)
    requires
        0 <= k < sources.len(),
        !has_match(ledger, sources[k].external_id@),
    ensures
        exists|m: int|
            0 <= m < missing_sources(sources, ledger).len() && missing_sources(sources, ledger)[m]
                == sources[k],
    decreases sources.len(),
{
    if k == sources.len() - 1 {
        let miss = missing_sources(sources, ledger);
        assert(miss[miss.len() - 1] == sources[k]);
    } else {
        lemma_missing_sources_complete(sources.drop_last(), ledger, k);
        let rest = missing_sources(sources.drop_last(), ledger);
        let m = choose|m: int| 0 <= m < rest.len() && rest[m] == sources.drop_last()[k];
        assert(missing_sources(sources, ledger)[m] == rest[m]);
        assert(sources.drop_last()[k] == sources[k]);
    }
}

/// When every source account has a ledger match, nothing is missing.
proof fn lemma_all_matched_none_missing(sources: Seq<SourceAccount>, ledger: Seq<LedgerAccount>)
    requires
        forall|k: int|
            0 <= k < sources.len() ==> has_match(ledger, (#[trigger] sources[k]).external_id@),
    ensures
        missing_sources(sources, ledger).len() == 0,
    decreases sources.len(),
{
    if sources.len() > 0 {
        assert(forall|k: int|
            0 <= k < sources.drop_last().len() ==> (#[trigger] sources.drop_last()[k])
                == sources[k]);
        lemma_all_matched_none_missing(sources.drop_last(), ledger);
        assert(sources.last() == sources[sources.len() - 1]);
    }
}

/// Mirroring is idempotent. Suppose the missing accounts of a first run
/// were created: the ledger still matches every external id it matched
/// before, and now also matches the external id of every source account
/// the first run found missing. Then a second run over the same source
/// accounts finds nothing missing and creates zero additional accounts.
pub proof fn lemma_mirror_idempotent(
    sources: Seq<SourceAccount>,
    ledger: Seq<LedgerAccount>,
    ledger2: Seq<LedgerAccount>,
)
    requires
        forall|ext: Seq<char>| has_match(ledger, ext) ==> has_match(ledger2, ext),
        forall|m: int|
            0 <= m < missing_sources(sources, ledger).len() ==> has_match(
                ledger2,
                (#[trigger] missing_sources(sources, ledger)[m]).external_id@,
            ),
    ensures
        missing_sources(sources, ledger2).len() == 0,
{
    assert forall|k: int| 0 <= k < sources.len() implies has_match(
        ledger2,
        (#[trigger] sources[k]).external_id@,
    ) by {
        if !has_match(ledger2, sources[k].external_id@) {
            assert(!has_match(ledger, sources[k].external_id@));
            lemma_missing_sources_complete(sources, ledger, k);
        }
    }
    lemma_all_matched_none_missing(sources, ledger2);
}

} // verus!
