//! Pairs internal-transfer candidates across accounts into single transfer
//! entries. Candidates are grouped by `(absolute amount, date, text)`; within
//! a group the i-th negative (debit) leg is paired with the i-th positive
//! (credit) leg in fetch order, and whatever cannot be paired is reported as
//! a leftover.
//!
//! Results refer to candidates by their index in the input, so that being
//! "in exactly one pair or in the leftover list" is a statement about
//! positions, not about (possibly duplicated) values.

use vstd::prelude::*;
use crate::classify::SourceTransaction;
use crate::date::Date;
use crate::text::str_eq;

verus! {

/// One leg of a suspected transfer between the user's own accounts,
/// carried with the external id of the account it was fetched for.
pub struct TransferCandidate {
    /// External id of the owning source account.
    pub account_external_id: String,
    /// Signed amount in cents.
    pub amount_cents: i64,
    /// Accounting date.
    pub date: Date,
    /// Raw transaction text.
    pub text: String,
    /// The source API's transaction-type code, carried through to the
    /// posting's category.
    pub type_code: String,
}

impl TransferCandidate {
    /// Machine-limit sanity: the amount's absolute value is representable.
    pub open spec fn is_valid(self) -> bool {
        self.amount_cents > i64::MIN
    }

    /// Absolute value of the amount.
    pub open spec fn abs_amount(self) -> int {
        if self.amount_cents < 0 {
            -(self.amount_cents as int)
        } else {
            self.amount_cents as int
        }
    }

    /// Whether this is a debit leg (money leaving its account).
    pub open spec fn is_neg(self) -> bool {
        self.amount_cents < 0
    }

    /// The key candidates are grouped by: absolute amount, date, text.
    pub open spec fn group_key(self) -> (int, Date, Seq<char>) {
        (self.abs_amount(), self.date, self.text@)
    }
}

/// The candidate record a source transaction yields.
pub open spec fn candidate_of(t: SourceTransaction) -> TransferCandidate {
    TransferCandidate {
        account_external_id: t.account_external_id,
        amount_cents: t.amount_cents,
        date: t.date,
        text: t.text,
        type_code: t.type_code,
    }
}

/// Copies the reconciliation-relevant fields of a classified transaction
/// into a candidate record.
pub fn to_candidate(t: &SourceTransaction) -> (c: TransferCandidate)
    ensures
        c == candidate_of(*t),
{
    TransferCandidate {
        account_external_id: t.account_external_id.clone(),
        amount_cents: t.amount_cents,
        date: t.date,
        text: t.text.clone(),
        type_code: t.type_code.clone(),
    }
}

/// The smaller of two naturals.
pub open spec fn min_nat(a: nat, b: nat) -> nat {
    if a < b {
        a
    } else {
        b
    }
}

/// How many candidates among the first `upto` share `key` and have the
/// given sign (`neg` true for debit legs).
pub open spec fn count_side(
    s: Seq<TransferCandidate>,
    key: (int, Date, Seq<char>),
    neg: bool,
    upto: int,
) -> nat
    decreases upto,
{
    if upto <= 0 {
        0
    } else {
        count_side(s, key, neg, upto - 1) + (if 0 <= upto - 1 < s.len() && s[upto
            - 1].group_key() == key && s[upto - 1].is_neg() == neg {
            1nat
        } else {
            0nat
        })
    }
}

/// Counting a longer prefix never sees fewer matches.
pub proof fn lemma_count_side_mono(
    s: Seq<TransferCandidate>,
    key: (int, Date, Seq<char>),
    neg: bool,
    a: int,
    b: int,
)
    requires
        a <= b,
    ensures
        count_side(s, key, neg, a) <= count_side(s, key, neg, b),
    decreases b - a,
{
    if a < b {
        lemma_count_side_mono(s, key, neg, a, b - 1);
    }
}

/// A matching candidate strictly raises the count of any longer prefix:
/// within one side of a group, the index order and the rank order agree.
pub proof fn lemma_count_side_inj(
    s: Seq<TransferCandidate>,
    key: (int, Date, Seq<char>),
    neg: bool,
    i: int,
    b: int,
)
    requires
        0 <= i < s.len(),
        i < b,
        s[i].group_key() == key,
        s[i].is_neg() == neg,
    ensures
        count_side(s, key, neg, i) < count_side(s, key, neg, b),
{
    assert(count_side(s, key, neg, i + 1) == count_side(s, key, neg, i) + 1);
    lemma_count_side_mono(s, key, neg, i + 1, b);
}

/// Two same-side members of one group with the same rank are the same
/// candidate.
pub proof fn lemma_rank_determines_index(
    s: Seq<TransferCandidate>,
    key: (int, Date, Seq<char>),
    neg: bool,
    i: int,
    j: int,
)
    requires
        0 <= i < s.len(),
        0 <= j < s.len(),
        s[i].group_key() == key,
        s[j].group_key() == key,
        s[i].is_neg() == neg,
        s[j].is_neg() == neg,
        count_side(s, key, neg, i) == count_side(s, key, neg, j),
    ensures
        i == j,
{
    if i < j {
        lemma_count_side_inj(s, key, neg, i, j);
    } else if j < i {
        lemma_count_side_inj(s, key, neg, j, i);
    }
}

/// Whether candidates `a` and `b` fall in the same group.
fn same_key(a: &TransferCandidate, b: &TransferCandidate) -> (r: bool)
    requires
        a.is_valid(),
        b.is_valid(),
    ensures
        r == (a.group_key() == b.group_key()),
{
    let abs_eq = a.amount_cents == b.amount_cents || a.amount_cents == -b.amount_cents;
    assert(abs_eq == (a.abs_amount() == b.abs_amount()));
    abs_eq && a.date == b.date && str_eq(a.text.as_str(), b.text.as_str())
}

/// Counts the candidates among the first `upto` that share `key`'s group
/// and have the given sign.
fn count_side_upto(
    cands: &Vec<TransferCandidate>,
    key: &TransferCandidate,
    neg: bool,
    upto: usize,
) -> (cnt: usize)
    requires
        upto <= cands@.len(),
        key.is_valid(),
        forall|i: int| 0 <= i < cands@.len() ==> (#[trigger] cands@[i]).is_valid(),
    ensures
        cnt == count_side(cands@, key.group_key(), neg, upto as int),
        cnt <= upto,
{
    let mut cnt: usize = 0;
    let mut t: usize = 0;
    while t < upto
        invariant
            t <= upto <= cands@.len(),
            cnt <= t,
            cnt == count_side(cands@, key.group_key(), neg, t as int),
            key.is_valid(),
            forall|i: int| 0 <= i < cands@.len() ==> (#[trigger] cands@[i]).is_valid(),
        decreases upto - t,
    {
        let c = &cands[t];
        if same_key(c, key) && (c.amount_cents < 0) == neg {
            cnt = cnt + 1;
        }
        t = t + 1;
    }
    cnt
}

/// Finds the candidate of the given sign in `key`'s group whose rank (its
/// count of earlier same-side group members) is exactly `rank`.
fn find_with_rank(
    cands: &Vec<TransferCandidate>,
    key: &TransferCandidate,
    neg: bool,
    rank: usize,
) -> (j: usize)
    requires
        key.is_valid(),
        forall|i: int| 0 <= i < cands@.len() ==> (#[trigger] cands@[i]).is_valid(),
        rank < count_side(cands@, key.group_key(), neg, cands@.len() as int),
    ensures
        j < cands@.len(),
        cands@[j as int].group_key() == key.group_key(),
        cands@[j as int].is_neg() == neg,
        count_side(cands@, key.group_key(), neg, j as int) == rank,
{
    let n = cands.len();
    let mut cnt: usize = 0;
    let mut j: usize = 0;
    while j < n
        invariant
            j <= n == cands@.len(),
            cnt <= rank,
            cnt == count_side(cands@, key.group_key(), neg, j as int),
            rank < count_side(cands@, key.group_key(), neg, n as int),
            key.is_valid(),
            forall|i: int| 0 <= i < cands@.len() ==> (#[trigger] cands@[i]).is_valid(),
        decreases n - j,
    {
        let c = &cands[j];
        if same_key(c, key) && (c.amount_cents < 0) == neg {
            if cnt == rank {
                return j;
            }
            cnt = cnt + 1;
        }
        j = j + 1;
    }
    proof {
        assert(false);
    }
    unreached()
}

/// Whether the candidate at index `i` is matched: its rank within its own
/// side of its group is below the size of the opposite side of the group.
pub open spec fn is_matched(s: Seq<TransferCandidate>, i: int) -> bool {
    if s[i].is_neg() {
        count_side(s, s[i].group_key(), true, i) < count_side(
            s,
            s[i].group_key(),
            false,
            s.len() as int,
        )
    } else {
        count_side(s, s[i].group_key(), false, i) < count_side(
            s,
            s[i].group_key(),
            true,
            s.len() as int,
        )
    }
}

/// A well-formed matched pair: a debit leg and a credit leg of the same
/// group, amounts summing to exactly zero, date and text identical, and
/// equal ranks within their sides of the group.
pub open spec fn pair_ok(s: Seq<TransferCandidate>, i: int, j: int) -> bool {
    &&& 0 <= i < s.len()
    &&& 0 <= j < s.len()
    &&& s[i].is_neg()
    &&& !s[j].is_neg()
    &&& s[i].group_key() == s[j].group_key()
    &&& s[i].amount_cents + s[j].amount_cents == 0
    &&& s[i].date == s[j].date
    &&& s[i].text@ == s[j].text@
    &&& count_side(s, s[i].group_key(), true, i) == count_side(s, s[j].group_key(), false, j)
}

/// How many of the first `upto` pairs have their debit leg in `key`'s
/// group.
pub open spec fn count_pairs_group(
    s: Seq<TransferCandidate>,
    pairs: Seq<(usize, usize)>,
    key: (int, Date, Seq<char>),
    upto: int,
) -> nat
    decreases upto,
{
    if upto <= 0 {
        0
    } else {
        count_pairs_group(s, pairs, key, upto - 1) + (if 0 <= upto - 1 < pairs.len() && pairs[upto
            - 1].0 < s.len() && s[pairs[upto - 1].0 as int].group_key() == key {
            1nat
        } else {
            0nat
        })
    }
}

/// Appending a pair leaves the counts of shorter prefixes unchanged.
pub proof fn lemma_count_pairs_group_push(
    s: Seq<TransferCandidate>,
    pairs: Seq<(usize, usize)>,
    p: (usize, usize),
    key: (int, Date, Seq<char>),
    upto: int,
)
    requires
        upto <= pairs.len(),
    ensures
        count_pairs_group(s, pairs.push(p), key, upto) == count_pairs_group(s, pairs, key, upto),
    decreases upto,
{
    if upto > 0 {
        lemma_count_pairs_group_push(s, pairs, p, key, upto - 1);
        assert(pairs.push(p)[upto - 1] == pairs[upto - 1]);
    }
}

/// The reconciler's whole contract, stated over candidate indices.
///
/// It says: every pair joins a debit and a credit leg of one group with
/// amounts summing to zero and identical date and text, pairing the i-th
/// debit with the i-th credit in fetch order; pairs are listed by debit
/// position and never reuse a leg; a candidate is in a pair exactly when
/// its rank is below the opposite side's size, and in the leftover list
/// exactly otherwise, never both; and each group contributes exactly
/// `min(debit count, credit count)` pairs.
pub open spec fn reconciliation_ok(
    s: Seq<TransferCandidate>,
    pairs: Seq<(usize, usize)>,
    leftovers: Seq<usize>,
) -> bool {
    &&& forall|k: int|
        0 <= k < pairs.len() ==> pair_ok(s, (#[trigger] pairs[k]).0 as int, pairs[k].1 as int)
    &&& forall|k1: int, k2: int|
        0 <= k1 < k2 < pairs.len() ==> (#[trigger] pairs[k1]).0 < (#[trigger] pairs[k2]).0
    &&& forall|k1: int, k2: int|
        0 <= k1 < k2 < pairs.len() ==> (#[trigger] pairs[k1]).1 != (#[trigger] pairs[k2]).1
    &&& forall|i: int|
        0 <= i < s.len() && (#[trigger] s[i]).is_neg() ==> (is_matched(s, i) <==> exists|k: int|
            0 <= k < pairs.len() && (#[trigger] pairs[k]).0 as int == i)
    &&& forall|i: int|
        0 <= i < s.len() && !(#[trigger] s[i]).is_neg() ==> (is_matched(s, i) <==> exists|k: int|
            0 <= k < pairs.len() && (#[trigger] pairs[k]).1 as int == i)
    &&& forall|k: int|
        0 <= k < leftovers.len() ==> (#[trigger] leftovers[k]) < s.len() && !is_matched(
            s,
            leftovers[k] as int,
        )
    &&& forall|k1: int, k2: int|
        0 <= k1 < k2 < leftovers.len() ==> (#[trigger] leftovers[k1]) < (#[trigger] leftovers[k2])
    &&& forall|i: int|
        0 <= i < s.len() && !(#[trigger] is_matched(s, i)) ==> exists|k: int|
            0 <= k < leftovers.len() && (#[trigger] leftovers[k]) as int == i
    &&& forall|m: int|
        0 <= m < s.len() ==> count_pairs_group(s, pairs, (#[trigger] s[m]).group_key(), pairs.len() as int)
            == min_nat(
            count_side(s, s[m].group_key(), true, s.len() as int),
            count_side(s, s[m].group_key(), false, s.len() as int),
        )
}

/// The reconciler's result: matched `(debit, credit)` pairs and unmatched
/// leftovers, both as indices into the candidate list handed in.
pub struct Reconciliation {
    /// Matched pairs, `(debit index, credit index)`, by debit position.
    pub pairs: Vec<(usize, usize)>,
    /// Indices of candidates no pair could be formed for, in fetch order.
    pub leftovers: Vec<usize>,
}

/// The reconciler's loop invariant after the first `i` candidates have
/// been placed: pairs are well formed and ordered, debit legs up to `i`
/// and credit legs anywhere are in a pair exactly when their rank admits
/// one, leftovers are exactly the unmatched candidates up to `i`, and
/// each group holds as many pairs as its debit count so far allows.
spec fn reconcile_inv(
    s: Seq<TransferCandidate>,
    pairs: Seq<(usize, usize)>,
    leftovers: Seq<usize>,
    i: int,
) -> bool {
    &&& 0 <= i <= s.len()
    &&& forall|k: int|
        0 <= k < pairs.len() ==> pair_ok(s, (#[trigger] pairs[k]).0 as int, pairs[k].1 as int)
            && pairs[k].0 < i
    &&& forall|k1: int, k2: int|
        0 <= k1 < k2 < pairs.len() ==> (#[trigger] pairs[k1]).0 < (#[trigger] pairs[k2]).0
    &&& forall|k1: int, k2: int|
        0 <= k1 < k2 < pairs.len() ==> (#[trigger] pairs[k1]).1 != (#[trigger] pairs[k2]).1
    &&& forall|i2: int|
        0 <= i2 < i && (#[trigger] s[i2]).is_neg() ==> (is_matched(s, i2) <==> exists|k: int|
            0 <= k < pairs.len() && (#[trigger] pairs[k]).0 as int == i2)
    &&& forall|j2: int|
        0 <= j2 < s.len() && !(#[trigger] s[j2]).is_neg() ==> ((exists|k: int|
            0 <= k < pairs.len() && (#[trigger] pairs[k]).1 as int == j2) <==> count_side(
            s,
            s[j2].group_key(),
            false,
            j2,
        ) < count_side(s, s[j2].group_key(), true, i))
    &&& forall|k: int|
        0 <= k < leftovers.len() ==> (#[trigger] leftovers[k]) < i && !is_matched(
            s,
            leftovers[k] as int,
        )
    &&& forall|k1: int, k2: int|
        0 <= k1 < k2 < leftovers.len() ==> (#[trigger] leftovers[k1]) < (#[trigger] leftovers[k2])
    &&& forall|i2: int|
        0 <= i2 < i && !(#[trigger] is_matched(s, i2)) ==> exists|k: int|
            0 <= k < leftovers.len() && (#[trigger] leftovers[k]) as int == i2
    &&& forall|m: int|
        0 <= m < s.len() ==> count_pairs_group(s, pairs, (#[trigger] s[m]).group_key(), pairs.len() as int)
            == min_nat(
            count_side(s, s[m].group_key(), true, i),
            count_side(s, s[m].group_key(), false, s.len() as int),
        )
}

/// Placing a matched debit leg: pushing its pair keeps the invariant.
#[verifier::rlimit(100)]
proof fn lemma_step_matched_debit(
    s: Seq<TransferCandidate>,
    pairs: Seq<(usize, usize)>,
    leftovers: Seq<usize>,
    i: usize,
    j: usize,
)
    requires
        reconcile_inv(s, pairs, leftovers, i as int),
        i < s.len(),
        s[i as int].is_neg(),
        count_side(s, s[i as int].group_key(), true, i as int) < count_side(
            s,
            s[i as int].group_key(),
            false,
            s.len() as int,
        ),
        j < s.len(),
        !s[j as int].is_neg(),
        s[j as int].group_key() == s[i as int].group_key(),
        count_side(s, s[i as int].group_key(), false, j as int) == count_side(
            s,
            s[i as int].group_key(),
            true,
            i as int,
        ),
    ensures
        reconcile_inv(s, pairs.push((i, j)), leftovers, i + 1),
{
    let key = s[i as int].group_key();
    let p = (i, j);
    let pairs1 = pairs.push(p);
    assert(s[i as int].abs_amount() == s[j as int].abs_amount());
    assert(pair_ok(s, i as int, j as int));
    // no earlier pair used this credit leg
    assert forall|k: int| 0 <= k < pairs.len() implies pairs[k].1 != p.1 by {
        if pairs[k].1 == p.1 {
            let i_old = pairs[k].0 as int;
            assert(pair_ok(s, i_old, j as int));
            lemma_count_side_inj(s, key, true, i_old, i as int);
        }
    }
    // a credit leg is in a pair exactly when its rank is below the
    // number of debit legs seen so far
    assert forall|j2: int|
        0 <= j2 < s.len() && !(#[trigger] s[j2]).is_neg() implies ((exists|k: int|
        0 <= k < pairs1.len() && (#[trigger] pairs1[k]).1 as int == j2) <==> count_side(
        s,
        s[j2].group_key(),
        false,
        j2,
    ) < count_side(s, s[j2].group_key(), true, i + 1)) by {
        let key2 = s[j2].group_key();
        assert(count_side(s, key2, true, i + 1) == count_side(s, key2, true, i as int) + (if key2
            == key {
            1nat
        } else {
            0nat
        }));
        if key2 == key {
            if count_side(s, key2, false, j2) < count_side(s, key2, true, i + 1) {
                if count_side(s, key2, false, j2) == count_side(s, key2, true, i as int) {
                    lemma_rank_determines_index(s, key, false, j2, j as int);
                    assert(pairs1[pairs.len() as int].1 as int == j2);
                } else {
                    assert(exists|k: int|
                        0 <= k < pairs.len() && (#[trigger] pairs[k]).1 as int == j2);
                    let k = choose|k: int|
                        0 <= k < pairs.len() && (#[trigger] pairs[k]).1 as int == j2;
                    assert(pairs1[k].1 as int == j2);
                }
            }
            if exists|k: int| 0 <= k < pairs1.len() && (#[trigger] pairs1[k]).1 as int == j2 {
                let k = choose|k: int| 0 <= k < pairs1.len() && (#[trigger] pairs1[k]).1 as int == j2;
                if k < pairs.len() {
                    assert(pairs[k].1 as int == j2);
                }
            }
        } else {
            if exists|k: int| 0 <= k < pairs1.len() && (#[trigger] pairs1[k]).1 as int == j2 {
                let k = choose|k: int| 0 <= k < pairs1.len() && (#[trigger] pairs1[k]).1 as int == j2;
                assert(k < pairs.len());
                assert(pairs[k].1 as int == j2);
            }
            if count_side(s, key2, false, j2) < count_side(s, key2, true, i + 1) {
                let k = choose|k: int| 0 <= k < pairs.len() && (#[trigger] pairs[k]).1 as int == j2;
                assert(pairs1[k].1 as int == j2);
            }
        }
    }
    // a debit leg is in a pair exactly when matched
    assert forall|i2: int|
        0 <= i2 < i + 1 && (#[trigger] s[i2]).is_neg() implies (is_matched(s, i2) <==> exists|k: int|
        0 <= k < pairs1.len() && (#[trigger] pairs1[k]).0 as int == i2) by {
        if i2 == i as int {
            assert(is_matched(s, i2));
            assert(pairs1[pairs.len() as int].0 as int == i2);
        } else {
            if is_matched(s, i2) {
                let k = choose|k: int| 0 <= k < pairs.len() && (#[trigger] pairs[k]).0 as int == i2;
                assert(pairs1[k].0 as int == i2);
            }
            if exists|k: int| 0 <= k < pairs1.len() && (#[trigger] pairs1[k]).0 as int == i2 {
                let k = choose|k: int| 0 <= k < pairs1.len() && (#[trigger] pairs1[k]).0 as int == i2;
                assert(k < pairs.len());
            }
        }
    }
    // per-group pair counts advance with the debit count
    assert forall|m: int| 0 <= m < s.len() implies count_pairs_group(
        s,
        pairs1,
        (#[trigger] s[m]).group_key(),
        pairs1.len() as int,
    ) == min_nat(
        count_side(s, s[m].group_key(), true, i + 1),
        count_side(s, s[m].group_key(), false, s.len() as int),
    ) by {
        let key2 = s[m].group_key();
        lemma_count_pairs_group_push(s, pairs, p, key2, pairs.len() as int);
        assert(count_pairs_group(s, pairs1, key2, pairs1.len() as int) == count_pairs_group(
            s,
            pairs,
            key2,
            pairs.len() as int,
        ) + (if key2 == key {
            1nat
        } else {
            0nat
        }));
        assert(count_side(s, key2, true, i + 1) == count_side(s, key2, true, i as int) + (if key2
            == key {
            1nat
        } else {
            0nat
        }));
    }
}

/// Placing a matched credit leg changes nothing: its pair is recorded
/// when its debit leg's turn comes.
#[verifier::rlimit(100)]
proof fn lemma_step_matched_credit(
    s: Seq<TransferCandidate>,
    pairs: Seq<(usize, usize)>,
    leftovers: Seq<usize>,
    i: usize,
)
    requires
        reconcile_inv(s, pairs, leftovers, i as int),
        i < s.len(),
        !s[i as int].is_neg(),
        count_side(s, s[i as int].group_key(), false, i as int) < count_side(
            s,
            s[i as int].group_key(),
            true,
            s.len() as int,
        ),
    ensures
        reconcile_inv(s, pairs, leftovers, i + 1),
{
    assert(is_matched(s, i as int));
    // the tuple projection only serves as a selective trigger on s[m]
    assert forall|m: int| 0 <= m < s.len() implies count_side(
        (#[trigger] s[m], s).1,
        s[m].group_key(),
        true,
        i + 1,
    ) == count_side(s, s[m].group_key(), true, i as int) by {
        assert(s[i as int].is_neg() == false);
    }
}

/// Placing an unmatched leg of either sign: pushing it onto the
/// leftovers keeps the invariant.
#[verifier::rlimit(100)]
proof fn lemma_step_leftover(
    s: Seq<TransferCandidate>,
    pairs: Seq<(usize, usize)>,
    leftovers: Seq<usize>,
    i: usize,
)
    requires
        reconcile_inv(s, pairs, leftovers, i as int),
        i < s.len(),
        count_side(s, s[i as int].group_key(), s[i as int].is_neg(), i as int) >= count_side(
            s,
            s[i as int].group_key(),
            !s[i as int].is_neg(),
            s.len() as int,
        ),
    ensures
        reconcile_inv(s, pairs, leftovers.push(i), i + 1),
{
    let key = s[i as int].group_key();
    let left1 = leftovers.push(i);
    assert(!is_matched(s, i as int));
    assert forall|i2: int|
        0 <= i2 < i + 1 && !(#[trigger] is_matched(s, i2)) implies exists|k: int|
        0 <= k < left1.len() && (#[trigger] left1[k]) as int == i2 by {
        if i2 == i as int {
            assert(left1[leftovers.len() as int] as int == i2);
        } else {
            let k = choose|k: int| 0 <= k < leftovers.len() && (#[trigger] leftovers[k]) as int == i2;
            assert(left1[k] as int == i2);
        }
    }
    if s[i as int].is_neg() {
        // the group's debit side already exceeds its credit side, so no
        // credit leg has the rank the new debit count would point at
        assert forall|j2: int|
            0 <= j2 < s.len() && !(#[trigger] s[j2]).is_neg() && s[j2].group_key()
                == key implies count_side(s, key, false, j2) < count_side(
            s,
            key,
            true,
            i as int,
        ) by {
            lemma_count_side_inj(s, key, false, j2, s.len() as int);
        }
        assert forall|j2: int|
            0 <= j2 < s.len() && !(#[trigger] s[j2]).is_neg() implies ((exists|k: int|
            0 <= k < pairs.len() && (#[trigger] pairs[k]).1 as int == j2) <==> count_side(
            s,
            s[j2].group_key(),
            false,
            j2,
        ) < count_side(s, s[j2].group_key(), true, i + 1)) by {
            let key2 = s[j2].group_key();
            assert(count_side(s, key2, true, i + 1) == count_side(s, key2, true, i as int)
                + (if key2 == key {
                1nat
            } else {
                0nat
            }));
        }
        assert forall|m: int| 0 <= m < s.len() implies count_pairs_group(
            s,
            pairs,
            (#[trigger] s[m]).group_key(),
            pairs.len() as int,
        ) == min_nat(
            count_side(s, s[m].group_key(), true, i + 1),
            count_side(s, s[m].group_key(), false, s.len() as int),
        ) by {
            let key2 = s[m].group_key();
            assert(count_side(s, key2, true, i + 1) == count_side(s, key2, true, i as int)
                + (if key2 == key {
                1nat
            } else {
                0nat
            }));
        }
    } else {
        // the tuple projection only serves as a selective trigger on s[m]
        assert forall|m: int| 0 <= m < s.len() implies count_side(
            (#[trigger] s[m], s).1,
            s[m].group_key(),
            true,
            i + 1,
        ) == count_side(s, s[m].group_key(), true, i as int) by {
            assert(s[i as int].is_neg() == false);
        }
    }
}

/// Groups the transfer candidates of one sync year by
/// `(absolute amount, date, text)` and pairs the i-th debit leg of each
/// group with its i-th credit leg; everything unpaired is a leftover.
pub fn reconcile(cands: &Vec<TransferCandidate>) -> (r: Reconciliation)
    requires
        forall|i: int| 0 <= i < cands@.len() ==> (#[trigger] cands@[i]).is_valid(),
    ensures
        reconciliation_ok(cands@, r.pairs@, r.leftovers@),
{
    let ghost s = cands@;
    let n = cands.len();
    let mut pairs: Vec<(usize, usize)> = Vec::new();
    let mut leftovers: Vec<usize> = Vec::new();
    let mut i: usize = 0;
    while i < n
        invariant
            i <= n == s.len(),
            s == cands@,
            forall|t: int| 0 <= t < s.len() ==> (#[trigger] s[t]).is_valid(),
            reconcile_inv(s, pairs@, leftovers@, i as int),
        decreases n - i,
    {
        let c = &cands[i];
        let neg = c.amount_cents < 0;
        let rank = count_side_upto(cands, c, neg, i);
        let opp_total = count_side_upto(cands, c, !neg, n);
        if rank < opp_total {
            if neg {
                let j = find_with_rank(cands, c, false, rank);
                proof {
                    lemma_step_matched_debit(s, pairs@, leftovers@, i, j);
                }
                pairs.push((i, j));
            } else {
                proof {
                    lemma_step_matched_credit(s, pairs@, leftovers@, i);
                }
            }
        } else {
            proof {
                lemma_step_leftover(s, pairs@, leftovers@, i);
            }
            leftovers.push(i);
        }
        i = i + 1;
    }
    Reconciliation { pairs, leftovers }
}

} // verus!
