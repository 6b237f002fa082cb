//! Cleans raw merchant/transaction text through ordered rules: strip a
//! leading `DD.MM ` date, strip a trailing `Betalt: DD.MM.YY` stamp, strip
//! leading `Til: ` / `Fra: ` labels, collapse a card-purchase pattern to
//! its merchant segment, canonicalize known merchant prefixes, and trim
//! surrounding whitespace.

use vstd::prelude::*;
use crate::date::is_digit_char;

verus! {

/// Whitespace for trimming purposes.
pub open spec fn is_space_char(c: char) -> bool {
    c == ' ' || c == '\t' || c == '\n' || c == '\r'
}

/// A word character: letter, digit or underscore.
pub open spec fn is_word_char(c: char) -> bool {
    ||| is_digit_char(c)
    ||| 65 <= c as u32 <= 90
    ||| 97 <= c as u32 <= 122
    ||| c == '_'
}

/// Whether `s` opens with a `DD.MM ` date.
pub open spec fn has_date_prefix(s: Seq<char>) -> bool {
    &&& s.len() >= 6
    &&& is_digit_char(s[0])
    &&& is_digit_char(s[1])
    &&& s[2] == '.'
    &&& is_digit_char(s[3])
    &&& is_digit_char(s[4])
    &&& s[5] == ' '
}

/// Strips one leading `DD.MM ` date if present.
pub open spec fn strip_date_prefix(s: Seq<char>) -> Seq<char> {
    if has_date_prefix(s) {
        s.skip(6)
    } else {
        s
    }
}

/// Whether the 16-character block starting at `p` reads `Betalt: DD.MM.YY`.
pub open spec fn pay_stamp_at(s: Seq<char>, p: int) -> bool {
    &&& 0 <= p && p + 16 <= s.len()
    &&& s[p] == 'B'
    &&& s[p + 1] == 'e'
    &&& s[p + 2] == 't'
    &&& s[p + 3] == 'a'
    &&& s[p + 4] == 'l'
    &&& s[p + 5] == 't'
    &&& s[p + 6] == ':'
    &&& s[p + 7] == ' '
    &&& is_digit_char(s[p + 8])
    &&& is_digit_char(s[p + 9])
    &&& s[p + 10] == '.'
    &&& is_digit_char(s[p + 11])
    &&& is_digit_char(s[p + 12])
    &&& s[p + 13] == '.'
    &&& is_digit_char(s[p + 14])
    &&& is_digit_char(s[p + 15])
}

/// Whether `s` ends with a `Betalt: DD.MM.YY` stamp.
pub open spec fn has_pay_suffix(s: Seq<char>) -> bool {
    s.len() >= 16 && pay_stamp_at(s, s.len() - 16)
}

/// Strips one trailing `Betalt: DD.MM.YY` stamp if present.
pub open spec fn strip_pay_suffix(s: Seq<char>) -> Seq<char> {
    if has_pay_suffix(s) {
        s.take(s.len() - 16)
    } else {
        s
    }
}

/// Whether `s` opens with `Til: `.
pub open spec fn has_til_prefix(s: Seq<char>) -> bool {
    s.len() >= 5 && s[0] == 'T' && s[1] == 'i' && s[2] == 'l' && s[3] == ':' && s[4] == ' '
}

/// Whether `s` opens with `Fra: `.
pub open spec fn has_fra_prefix(s: Seq<char>) -> bool {
    s.len() >= 5 && s[0] == 'F' && s[1] == 'r' && s[2] == 'a' && s[3] == ':' && s[4] == ' '
}

/// Strips every repeated leading `Til: ` label.
pub open spec fn strip_til(s: Seq<char>) -> Seq<char>
    decreases s.len(),
{
    if has_til_prefix(s) {
        strip_til(s.skip(5))
    } else {
        s
    }
}

/// Strips every repeated leading `Fra: ` label.
pub open spec fn strip_fra(s: Seq<char>) -> Seq<char>
    decreases s.len(),
{
    if has_fra_prefix(s) {
        strip_fra(s.skip(5))
    } else {
        s
    }
}

/// ASCII case folding: the code point of `c` with upper-case letters
/// lowered.
pub open spec fn fold_char(c: char) -> int {
    if 65 <= c as u32 <= 90 {
        c as u32 + 32
    } else {
        c as int
    }
}

/// Whether `s` starts with `p`, compared case-insensitively over ASCII.
pub open spec fn ci_prefix(s: Seq<char>, p: Seq<char>) -> bool {
    s.len() >= p.len() && forall|t: int| 0 <= t < p.len() ==> fold_char(s[t]) == fold_char(p[t])
}

/// The known-merchant rule: a text starting (case-insensitively) with one
/// of the fixed merchant prefixes is replaced by that merchant's
/// canonical name; the first listed match wins.
pub open spec fn apply_merchants(s: Seq<char>) -> Seq<char> {
    if ci_prefix(s, "skimore"@) {
        "Skimore"@
    } else if ci_prefix(s, "starbucks"@) {
        "Starbucks"@
    } else if ci_prefix(s, "steam"@) {
        "Steam"@
    } else if ci_prefix(s, "domeneshop"@) {
        "Domeneshop"@
    } else if ci_prefix(s, "hokksund sushi og thai"@) {
        "Hokksund Sushi og Thai"@
    } else if ci_prefix(s, "tekna"@) {
        "TEKNA"@
    } else {
        s
    }
}

/// Drops leading whitespace.
pub open spec fn trim_start_spec(s: Seq<char>) -> Seq<char>
    decreases s.len(),
{
    if s.len() > 0 && is_space_char(s[0]) {
        trim_start_spec(s.skip(1))
    } else {
        s
    }
}

/// Drops trailing whitespace.
pub open spec fn trim_end_spec(s: Seq<char>) -> Seq<char>
    decreases s.len(),
{
    if s.len() > 0 && is_space_char(s.last()) {
        trim_end_spec(s.drop_last())
    } else {
        s
    }
}

/// Drops surrounding whitespace.
pub open spec fn trim_spec(s: Seq<char>) -> Seq<char> {
    trim_end_spec(trim_start_spec(s))
}

/// Reads one character.
fn char_at(s: &str, i: usize) -> (c: char)
    requires
        i < s@.len(),
    ensures
        c == s@[i as int],
{
    s.get_char(i)
}

/// Whether the character at `i` is a decimal digit.
fn digit_at(s: &str, i: usize) -> (r: bool)
    requires
        i < s@.len(),
    ensures
        r == is_digit_char(s@[i as int]),
{
    let v = s.get_char(i) as u32;
    48 <= v && v <= 57
}

/// Strips one leading `DD.MM ` date if present.
fn strip_date_prefix_exec<'a>(s: &'a str) -> (r: &'a str)
    ensures
        r@ == strip_date_prefix(s@),
{
    let n = s.unicode_len();
    if n >= 6 && digit_at(s, 0) && digit_at(s, 1) && char_at(s, 2) == '.' && digit_at(s, 3)
        && digit_at(s, 4) && char_at(s, 5) == ' ' {
        let r = s.substring_char(6, n);
        proof {
            assert(r@ =~= s@.skip(6));
        }
        r
    } else {
        s
    }
}

/// Strips one trailing `Betalt: DD.MM.YY` stamp if present.
fn strip_pay_suffix_exec<'a>(s: &'a str) -> (r: &'a str)
    ensures
        r@ == strip_pay_suffix(s@),
{
    let n = s.unicode_len();
    if n >= 16 {
        let p = n - 16;
        let stamped = char_at(s, p) == 'B' && char_at(s, p + 1) == 'e' && char_at(s, p + 2) == 't'
            && char_at(s, p + 3) == 'a' && char_at(s, p + 4) == 'l' && char_at(s, p + 5) == 't'
            && char_at(s, p + 6) == ':' && char_at(s, p + 7) == ' ' && digit_at(s, p + 8)
            && digit_at(s, p + 9) && char_at(s, p + 10) == '.' && digit_at(s, p + 11) && digit_at(
            s,
            p + 12,
        ) && char_at(s, p + 13) == '.' && digit_at(s, p + 14) && digit_at(s, p + 15);
        if stamped {
            let r = s.substring_char(0, p);
            proof {
                assert(r@ =~= s@.take(p as int));
            }
            r
        } else {
            s
        }
    } else {
        s
    }
}

/// Strips every repeated leading `Til: ` and then every repeated leading
/// `Fra: ` label.
fn strip_labels_exec<'a>(s: &'a str) -> (r: &'a str)
    ensures
        r@ == strip_fra(strip_til(s@)),
{
    let mut cur = s;
    loop
        invariant
            strip_til(cur@) == strip_til(s@),
        ensures
            cur@ == strip_til(s@),
        decreases cur@.len(),
    {
        let n = cur.unicode_len();
        if n >= 5 && char_at(cur, 0) == 'T' && char_at(cur, 1) == 'i' && char_at(cur, 2) == 'l'
            && char_at(cur, 3) == ':' && char_at(cur, 4) == ' ' {
            let next = cur.substring_char(5, n);
            proof {
                assert(next@ =~= cur@.skip(5));
            }
            cur = next;
        } else {
            break ;
        }
    }
    loop
        invariant
            strip_fra(cur@) == strip_fra(strip_til(s@)),
        ensures
            cur@ == strip_fra(strip_til(s@)),
        decreases cur@.len(),
    {
        let n = cur.unicode_len();
        if n >= 5 && char_at(cur, 0) == 'F' && char_at(cur, 1) == 'r' && char_at(cur, 2) == 'a'
            && char_at(cur, 3) == ':' && char_at(cur, 4) == ' ' {
            let next = cur.substring_char(5, n);
            proof {
                assert(next@ =~= cur@.skip(5));
            }
            cur = next;
        } else {
            break ;
        }
    }
    cur
}

/// Whether `s` starts with `p`, compared case-insensitively over ASCII.
fn ci_starts_with(s: &str, p: &str) -> (r: bool)
    ensures
        r == ci_prefix(s@, p@),
{
    let np = p.unicode_len();
    if s.unicode_len() < np {
        return false;
    }
    let mut t: usize = 0;
    while t < np
        invariant
            t <= np == p@.len(),
            s@.len() >= p@.len(),
            forall|u: int| 0 <= u < t ==> fold_char(s@[u]) == fold_char(p@[u]),
        decreases np - t,
    {
        let cs = char_at(s, t) as u32;
        let cp = char_at(p, t) as u32;
        let fs = if 65 <= cs && cs <= 90 {
            cs + 32
        } else {
            cs
        };
        let fp = if 65 <= cp && cp <= 90 {
            cp + 32
        } else {
            cp
        };
        if fs != fp {
            return false;
        }
        t = t + 1;
    }
    true
}

/// Replaces a text starting with a known merchant prefix by the
/// merchant's canonical name.
fn apply_merchants_exec<'a>(s: &'a str) -> (r: &'a str)
    ensures
        r@ == apply_merchants(s@),
{
    if ci_starts_with(s, "skimore") {
        "Skimore"
    } else if ci_starts_with(s, "starbucks") {
        "Starbucks"
    } else if ci_starts_with(s, "steam") {
        "Steam"
    } else if ci_starts_with(s, "domeneshop") {
        "Domeneshop"
    } else if ci_starts_with(s, "hokksund sushi og thai") {
        "Hokksund Sushi og Thai"
    } else if ci_starts_with(s, "tekna") {
        "TEKNA"
    } else {
        s
    }
}

/// `trim_start_spec` drops exactly the leading run of whitespace.
proof fn lemma_trim_start_at(s: Seq<char>, a: int)
    requires
        0 <= a <= s.len(),
        forall|t: int| 0 <= t < a ==> is_space_char(s[t]),
        a < s.len() ==> !is_space_char(s[a]),
    ensures
        trim_start_spec(s) == s.skip(a),
    decreases a,
{
    if a == 0 {
        assert(s.skip(0) =~= s);
    } else {
        lemma_trim_start_at(s.skip(1), a - 1);
        assert(s.skip(1).skip(a - 1) =~= s.skip(a));
    }
}

/// `trim_end_spec` drops exactly the trailing run of whitespace.
proof fn lemma_trim_end_at(s: Seq<char>, b: int)
    requires
        0 <= b <= s.len(),
        forall|t: int| b <= t < s.len() ==> is_space_char(s[t]),
        b > 0 ==> !is_space_char(s[b - 1]),
    ensures
        trim_end_spec(s) == s.take(b),
    decreases s.len() - b,
{
    if b == s.len() {
        assert(s.take(b) =~= s);
    } else {
        lemma_trim_end_at(s.drop_last(), b);
        assert(s.drop_last().take(b) =~= s.take(b));
    }
}

/// Drops surrounding whitespace.
fn trim_exec<'a>(s: &'a str) -> (r: &'a str)
    ensures
        r@ == trim_spec(s@),
{
    let n = s.unicode_len();
    let mut a: usize = 0;
    loop
        invariant
            a <= n == s@.len(),
            forall|t: int| 0 <= t < a ==> is_space_char(s@[t]),
        ensures
            a <= n == s@.len(),
            forall|t: int| 0 <= t < a ==> is_space_char(s@[t]),
            a < n ==> !is_space_char(s@[a as int]),
        decreases n - a,
    {
        if a < n {
            let c = char_at(s, a);
            if c == ' ' || c == '\t' || c == '\n' || c == '\r' {
                a = a + 1;
            } else {
                break ;
            }
        } else {
            break ;
        }
    }
    proof {
        lemma_trim_start_at(s@, a as int);
    }
    if a == n {
        let r = s.substring_char(n, n);
        proof {
            assert(r@ =~= s@.skip(a as int));
            assert(trim_end_spec(s@.skip(a as int)) == s@.skip(a as int));
        }
        return r;
    }
    let mut b: usize = n;
    loop
        invariant
            a < b <= n == s@.len(),
            forall|t: int| b <= t < n ==> is_space_char(s@[t]),
        ensures
            a < b <= n == s@.len(),
            forall|t: int| b <= t < n ==> is_space_char(s@[t]),
            b > a + 1 ==> !is_space_char(s@[b - 1]),
        decreases b,
    {
        if b > a + 1 {
            let c = char_at(s, b - 1);
            if c == ' ' || c == '\t' || c == '\n' || c == '\r' {
                b = b - 1;
            } else {
                break ;
            }
        } else {
            break ;
        }
    }
    proof {
        let tail = s@.skip(a as int);
        assert(!is_space_char(s@[a as int]));
        if b == a + 1 {
            assert(tail[(b - a - 1) as int] == s@[a as int]);
        }
        lemma_trim_end_at(tail, b - a);
        assert(trim_spec(s@) == tail.take(b - a));
    }
    let r = s.substring_char(a, b);
    proof {
        assert(r@ =~= s@.skip(a as int).take(b - a));
    }
    r
}

/// The fixed head of a card-purchase text: `*NNNN DD.MM CCY ` — a star,
/// four card digits, a date, a three-character currency code, all
/// space-separated, filling positions 0 to 15.
pub open spec fn card_head_ok(s: Seq<char>) -> bool {
    &&& s.len() >= 16
    &&& s[0] == '*'
    &&& is_digit_char(s[1])
    &&& is_digit_char(s[2])
    &&& is_digit_char(s[3])
    &&& is_digit_char(s[4])
    &&& s[5] == ' '
    &&& is_digit_char(s[6])
    &&& is_digit_char(s[7])
    &&& s[8] == '.'
    &&& is_digit_char(s[9])
    &&& is_digit_char(s[10])
    &&& s[11] == ' '
    &&& is_word_char(s[12])
    &&& is_word_char(s[13])
    &&& is_word_char(s[14])
    &&& s[15] == ' '
}

/// The amount after the head: `k` digits, a dot, two digits, a space.
pub open spec fn card_amount_at(s: Seq<char>, k: int) -> bool {
    &&& 1 <= k
    &&& 16 + k + 4 <= s.len()
    &&& forall|t: int| 16 <= t < 16 + k ==> is_digit_char(s[t])
    &&& s[16 + k] == '.'
    &&& is_digit_char(s[16 + k + 1])
    &&& is_digit_char(s[16 + k + 2])
    &&& s[16 + k + 3] == ' '
}

/// Whether the seven characters at `q` read ` Kurs: `.
pub open spec fn kurs_at(s: Seq<char>, q: int) -> bool {
    &&& 0 <= q && q + 7 <= s.len()
    &&& s[q] == ' '
    &&& s[q + 1] == 'K'
    &&& s[q + 2] == 'u'
    &&& s[q + 3] == 'r'
    &&& s[q + 4] == 's'
    &&& s[q + 5] == ':'
    &&& s[q + 6] == ' '
}

/// A rate filling the rest of the text from `from`: digits, a dot at
/// `d`, digits, both runs non-empty.
pub open spec fn rate_split_at(s: Seq<char>, from: int, d: int) -> bool {
    &&& from < d
    &&& d + 1 < s.len()
    &&& forall|t: int| from <= t < d ==> is_digit_char(s[t])
    &&& s[d] == '.'
    &&& forall|t: int| d < t < s.len() ==> is_digit_char(s[t])
}

/// Whether a rate fills the rest of the text from `from`.
pub open spec fn rate_ok(s: Seq<char>, from: int) -> bool {
    exists|d: int| rate_split_at(s, from, d)
}

/// A full card-purchase match: head, amount of digit-run length `k`,
/// non-empty merchant segment, then ` Kurs: ` at `q` and a rate to the
/// end.
pub open spec fn card_match_at(s: Seq<char>, k: int, q: int) -> bool {
    &&& card_head_ok(s)
    &&& card_amount_at(s, k)
    &&& 16 + k + 4 < q
    &&& kurs_at(s, q)
    &&& rate_ok(s, q + 7)
}

/// Whether `s` is a card-purchase text.
pub open spec fn card_matches(s: Seq<char>) -> bool {
    exists|k: int, q: int| card_match_at(s, k, q)
}

/// The merchant segment of a card-purchase text; meaningful only when
/// [`card_matches`] holds (the match positions are unique).
pub open spec fn card_merchant(s: Seq<char>) -> Seq<char> {
    let (k, q) = choose|k: int, q: int| card_match_at(s, k, q);
    s.subrange(16 + k + 4, q)
}

/// The card rule: a card-purchase text collapses to its merchant
/// segment; any other text is kept.
pub open spec fn card_extract(s: Seq<char>) -> Seq<char> {
    if card_matches(s) {
        card_merchant(s)
    } else {
        s
    }
}

/// The amount's digit-run length is forced: the dot pins it.
proof fn lemma_card_amount_unique(s: Seq<char>, k1: int, k2: int)
    requires
        card_amount_at(s, k1),
        card_amount_at(s, k2),
    ensures
        k1 == k2,
{
    if k1 < k2 {
        assert(is_digit_char(s[16 + k1]));
    } else if k2 < k1 {
        assert(is_digit_char(s[16 + k2]));
    }
}

/// Only one position can start a ` Kurs: ` delimiter followed by a rate
/// running to the end of the text.
proof fn lemma_kurs_unique(s: Seq<char>, q1: int, q2: int)
    requires
        kurs_at(s, q1),
        rate_ok(s, q1 + 7),
        kurs_at(s, q2),
        rate_ok(s, q2 + 7),
    ensures
        q1 == q2,
{
    if q1 < q2 {
        let from1 = q1 + 7;
        let d = choose|d: int| rate_split_at(s, from1, d);
        if q2 >= q1 + 7 {
            // the later delimiter's space would sit inside the rate
            assert(s[q2] == ' ');
            if q2 < d {
                assert(is_digit_char(s[q2]));
            } else if q2 > d {
                assert(is_digit_char(s[q2]));
            }
            assert(false);
        } else {
            // overlapping delimiters disagree on some character
            let delta = q2 - q1;
            if delta == 6 {
                // the later delimiter's 'K' would open the earlier rate
                assert(s[q2 + 1] == 'K');
                assert(is_digit_char(s[q1 + 7]));
            } else {
                assert(s[q2] == ' ');
            }
            assert(false);
        }
    } else if q2 < q1 {
        let from2 = q2 + 7;
        let d = choose|d: int| rate_split_at(s, from2, d);
        if q1 >= q2 + 7 {
            assert(s[q1] == ' ');
            if q1 < d {
                assert(is_digit_char(s[q1]));
            } else if q1 > d {
                assert(is_digit_char(s[q1]));
            }
            assert(false);
        } else {
            let delta = q1 - q2;
            if delta == 6 {
                assert(s[q1 + 1] == 'K');
                assert(is_digit_char(s[q2 + 7]));
            } else {
                assert(s[q1] == ' ');
            }
            assert(false);
        }
    }
}

/// A card-purchase text matches at exactly one `(k, q)`.
proof fn lemma_card_match_unique(s: Seq<char>, k1: int, q1: int, k2: int, q2: int)
    requires
        card_match_at(s, k1, q1),
        card_match_at(s, k2, q2),
    ensures
        k1 == k2,
        q1 == q2,
{
    lemma_card_amount_unique(s, k1, k2);
    lemma_kurs_unique(s, q1, q2);
}

/// Advances over decimal digits, stopping at the first non-digit.
fn scan_digits(s: &str, from: usize) -> (i: usize)
    requires
        from <= s@.len(),
    ensures
        from <= i <= s@.len(),
        forall|t: int| from <= t < i ==> is_digit_char(s@[t]),
        i < s@.len() ==> !is_digit_char(s@[i as int]),
{
    let n = s.unicode_len();
    let mut i = from;
    loop
        invariant
            from <= i <= n == s@.len(),
            forall|t: int| from <= t < i ==> is_digit_char(s@[t]),
        ensures
            from <= i <= n,
            forall|t: int| from <= t < i ==> is_digit_char(s@[t]),
            i < n ==> !is_digit_char(s@[i as int]),
        decreases n - i,
    {
        if i < n {
            if digit_at(s, i) {
                i = i + 1;
            } else {
                break ;
            }
        } else {
            break ;
        }
    }
    i
}

/// Whether a rate (digits, a dot, digits) fills the text from `from` to
/// its end.
fn rate_ok_exec(s: &str, from: usize) -> (r: bool)
    requires
        from <= s@.len(),
    ensures
        r == rate_ok(s@, from as int),
{
    let n = s.unicode_len();
    let i = scan_digits(s, from);
    if i == from || i == n || char_at(s, i) != '.' {
        proof {
            if rate_ok(s@, from as int) {
                let d = choose|d: int| rate_split_at(s@, from as int, d);
                // the dot must sit exactly where the digit run stops
                if d < i {
                    assert(is_digit_char(s@[d]));
                } else if d > i {
                    assert(i < s@.len());
                    assert(is_digit_char(s@[i as int]));
                }
                assert(false);
            }
        }
        return false;
    }
    let j = scan_digits(s, i + 1);
    if j == i + 1 || j < n {
        proof {
            if rate_ok(s@, from as int) {
                let d = choose|d: int| rate_split_at(s@, from as int, d);
                if d < i {
                    assert(is_digit_char(s@[d]));
                } else if d > i {
                    assert(is_digit_char(s@[i as int]));
                }
                assert(d == i);
                if j == i + 1 {
                    assert(is_digit_char(s@[i + 1]));
                } else {
                    assert(is_digit_char(s@[j as int]));
                }
                assert(false);
            }
        }
        return false;
    }
    proof {
        assert(rate_split_at(s@, from as int, i as int));
    }
    true
}

/// Whether the seven characters at `q` read ` Kurs: `.
fn kurs_at_exec(s: &str, q: usize) -> (r: bool)
    requires
        q + 7 <= s@.len(),
        s@.len() <= usize::MAX,
    ensures
        r == kurs_at(s@, q as int),
{
    char_at(s, q) == ' ' && char_at(s, q + 1) == 'K' && char_at(s, q + 2) == 'u' && char_at(
        s,
        q + 3,
    ) == 'r' && char_at(s, q + 4) == 's' && char_at(s, q + 5) == ':' && char_at(s, q + 6) == ' '
}

/// Collapses a card-purchase text to its merchant segment; any other
/// text is kept.
fn card_extract_exec<'a>(s: &'a str) -> (r: &'a str)
    ensures
        r@ == card_extract(s@),
{
    let n = s.unicode_len();
    let head_ok = n >= 16 && char_at(s, 0) == '*' && digit_at(s, 1) && digit_at(s, 2) && digit_at(
        s,
        3,
    ) && digit_at(s, 4) && char_at(s, 5) == ' ' && digit_at(s, 6) && digit_at(s, 7) && char_at(
        s,
        8,
    ) == '.' && digit_at(s, 9) && digit_at(s, 10) && char_at(s, 11) == ' ' && word_at(s, 12)
        && word_at(s, 13) && word_at(s, 14) && char_at(s, 15) == ' ';
    if !head_ok {
        proof {
            assert(!card_head_ok(s@));
        }
        return s;
    }
    let i = scan_digits(s, 16);
    let k = i - 16;
    if k < 1 || i > n - 4 || char_at(s, i) != '.' || !digit_at(s, i + 1) || !digit_at(s, i + 2)
        || char_at(s, i + 3) != ' ' {
        proof {
            if card_matches(s@) {
                let (k2, q2) = choose|k2: int, q2: int| card_match_at(s@, k2, q2);
                // the digit run the amount uses is the one scanned
                if k2 < k as int {
                    assert(is_digit_char(s@[16 + k2]));
                } else if k2 > k as int {
                    assert(i < s@.len());
                    assert(is_digit_char(s@[i as int]));
                }
                assert(k2 == k as int);
                assert(false);
            }
        }
        return s;
    }
    let m0 = i + 4;
    if m0 >= n - 7 {
        proof {
            if card_matches(s@) {
                let (k2, q2) = choose|k2: int, q2: int| card_match_at(s@, k2, q2);
                if k2 < k as int {
                    assert(is_digit_char(s@[16 + k2]));
                } else if k2 > k as int {
                    assert(is_digit_char(s@[i as int]));
                }
                assert(k2 == k as int);
                assert(false);
            }
        }
        return s;
    }
    let mut q = m0 + 1;
    loop
        invariant
            m0 + 1 <= q,
            n == s@.len(),
            n >= 16,
            card_head_ok(s@),
            card_amount_at(s@, k as int),
            m0 as int == 16 + k as int + 4,
            forall|q2: int|
                m0 + 1 <= q2 < q && q2 + 7 <= n ==> !(kurs_at(s@, q2) && rate_ok(s@, q2 + 7)),
        ensures
            q > n - 7,
            forall|q2: int|
                m0 + 1 <= q2 < q && q2 + 7 <= n ==> !(kurs_at(s@, q2) && rate_ok(s@, q2 + 7)),
        decreases n - q,
    {
        if q <= n - 7 {
            if kurs_at_exec(s, q) {
                if rate_ok_exec(s, q + 7) {
                    let r = s.substring_char(m0, q);
                    proof {
                        assert(card_match_at(s@, k as int, q as int));
                        assert(card_matches(s@));
                        let (k2, q2) = choose|k2: int, q2: int| card_match_at(s@, k2, q2);
                        lemma_card_match_unique(s@, k as int, q as int, k2, q2);
                        assert(r@ =~= card_merchant(s@));
                    }
                    return r;
                }
            }
            q = q + 1;
        } else {
            break ;
        }
    }
    proof {
        if card_matches(s@) {
            let (k2, q2) = choose|k2: int, q2: int| card_match_at(s@, k2, q2);
            if k2 < k as int {
                assert(is_digit_char(s@[16 + k2]));
            } else if k2 > k as int {
                assert(is_digit_char(s@[i as int]));
            }
            assert(k2 == k as int);
            assert(m0 + 1 <= q2 && q2 + 7 <= n);
            assert(false);
        }
    }
    s
}

/// Whether the character at `i` is a word character.
fn word_at(s: &str, i: usize) -> (r: bool)
    requires
        i < s@.len(),
    ensures
        r == is_word_char(s@[i as int]),
{
    let v = s.get_char(i) as u32;
    (48 <= v && v <= 57) || (65 <= v && v <= 90) || (97 <= v && v <= 122) || v == 95
}

/// The whole normalizer pipeline: date prefix, pay-date suffix, labels,
/// card pattern, known merchants, trim — in that order.
pub open spec fn normalize_spec(s: Seq<char>) -> Seq<char> {
    trim_spec(
        apply_merchants(
            card_extract(strip_fra(strip_til(strip_pay_suffix(strip_date_prefix(s))))),
        ),
    )
}

/// Cleans one raw transaction text for use as a counterparty name.
pub fn normalize(text: &str) -> (r: String)
    ensures
        r@ == normalize_spec(text@),
{
    let s1 = strip_date_prefix_exec(text);
    let s2 = strip_pay_suffix_exec(s1);
    let s3 = strip_labels_exec(s2);
    let s4 = card_extract_exec(s3);
    let s5 = apply_merchants_exec(s4);
    let s6 = trim_exec(s5);
    String::from_str(s6)
}

/// A text none of the normalizer's rules can change: no date prefix, no
/// pay-date suffix, no label, no card pattern, no merchant prefix it is
/// not already the canonical name of, and no surrounding whitespace.
pub open spec fn is_settled(s: Seq<char>) -> bool {
    &&& !has_date_prefix(s)
    &&& !has_pay_suffix(s)
    &&& !has_til_prefix(s)
    &&& !has_fra_prefix(s)
    &&& !card_matches(s)
    &&& apply_merchants(s) == s
    &&& trim_spec(s) == s
}

/// A settled text is a fixed point of the normalizer.
pub proof fn lemma_settled_fixed(s: Seq<char>)
    requires
        is_settled(s),
    ensures
        normalize_spec(s) == s,
{
    assert(strip_til(s) == s);
    assert(strip_fra(s) == s);
}

/// Normalizer idempotence: whenever a first pass produces a settled
/// text, a second pass returns it unchanged. (A pass can produce an
/// unsettled text — a stripped prefix can uncover another — so the
/// restriction is needed.)
pub proof fn lemma_normalize_idempotent(x: Seq<char>)
    requires
        is_settled(normalize_spec(x)),
    ensures
        normalize_spec(normalize_spec(x)) == normalize_spec(x),
{
    lemma_settled_fixed(normalize_spec(x));
}

} // verus!
