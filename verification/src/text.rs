//! Byte-string helpers: trimming, tokenizing, matching and integer /
//! fixed-point decimal parsing over UTF-8 byte sequences.

use vstd::prelude::*;

verus! {

/// ASCII whitespace, the separator set used by every line parser.
pub open spec fn is_ws(b: u8) -> bool {
    b == 32u8 || b == 9u8 || b == 10u8 || b == 13u8
}

pub open spec fn is_digit(b: u8) -> bool {
    48u8 <= b <= 57u8
}

pub open spec fn all_digits(s: Seq<u8>) -> bool {
    forall|i: int| 0 <= i < s.len() ==> is_digit(#[trigger] s[i])
}

/// Numeric value of a sequence of ASCII digits, most significant first.
pub open spec fn digits_val(s: Seq<u8>) -> nat
    decreases s.len(),
{
    if s.len() == 0 {
        0
    } else {
        digits_val(s.drop_last()) * 10 + (s.last() - 48u8) as nat
    }
}

pub open spec fn pow10(k: nat) -> nat
    decreases k,
{
    if k == 0 {
        1
    } else {
        10 * pow10((k - 1) as nat)
    }
}

pub proof fn lemma_digits_val_bound(s: Seq<u8>)
    requires
        all_digits(s),
    ensures
        digits_val(s) < pow10(s.len()),
    decreases s.len(),
{
    if s.len() > 0 {
        assert(all_digits(s.drop_last())) by {
            assert(forall|i: int|
                0 <= i < s.len() - 1 ==> s.drop_last()[i] == #[trigger] s[i]);
        }
        lemma_digits_val_bound(s.drop_last());
        assert(is_digit(s.last()));
        let p = pow10((s.len() - 1) as nat);
        assert(pow10(s.len()) == 10 * p);
        assert(digits_val(s.drop_last()) <= p - 1);
        assert(digits_val(s.drop_last()) * 10 <= (p - 1) * 10);
    }
}

fn is_ws_exec(b: u8) -> (r: bool)
    ensures
        r == is_ws(b),
{
    b == 32 || b == 9 || b == 10 || b == 13
}

fn is_digit_exec(b: u8) -> (r: bool)
    ensures
        r == is_digit(b),
{
    48 <= b && b <= 57
}

/// Copy of `s[i..j]` as an owned vector.
pub fn subrange_vec(s: &[u8], i: usize, j: usize) -> (r: Vec<u8>)
    requires
        0 <= i <= j <= s@.len(),
    ensures
        r@ == s@.subrange(i as int, j as int),
{
    let mut r: Vec<u8> = Vec::new();
    let mut k: usize = i;
    while k < j
        invariant
            i <= k <= j <= s@.len(),
            r@ == s@.subrange(i as int, k as int),
        decreases j - k,
    {
        r.push(s[k]);
        k = k + 1;
        proof {
            assert(s@.subrange(i as int, k as int) =~= s@.subrange(i as int, k - 1).push(
                s@[k - 1],
            ));
        }
    }
    r
}

pub fn bytes_eq(a: &[u8], b: &[u8]) -> (r: bool)
    ensures
        r == (a@ == b@),
{
    if a.len() != b.len() {
        proof {
            assert(a@ != b@);
        }
        return false;
    }
    let mut k: usize = 0;
    while k < a.len()
        invariant
            0 <= k <= a@.len(),
            a@.len() == b@.len(),
            forall|i: int| 0 <= i < k ==> a@[i] == b@[i],
        decreases a@.len() - k,
    {
        if a[k] != b[k] {
            proof {
                assert(a@ != b@);
            }
            return false;
        }
        k = k + 1;
    }
    proof {
        assert(a@ =~= b@);
    }
    true
}

pub open spec fn starts_with(s: Seq<u8>, p: Seq<u8>) -> bool {
    s.len() >= p.len() && s.subrange(0, p.len() as int) == p
}

pub open spec fn ends_with(s: Seq<u8>, p: Seq<u8>) -> bool {
    s.len() >= p.len() && s.subrange(s.len() - p.len(), s.len() as int) == p
}

pub fn starts_with_exec(s: &[u8], p: &[u8]) -> (r: bool)
    ensures
        r == starts_with(s@, p@),
{
    if s.len() < p.len() {
        return false;
    }
    let head = subrange_vec(s, 0, p.len());
    bytes_eq(head.as_slice(), p)
}

pub fn ends_with_exec(s: &[u8], p: &[u8]) -> (r: bool)
    ensures
        r == ends_with(s@, p@),
{
    if s.len() < p.len() {
        return false;
    }
    let tail = subrange_vec(s, s.len() - p.len(), s.len());
    bytes_eq(tail.as_slice(), p)
}

/// Index of the first byte of `s` from `i` on that is not whitespace.
fn skip_ws(s: &[u8], i: usize) -> (r: usize)
    requires
        i <= s@.len(),
    ensures
        i <= r <= s@.len(),
        forall|k: int| i <= k < r ==> is_ws(s@[k]),
        r < s@.len() ==> !is_ws(s@[r as int]),
    decreases s@.len() - i,
{
    let mut k: usize = i;
    while k < s.len() && is_ws_exec(s[k])
        invariant
            i <= k <= s@.len(),
            forall|j: int| i <= j < k ==> is_ws(s@[j]),
        decreases s@.len() - k,
    {
        k = k + 1;
    }
    k
}

/// The leading trimmed result: `s` with whitespace removed at both ends.
pub open spec fn trimmed(s: Seq<u8>) -> Seq<u8> {
    trim_back(trim_front(s))
}

pub open spec fn trim_front(s: Seq<u8>) -> Seq<u8>
    decreases s.len(),
{
    if s.len() > 0 && is_ws(s[0]) {
        trim_front(s.drop_first())
    } else {
        s
    }
}

pub open spec fn trim_back(s: Seq<u8>) -> Seq<u8>
    decreases s.len(),
{
    if s.len() > 0 && is_ws(s.last()) {
        trim_back(s.drop_last())
    } else {
        s
    }
}

proof fn lemma_trim_front_range(s: Seq<u8>, i: int)
    requires
        0 <= i <= s.len(),
        forall|k: int| 0 <= k < i ==> is_ws(s[k]),
        i == s.len() || !is_ws(s[i]),
    ensures
        trim_front(s) =~= s.subrange(i, s.len() as int),
    decreases i,
{
    if i > 0 {
        lemma_trim_front_range(s.drop_first(), i - 1);
        assert(s.drop_first().subrange(i - 1, s.drop_first().len() as int) =~= s.subrange(
            i,
            s.len() as int,
        ));
    } else {
        assert(s.subrange(0, s.len() as int) =~= s);
    }
}

proof fn lemma_trim_back_range(s: Seq<u8>, j: int)
    requires
        0 <= j <= s.len(),
        forall|k: int| j <= k < s.len() ==> is_ws(s[k]),
        j == 0 || !is_ws(s[j - 1]),
    ensures
        trim_back(s) =~= s.subrange(0, j),
    decreases s.len() - j,
{
    if j < s.len() {
        lemma_trim_back_range(s.drop_last(), j);
        assert(s.drop_last().subrange(0, j) =~= s.subrange(0, j));
    } else {
        assert(s.subrange(0, s.len() as int) =~= s);
    }
}

pub fn trim_exec(s: &[u8]) -> (r: Vec<u8>)
    ensures
        r@ == trimmed(s@),
{
    let a = skip_ws(s, 0);
    let mut b: usize = s.len();
    while b > a && is_ws_exec(s[b - 1])
        invariant
            a <= b <= s@.len(),
            forall|k: int| b <= k < s@.len() ==> is_ws(s@[k]),
            forall|k: int| 0 <= k < a ==> is_ws(s@[k]),
            a < s@.len() ==> !is_ws(s@[a as int]),
        decreases b,
    {
        b = b - 1;
    }
    proof {
        if a == s@.len() {
            lemma_trim_front_range(s@, a as int);
            assert(b == a);
            lemma_trim_back_range(trim_front(s@), 0);
        } else {
            lemma_trim_front_range(s@, a as int);
            let t = s@.subrange(a as int, s@.len() as int);
            if b == a {
                lemma_trim_back_range(t, 0);
            } else {
                lemma_trim_back_range(t, b - a);
            }
            assert(t.subrange(0, b - a) =~= s@.subrange(a as int, b as int));
        }
    }
    subrange_vec(s, a, b)
}

/// The longest run of non-whitespace bytes at the head of `s`.
pub open spec fn token_prefix(s: Seq<u8>) -> Seq<u8>
    decreases s.len(),
{
    if s.len() == 0 || is_ws(s[0]) {
        Seq::empty()
    } else {
        seq![s[0]] + token_prefix(s.drop_first())
    }
}

pub proof fn lemma_token_prefix_len(s: Seq<u8>)
    ensures
        token_prefix(s).len() <= s.len(),
        s.len() > 0 && !is_ws(s[0]) ==> token_prefix(s).len() >= 1,
    decreases s.len(),
{
    if s.len() > 0 && !is_ws(s[0]) {
        lemma_token_prefix_len(s.drop_first());
    }
}

/// `s` split on runs of whitespace, in order, without empty tokens.
pub open spec fn tokens_of(s: Seq<u8>) -> Seq<Seq<u8>>
    decreases s.len(),
    via tokens_of_dec
{
    if s.len() == 0 {
        Seq::<Seq<u8>>::empty()
    } else if is_ws(s[0]) {
        tokens_of(s.drop_first())
    } else {
        seq![token_prefix(s)] + tokens_of(s.skip(token_prefix(s).len() as int))
    }
}

#[via_fn]
proof fn tokens_of_dec(s: Seq<u8>) {
    if s.len() > 0 && !is_ws(s[0]) {
        lemma_token_prefix_len(s);
    }
}

pub proof fn lemma_token_prefix_range(s: Seq<u8>, i: int, j: int)
    requires
        0 <= i <= j <= s.len(),
        forall|k: int| i <= k < j ==> !is_ws(s[k]),
        j == s.len() || is_ws(s[j]),
        i < j,
    ensures
        token_prefix(s.skip(i)) =~= s.subrange(i, j),
    decreases j - i,
{
    let t = s.skip(i);
    assert(t[0] == s[i]);
    if i + 1 < j {
        lemma_token_prefix_range(s, i + 1, j);
        assert(t.drop_first() =~= s.skip(i + 1));
        assert(seq![s[i]] + s.subrange(i + 1, j) =~= s.subrange(i, j));
    } else {
        assert(t.drop_first() =~= s.skip(i + 1));
        if j < s.len() {
            assert(is_ws(s.skip(i + 1)[0]));
        }
        assert(token_prefix(s.skip(i + 1)) =~= Seq::<u8>::empty());
        assert(seq![s[i]] + Seq::<u8>::empty() =~= s.subrange(i, j));
    }
}

proof fn lemma_tokens_skip_ws(s: Seq<u8>, i: int, r: int)
    requires
        0 <= i <= r <= s.len(),
        forall|k: int| i <= k < r ==> is_ws(s[k]),
    ensures
        tokens_of(s.skip(i)) == tokens_of(s.skip(r)),
    decreases r - i,
{
    if i < r {
        assert(is_ws(s.skip(i)[0]));
        assert(s.skip(i).drop_first() =~= s.skip(i + 1));
        lemma_tokens_skip_ws(s, i + 1, r);
    }
}

/// Pairwise equality between a vector of byte vectors and a sequence of
/// byte sequences.
pub open spec fn views_match(v: Seq<Vec<u8>>, s: Seq<Seq<u8>>) -> bool {
    v.len() == s.len() && forall|i: int| 0 <= i < v.len() ==> #[trigger] v[i]@ == s[i]
}

pub fn tokenize(s: &[u8]) -> (r: Vec<Vec<u8>>)
    ensures
        views_match(r@, tokens_of(s@)),
{
    let ghost toks = tokens_of(s@);
    let mut r: Vec<Vec<u8>> = Vec::new();
    let mut i: usize = 0;
    proof {
        assert(s@.skip(0) =~= s@);
        assert(toks.skip(0) =~= toks);
    }
    while i < s.len()
        invariant
            0 <= i <= s@.len(),
            r@.len() <= toks.len(),
            toks == tokens_of(s@),
            views_match(r@, toks.subrange(0, r@.len() as int)),
            tokens_of(s@.skip(i as int)) == toks.skip(r@.len() as int),
        decreases s@.len() - i,
    {
        let a = skip_ws(s, i);
        proof {
            lemma_tokens_skip_ws(s@, i as int, a as int);
        }
        if a == s.len() {
            proof {
                assert(s@.skip(a as int) =~= Seq::<u8>::empty());
            }
            i = a;
        } else {
            let mut j: usize = a;
            while j < s.len() && !is_ws_exec(s[j])
                invariant
                    a <= j <= s@.len(),
                    forall|k: int| a <= k < j ==> !is_ws(s@[k]),
                decreases s@.len() - j,
            {
                j = j + 1;
            }
            let t = subrange_vec(s, a, j);
            let ghost n = r@.len() as int;
            proof {
                lemma_token_prefix_range(s@, a as int, j as int);
                let rest = s@.skip(a as int);
                assert(!is_ws(rest[0]));
                assert(tokens_of(rest) == seq![token_prefix(rest)] + tokens_of(
                    rest.skip(token_prefix(rest).len() as int),
                ));
                assert(rest.skip(j - a) =~= s@.skip(j as int));
                // the token at position n of toks is t@, and the rest shifts by one
                let x = tokens_of(s@.skip(j as int));
                assert(toks.skip(n) == seq![t@] + x);
                assert(toks.skip(n).len() >= 1);
                assert(n + 1 <= toks.len());
                assert(toks.skip(n)[0] == t@);
                assert(toks[n] == t@);
                assert(toks.skip(n).skip(1) =~= toks.skip(n + 1));
                assert((seq![t@] + x).skip(1) =~= x);
            }
            r.push(t);
            proof {
                assert(toks.subrange(0, n + 1) =~= toks.subrange(0, n).push(toks[n]));
            }
            i = j;
        }
    }
    proof {
        assert(s@.skip(i as int) =~= Seq::<u8>::empty());
        assert(toks.skip(r@.len() as int) =~= Seq::<Seq<u8>>::empty());
        assert(toks.subrange(0, r@.len() as int) =~= toks);
    }
    r
}

// ---------------------------------------------------------------------------
// integer and fixed-point decimal parsing
// ---------------------------------------------------------------------------
pub open spec fn strip_zeros(s: Seq<u8>) -> Seq<u8>
    decreases s.len(),
{
    if s.len() > 0 && s[0] == 48u8 {
        strip_zeros(s.drop_first())
    } else {
        s
    }
}

proof fn lemma_drop_leading_zero(s: Seq<u8>)
    requires
        s.len() > 0,
        s[0] == 48u8,
    ensures
        digits_val(s) == digits_val(s.drop_first()),
    decreases s.len(),
{
    if s.len() == 1 {
        assert(s.drop_first() =~= Seq::<u8>::empty());
    } else {
        assert(s.drop_last().len() > 0 && s.drop_last()[0] == 48u8);
        lemma_drop_leading_zero(s.drop_last());
        assert(s.drop_last().drop_first() =~= s.drop_first().drop_last());
        assert(s.drop_first().len() > 0);
        assert(s.drop_first().last() == s.last());
        assert(digits_val(s) == digits_val(s.drop_last()) * 10 + (s.last() - 48u8) as nat);
        assert(digits_val(s.drop_first()) == digits_val(s.drop_first().drop_last()) * 10 + (
        s.drop_first().last() - 48u8) as nat);
    }
}

pub proof fn lemma_strip_zeros_val(s: Seq<u8>)
    ensures
        digits_val(strip_zeros(s)) == digits_val(s),
        strip_zeros(s).len() <= s.len(),
    decreases s.len(),
{
    if s.len() > 0 && s[0] == 48u8 {
        lemma_drop_leading_zero(s);
        lemma_strip_zeros_val(s.drop_first());
    }
}

pub proof fn lemma_strip_zeros_digits(s: Seq<u8>)
    requires
        all_digits(s),
    ensures
        all_digits(strip_zeros(s)),
    decreases s.len(),
{
    if s.len() > 0 && s[0] == 48u8 {
        assert(forall|i: int|
            0 <= i < s.len() - 1 ==> s.drop_first()[i] == #[trigger] s[i + 1]);
        lemma_strip_zeros_digits(s.drop_first());
    }
}

/// The value of an all-digit byte string, as `u64`; `None` when the string
/// is empty, holds a non-digit, or (ignoring leading zeros) has more than
/// 19 digits and so may not fit.
pub open spec fn u64_of_digits(s: Seq<u8>) -> Option<u64> {
    if s.len() > 0 && all_digits(s) && strip_zeros(s).len() <= 19 {
        Some(digits_val(s) as u64)
    } else {
        None
    }
}

proof fn lemma_pow10_19()
    ensures
        pow10(19) == 10_000_000_000_000_000_000,
{
    reveal_with_fuel(pow10, 20);
}

pub fn parse_u64(s: &[u8]) -> (r: Option<u64>)
    ensures
        r == u64_of_digits(s@),
{
    if s.len() == 0 {
        return None;
    }
    let mut k: usize = 0;
    while k < s.len()
        invariant
            0 <= k <= s@.len(),
            forall|i: int| 0 <= i < k ==> is_digit(#[trigger] s@[i]),
        decreases s@.len() - k,
    {
        if !is_digit_exec(s[k]) {
            proof {
                assert(!all_digits(s@));
            }
            return None;
        }
        k = k + 1;
    }
    assert(all_digits(s@));
    // skip leading zeros
    let mut a: usize = 0;
    while a < s.len() && s[a] == 48
        invariant
            0 <= a <= s@.len(),
            forall|i: int| 0 <= i < a ==> s@[i] == 48u8,
        decreases s@.len() - a,
    {
        a = a + 1;
    }
    proof {
        lemma_strip_range(s@, a as int);
        lemma_strip_zeros_val(s@);
        lemma_strip_zeros_digits(s@);
    }
    if s.len() - a > 19 {
        return None;
    }
    // evaluate the stripped digits
    let ghost stripped = s@.subrange(a as int, s@.len() as int);
    let mut acc: u64 = 0;
    let mut i: usize = a;
    proof {
        assert(stripped.subrange(0, 0) =~= Seq::<u8>::empty());
        lemma_pow10_19();
    }
    while i < s.len()
        invariant
            a <= i <= s@.len(),
            s@.len() - a <= 19,
            stripped == s@.subrange(a as int, s@.len() as int),
            all_digits(s@),
            acc == digits_val(stripped.subrange(0, i - a)),
            pow10(19) == 10_000_000_000_000_000_000,
        decreases s@.len() - i,
    {
        let ghost pre = stripped.subrange(0, i - a);
        proof {
            assert(all_digits(pre));
            lemma_digits_val_bound(pre);
            lemma_pow10_le(pre.len(), 18);
            reveal_with_fuel(pow10, 20);
            assert(stripped.subrange(0, i + 1 - a).drop_last() =~= pre);
            assert(stripped.subrange(0, i + 1 - a).last() == s@[i as int]);
        }
        let d = s[i] - 48;
        acc = acc * 10 + (d as u64);
        i = i + 1;
    }
    proof {
        assert(stripped.subrange(0, s@.len() - a) =~= stripped);
        assert(digits_val(stripped) == digits_val(s@));
        lemma_digits_val_bound(stripped);
        lemma_pow10_le(stripped.len(), 19);
    }
    Some(acc)
}

proof fn lemma_strip_range(s: Seq<u8>, a: int)
    requires
        0 <= a <= s.len(),
        forall|i: int| 0 <= i < a ==> s[i] == 48u8,
        a == s.len() || s[a] != 48u8,
    ensures
        strip_zeros(s) =~= s.subrange(a, s.len() as int),
    decreases a,
{
    if a > 0 {
        lemma_strip_range(s.drop_first(), a - 1);
        assert(s.drop_first().subrange(a - 1, s.drop_first().len() as int) =~= s.subrange(
            a,
            s.len() as int,
        ));
    } else {
        assert(s.subrange(0, s.len() as int) =~= s);
    }
}

proof fn lemma_pow10_le(a: nat, b: nat)
    requires
        a <= b,
    ensures
        pow10(a) <= pow10(b),
    decreases b,
{
    if a < b {
        lemma_pow10_le(a, (b - 1) as nat);
    }
}

/// A signed integer: an optional `+`/`-` sign followed by digits, rejected
/// when the magnitude does not fit in `i64`.
pub open spec fn i64_of_ascii(s: Seq<u8>) -> Option<i64> {
    let neg = s.len() > 0 && s[0] == 45u8;
    let body = if s.len() > 0 && (s[0] == 45u8 || s[0] == 43u8) {
        s.drop_first()
    } else {
        s
    };
    match u64_of_digits(body) {
        Option::None => Option::None,
        Option::Some(m) => if m <= i64::MAX as u64 {
            Option::Some(if neg { (-(m as i64)) as i64 } else { m as i64 })
        } else {
            Option::None
        },
    }
}

pub fn parse_i64(s: &[u8]) -> (r: Option<i64>)
    ensures
        r == i64_of_ascii(s@),
{
    let neg = s.len() > 0 && s[0] == 45;
    let a: usize = if s.len() > 0 && (s[0] == 45 || s[0] == 43) {
        1
    } else {
        0
    };
    let body = subrange_vec(s, a, s.len());
    proof {
        if a == 1 {
            assert(body@ =~= s@.drop_first());
        } else {
            assert(body@ =~= s@);
        }
    }
    match parse_u64(body.as_slice()) {
        Option::None => None,
        Option::Some(m) => {
            if m <= i64::MAX as u64 {
                if neg {
                    Some(-(m as i64))
                } else {
                    Some(m as i64)
                }
            } else {
                None
            }
        },
    }
}

pub open spec fn zeros(n: nat) -> Seq<u8> {
    Seq::new(n, |i: int| 48u8)
}

/// First index at which byte `b` occurs in `s`.
pub open spec fn find_byte(s: Seq<u8>, b: u8) -> Option<int>
    decreases s.len(),
{
    if s.len() == 0 {
        Option::None
    } else if s[0] == b {
        Option::Some(0)
    } else {
        match find_byte(s.drop_first(), b) {
            Option::None => Option::None,
            Option::Some(i) => Option::Some(i + 1),
        }
    }
}

proof fn lemma_find_byte_at(s: Seq<u8>, b: u8, i: int)
    requires
        0 <= i <= s.len(),
        forall|k: int| 0 <= k < i ==> s[k] != b,
        i == s.len() || s[i] == b,
    ensures
        i < s.len() ==> find_byte(s, b) == Option::Some(i),
        i == s.len() ==> find_byte(s, b) is None,
    decreases s.len(),
{
    if s.len() > 0 && s[0] != b {
        lemma_find_byte_at(s.drop_first(), b, i - 1);
    }
}

pub fn find_byte_exec(s: &[u8], b: u8) -> (r: Option<usize>)
    ensures
        match r {
            Option::Some(i) => find_byte(s@, b) == Option::Some(i as int) && i < s@.len()
                && s@[i as int] == b,
            Option::None => find_byte(s@, b) is None,
        },
{
    let mut i: usize = 0;
    while i < s.len()
        invariant
            0 <= i <= s@.len(),
            forall|k: int| 0 <= k < i ==> s@[k] != b,
        decreases s@.len() - i,
    {
        if s[i] == b {
            proof {
                lemma_find_byte_at(s@, b, i as int);
            }
            return Some(i);
        }
        i = i + 1;
    }
    proof {
        lemma_find_byte_at(s@, b, i as int);
    }
    None
}

/// The fixed-point value of a decimal literal, scaled by `10^k`: an
/// optional sign, integer digits, an optional fraction; fraction digits
/// beyond the `k`-th are dropped.
pub open spec fn scaled_of(s: Seq<u8>, k: nat) -> Option<i64> {
    let neg = s.len() > 0 && s[0] == 45u8;
    let body = if s.len() > 0 && (s[0] == 45u8 || s[0] == 43u8) {
        s.drop_first()
    } else {
        s
    };
    let ip = match find_byte(body, 46u8) {
        Option::Some(d) => body.subrange(0, d),
        Option::None => body,
    };
    let fp = match find_byte(body, 46u8) {
        Option::Some(d) => body.subrange(d + 1, body.len() as int),
        Option::None => Seq::<u8>::empty(),
    };
    if ip.len() + fp.len() == 0 || !all_digits(ip) || !all_digits(fp) {
        Option::None
    } else {
        let frac_k = if fp.len() >= k {
            fp.subrange(0, k as int)
        } else {
            fp + zeros((k - fp.len()) as nat)
        };
        match u64_of_digits(ip + frac_k) {
            Option::None => Option::None,
            Option::Some(m) => if m <= i64::MAX as u64 {
                Option::Some(if neg { (-(m as i64)) as i64 } else { m as i64 })
            } else {
                Option::None
            },
        }
    }
}

pub fn parse_scaled(s: &[u8], k: usize) -> (r: Option<i64>)
    requires
        k <= 9,
    ensures
        r == scaled_of(s@, k as nat),
{
    let neg = s.len() > 0 && s[0] == 45;
    let a: usize = if s.len() > 0 && (s[0] == 45 || s[0] == 43) {
        1
    } else {
        0
    };
    let body = subrange_vec(s, a, s.len());
    proof {
        if a == 1 {
            assert(body@ =~= s@.drop_first());
        } else {
            assert(body@ =~= s@);
        }
    }
    let (ip, fp) = match find_byte_exec(body.as_slice(), 46) {
        Option::Some(d) => {
            let ip = subrange_vec(body.as_slice(), 0, d);
            let fp = subrange_vec(body.as_slice(), d + 1, body.len());
            (ip, fp)
        },
        Option::None => (body, Vec::new()),
    };
    if ip.len() == 0 && fp.len() == 0 {
        return None;
    }
    if !all_digits_exec(ip.as_slice()) || !all_digits_exec(fp.as_slice()) {
        return None;
    }
    // assemble the magnitude digit string: integer digits then k fraction digits
    let ghost ip0 = ip@;
    let ghost frac_k = if fp@.len() >= k as nat {
        fp@.subrange(0, k as int)
    } else {
        fp@ + zeros((k as nat - fp@.len()) as nat)
    };
    proof {
        assert(frac_k.len() == k as nat);
        assert(ip0 + frac_k.subrange(0, 0) =~= ip0);
    }
    let mut mag = ip;
    let mut j: usize = 0;
    while j < k
        invariant
            0 <= j <= k,
            k <= 9,
            frac_k.len() == k as nat,
            frac_k == (if fp@.len() >= k as nat {
                fp@.subrange(0, k as int)
            } else {
                fp@ + zeros((k as nat - fp@.len()) as nat)
            }),
            mag@ == ip0 + frac_k.subrange(0, j as int),
        decreases k - j,
    {
        proof {
            assert(frac_k[j as int] == (if (j as nat) < fp@.len() {
                fp@[j as int]
            } else {
                48u8
            }));
            assert(ip0 + frac_k.subrange(0, j + 1) =~= (ip0 + frac_k.subrange(0, j as int)).push(
                frac_k[j as int],
            ));
        }
        if j < fp.len() {
            let b = fp[j];
            mag.push(b);
        } else {
            mag.push(48);
        }
        j = j + 1;
    }
    proof {
        assert(frac_k.subrange(0, k as int) =~= frac_k);
        assert(mag@ == ip0 + frac_k);
    }
    match parse_u64(mag.as_slice()) {
        Option::None => None,
        Option::Some(m) => {
            if m <= i64::MAX as u64 {
                if neg {
                    Some(-(m as i64))
                } else {
                    Some(m as i64)
                }
            } else {
                None
            }
        },
    }
}

pub fn all_digits_exec(s: &[u8]) -> (r: bool)
    ensures
        r == all_digits(s@),
{
    let mut k: usize = 0;
    while k < s.len()
        invariant
            0 <= k <= s@.len(),
            forall|i: int| 0 <= i < k ==> is_digit(#[trigger] s@[i]),
        decreases s@.len() - k,
    {
        if !is_digit_exec(s[k]) {
            proof {
                assert(!all_digits(s@));
            }
            return false;
        }
        k = k + 1;
    }
    true
}

// ---------------------------------------------------------------------------
// decimal rendering
// ---------------------------------------------------------------------------
/// Decimal digit expansion of `n`, most significant first, no leading zeros.
pub open spec fn dec_digits(n: nat) -> Seq<u8>
    decreases n,
{
    if n < 10 {
        seq![(48 + n) as u8]
    } else {
        dec_digits(n / 10) + seq![(48 + n % 10) as u8]
    }
}

/// `dec_digits(n)` left-padded with `0` up to `w` bytes.
pub open spec fn dec_padded(n: nat, w: nat) -> Seq<u8> {
    if dec_digits(n).len() >= w {
        dec_digits(n)
    } else {
        zeros((w - dec_digits(n).len()) as nat) + dec_digits(n)
    }
}

pub fn render_u64(n: u64) -> (r: Vec<u8>)
    ensures
        r@ == dec_digits(n as nat),
    decreases n,
{
    if n < 10 {
        let mut r: Vec<u8> = Vec::new();
        r.push(48 + (n as u8));
        proof {
            assert(r@ =~= dec_digits(n as nat));
        }
        r
    } else {
        let mut r = render_u64(n / 10);
        r.push(48 + ((n % 10) as u8));
        proof {
            assert(r@ =~= dec_digits((n / 10) as nat).push((48 + n % 10) as u8));
            assert(dec_digits(n as nat) =~= dec_digits((n / 10) as nat) + seq![
                (48 + n % 10) as u8,
            ]);
        }
        r
    }
}

pub fn render_padded(n: u64, w: usize) -> (r: Vec<u8>)
    requires
        w <= 8,
    ensures
        r@ == dec_padded(n as nat, w as nat),
{
    let digits = render_u64(n);
    if digits.len() >= w {
        proof {
            assert(dec_padded(n as nat, w as nat) == dec_digits(n as nat));
        }
        return digits;
    }
    let mut r: Vec<u8> = Vec::new();
    let mut j: usize = 0;
    let pad = w - digits.len();
    while j < pad
        invariant
            0 <= j <= pad,
            pad == w - dec_digits(n as nat).len(),
            digits@ == dec_digits(n as nat),
            r@ =~= zeros(j as nat),
        decreases pad - j,
    {
        r.push(48);
        proof {
            assert(r@ =~= zeros((j + 1) as nat));
        }
        j = j + 1;
    }
    let mut i: usize = 0;
    while i < digits.len()
        invariant
            0 <= i <= digits@.len(),
            digits@ == dec_digits(n as nat),
            pad == w - dec_digits(n as nat).len(),
            r@ =~= zeros(pad as nat) + digits@.subrange(0, i as int),
        decreases digits@.len() - i,
    {
        let b = digits[i];
        r.push(b);
        proof {
            assert(zeros(pad as nat) + digits@.subrange(0, i + 1) =~= (zeros(pad as nat)
                + digits@.subrange(0, i as int)).push(digits@[i as int]));
        }
        i = i + 1;
    }
    proof {
        assert(digits@.subrange(0, digits@.len() as int) =~= digits@);
    }
    r
}


pub proof fn lemma_prefix_of_concat(p: Seq<u8>, t: Seq<u8>)
    ensures
        starts_with(p + t, p),
{
    assert((p + t).subrange(0, p.len() as int) =~= p);
}

} // verus!
