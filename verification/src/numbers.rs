//! Numbers in texts.
use crate::text;
use vstd::prelude::*;

verus! {

/// The value of decimal digits.
pub open spec fn digits_value(d: Seq<char>) -> nat
    decreases d.len(),
{
    if d.len() == 0 {
        0
    } else {
        digits_value(d.drop_last()) * 10 + (d.last() as nat - 0x30) as nat
    }
}

/// Whether a text consists of decimal digits.
pub open spec fn all_digits(d: Seq<char>) -> bool {
    forall|i: int| 0 <= i < d.len() ==> '0' <= #[trigger] d[i] <= '9'
}

/// The number up to a limit that a text stands for: digits, with a plus sign in front or
/// without.
pub open spec fn number(s: Seq<char>, limit: nat) -> Option<nat> {
    let d = if s.len() > 0 && s[0] == '+' {
        s.drop_first()
    } else {
        s
    };
    if d.len() > 0 && all_digits(d) && digits_value(d) <= limit {
        Some(digits_value(d))
    } else {
        None
    }
}

proof fn lemma_digits_grow(d: Seq<char>, k: int)
    requires
        all_digits(d),
        0 <= k <= d.len(),
    ensures
        digits_value(d.take(k)) <= digits_value(d),
    decreases d.len() - k,
{
    if k < d.len() {
        assert(d.take(k + 1).drop_last() =~= d.take(k));
        lemma_digits_grow(d, k + 1);
    } else {
        assert(d.take(k) =~= d);
    }
}

/// The number up to a limit that a text stands for, see [`number`].
pub fn read_number(s: &str, limit: u64) -> (r: Option<u64>)
    ensures
        match r {
            Some(n) => number(s@, limit as nat) == Some(n as nat),
            None => number(s@, limit as nat) is None,
        },
{
    let cs = text::chars(s);
    let n: usize = cs.len();
    let from: usize = if n > 0 && cs[0] == '+' {
        1
    } else {
        0
    };
    let ghost d = if from == 1 {
        s@.drop_first()
    } else {
        s@
    };
    assert(d =~= s@.subrange(from as int, n as int));
    if from == n {
        return None;
    }
    let mut value: u64 = 0;
    for i in from..n
        invariant
            from < n == cs@.len(),
            cs@ == s@,
            d == s@.subrange(from as int, n as int),
            d == if s@.len() > 0 && s@[0] == '+' {
                s@.drop_first()
            } else {
                s@
            },
            forall|j: int| 0 <= j < i - from ==> '0' <= #[trigger] d[j] <= '9',
            value == digits_value(d.take(i - from)),
            value <= limit,
    {
        let c = cs[i];
        assert(d[i - from] == c);
        if c < '0' || c > '9' {
            return None;
        }
        let digit: u128 = c as u128 - 0x30;
        let next: u128 = value as u128 * 10 + digit;
        assert(d.take(i - from + 1).drop_last() =~= d.take(i - from));
        if next > limit as u128 {
            proof {
                if all_digits(d) {
                    lemma_digits_grow(d, i - from + 1);
                }
            }
            return None;
        }
        value = next as u64;
    }
    assert(d.take(n - from) =~= d);
    Some(value)
}

/// What is written in decimal notation is read back.
pub proof fn reading_undoes_writing(n: nat, limit: nat)
    requires
        n <= limit,
    ensures
        number(text::decimal(n), limit) == Some(n),
{
    lemma_decimal(n);
}

/// Decimal notation consists of digits, at least one, whose value is the number.
pub proof fn lemma_decimal(n: nat)
    ensures
        all_digits(text::decimal(n)),
        text::decimal(n).len() > 0,
        digits_value(text::decimal(n)) == n,
    decreases n,
{
    let d = text::decimal(n);
    if n < 10 {
        assert(d.drop_last() =~= Seq::empty());
        assert(d.last() == text::digit(n as int));
        assert(digits_value(d.drop_last()) == 0);
    } else {
        lemma_decimal(n / 10);
        assert(d.drop_last() =~= text::decimal(n / 10));
    }
}

}
