//! The recurrence over the integers, and its computation on `u64`.

use vstd::prelude::*;

verus! {

/// The `i`-th term of the sequence seeded by `a`, `b`, `c`: the seeds come
/// first, and every later term is the sum of the previous and the
/// third-previous term, multiplied by the second-previous one.
pub open spec fn term(a: int, b: int, c: int, i: nat) -> int
    decreases i,
{
    if i == 0 {
        a
    } else if i == 1 {
        b
    } else if i == 2 {
        c
    } else {
        (term(a, b, c, (i - 1) as nat) + term(a, b, c, (i - 3) as nat)) * term(
            a,
            b,
            c,
            (i - 2) as nat,
        )
    }
}

/// A sequence of machine words holds the first `n` terms.
pub open spec fn is_sequence(seq: Seq<u64>, a: int, b: int, c: int, n: nat) -> bool {
    &&& seq.len() == n
    &&& forall|i: int| 0 <= i < n ==> #[trigger] seq[i] == term(a, b, c, i as nat)
}

/// Every one of the first `n` terms can be held in a `u64`.
pub open spec fn fits_u64(a: int, b: int, c: int, n: nat) -> bool {
    forall|i: nat| i < n ==> 0 <= #[trigger] term(a, b, c, i) <= u64::MAX
}

/// One step of the recurrence on machine words: `Some` of the next term when
/// it can be held in a `u64`, `None` when it cannot.
fn next_term(previous: u64, second_previous: u64, third_previous: u64) -> (r: Option<u64>)
    ensures
        match r {
            Some(t) => t == (previous + third_previous) * second_previous,
            None => (previous + third_previous) * second_previous > u64::MAX,
        },
{
    if second_previous == 0 {
        assert((previous + third_previous) * 0 == 0);
        return Some(0);
    }
    assert((previous + third_previous) * second_previous >= previous + third_previous)
        by (nonlinear_arith)
        requires
            second_previous >= 1,
    ;
    match previous.checked_add(third_previous) {
        None => None,
        Some(sum) => sum.checked_mul(second_previous),
    }
}

/// The first `num` terms of the sequence seeded by `a`, `b`, `c`, or `None`
/// when fewer than three terms are asked for or one of them is too large for
/// a `u64`.
pub fn checked_fibovar_seq(a: u64, b: u64, c: u64, num: usize) -> (r: Option<Vec<u64>>)
    ensures
        r is Some <==> num >= 3 && fits_u64(a as int, b as int, c as int, num as nat),
        r matches Some(seq) ==> is_sequence(seq@, a as int, b as int, c as int, num as nat),
{
    if num < 3 {
        return None;
    }
    let mut seq: Vec<u64> = Vec::new();
    seq.push(a);
    seq.push(b);
    seq.push(c);
    let mut i: usize = 3;
    while i < num
        invariant
            3 <= i <= num,
            seq@.len() == i,
            forall|j: int|
                0 <= j < i ==> #[trigger] seq@[j] == term(a as int, b as int, c as int, j as nat),
        decreases num - i,
    {
        assert(term(a as int, b as int, c as int, i as nat) == (seq@[i - 1] + seq@[i - 3])
            * seq@[i - 2]);
        match next_term(seq[i - 1], seq[i - 2], seq[i - 3]) {
            None => {
                assert(!(0 <= term(a as int, b as int, c as int, i as nat) <= u64::MAX));
                return None;
            },
            Some(t) => {
                seq.push(t);
            },
        }
        i = i + 1;
    }
    proof {
        assert forall|j: nat| j < num implies 0 <= #[trigger] term(
            a as int,
            b as int,
            c as int,
            j,
        ) <= u64::MAX by {
            assert(seq@[j as int] == term(a as int, b as int, c as int, j));
        }
    }
    Some(seq)
}

/// The first `num` terms of the sequence seeded by `a`, `b`, `c`.
///
/// At least the three seeds are asked for, and every term fits a `u64`;
/// [`checked_fibovar_seq`] tests both.
pub fn get_fibovar_seq(a: u64, b: u64, c: u64, num: usize) -> (seq: Vec<u64>)
    requires
        num >= 3,
        fits_u64(a as int, b as int, c as int, num as nat),
    ensures
        is_sequence(seq@, a as int, b as int, c as int, num as nat),
{
    match checked_fibovar_seq(a, b, c, num) {
        Some(seq) => seq,
        None => {
            proof {
                assert(false);
            }
            Vec::new()
        },
    }
}

} // verus!
