//! Decimal rendering of unsigned integers, used for status codes and
//! timeout messages.

use vstd::prelude::*;
use vstd::string::StringExecFns;

verus! {

/// The character for a single decimal digit value.
pub open spec fn digit_char(d: nat) -> char {
    if d == 0 {
        '0'
    } else if d == 1 {
        '1'
    } else if d == 2 {
        '2'
    } else if d == 3 {
        '3'
    } else if d == 4 {
        '4'
    } else if d == 5 {
        '5'
    } else if d == 6 {
        '6'
    } else if d == 7 {
        '7'
    } else if d == 8 {
        '8'
    } else {
        '9'
    }
}

/// The decimal digits of `n`, most significant first, with no leading
/// zeros (a single `'0'` for zero).
pub open spec fn spec_decimal(n: nat) -> Seq<char>
    decreases n,
{
    if n < 10 {
        seq![digit_char(n)]
    } else {
        spec_decimal(n / 10).push(digit_char(n % 10))
    }
}

/// Characters of a digit sequence read from the last element backwards.
spec fn rev_chars(ds: Seq<u64>) -> Seq<char>
    decreases ds.len(),
{
    if ds.len() == 0 {
        Seq::<char>::empty()
    } else {
        seq![digit_char(ds.last() as nat)] + rev_chars(ds.drop_last())
    }
}

proof fn lemma_rev_chars_drop_first(ds: Seq<u64>)
    requires
        ds.len() >= 1,
    ensures
        rev_chars(ds) == rev_chars(ds.drop_first()) + seq![digit_char(ds.first() as nat)],
    decreases ds.len(),
{
    if ds.len() == 1 {
        assert(ds.drop_last().len() == 0);
        assert(ds.drop_first().len() == 0);
        assert(rev_chars(ds.drop_last()) =~= Seq::<char>::empty());
        assert(rev_chars(ds.drop_first()) =~= Seq::<char>::empty());
        assert(rev_chars(ds) == seq![digit_char(ds.last() as nat)] + rev_chars(ds.drop_last()));
        assert(rev_chars(ds) =~= rev_chars(ds.drop_first()) + seq![
            digit_char(ds.first() as nat),
        ]);
    } else {
        lemma_rev_chars_drop_first(ds.drop_last());
        assert(ds.drop_last().drop_first() =~= ds.drop_first().drop_last());
        assert(ds.drop_last().first() == ds.first());
        assert(ds.drop_first().last() == ds.last());
        assert(rev_chars(ds.drop_first()) == seq![digit_char(ds.last() as nat)] + rev_chars(
            ds.drop_first().drop_last(),
        ));
        assert(rev_chars(ds) =~= rev_chars(ds.drop_first()) + seq![
            digit_char(ds.first() as nat),
        ]);
    }
}

/// A single decimal digit rendered as a string slice.
fn digit_str(d: u64) -> (s: &'static str)
    requires
        d < 10,
    ensures
        s@ == seq![digit_char(d as nat)],
{
    proof {
        reveal_strlit("0");
        reveal_strlit("1");
        reveal_strlit("2");
        reveal_strlit("3");
        reveal_strlit("4");
        reveal_strlit("5");
        reveal_strlit("6");
        reveal_strlit("7");
        reveal_strlit("8");
        reveal_strlit("9");
    }
    match d {
        0 => "0",
        1 => "1",
        2 => "2",
        3 => "3",
        4 => "4",
        5 => "5",
        6 => "6",
        7 => "7",
        8 => "8",
        _ => "9",
    }
}

/// Renders `n` in decimal, most significant digit first.
pub fn u64_to_string(n: u64) -> (s: String)
    ensures
        s@ == spec_decimal(n as nat),
        s@.len() >= 1,
{
    let mut digits: Vec<u64> = Vec::new();
    let mut m: u64 = n;
    loop
        invariant_except_break
            forall|k: int| 0 <= k < digits@.len() ==> digits@[k] < 10,
            m > 0 ==> spec_decimal(n as nat) == spec_decimal(m as nat) + rev_chars(digits@),
            m == 0 ==> digits@.len() == 0 && n == 0,
        ensures
            forall|k: int| 0 <= k < digits@.len() ==> digits@[k] < 10,
            spec_decimal(n as nat) == rev_chars(digits@),
        decreases m,
    {
        let d: u64 = m % 10;
        let next: u64 = m / 10;
        let ghost pre = digits@;
        digits.push(d);
        proof {
            assert(digits@.drop_last() =~= pre);
            assert(digits@.last() == d);
            assert(rev_chars(digits@) == seq![digit_char(d as nat)] + rev_chars(pre));
            if m > 0 {
                if next > 0 {
                    assert(spec_decimal(m as nat) == spec_decimal(next as nat).push(
                        digit_char(d as nat),
                    ));
                    assert(spec_decimal(next as nat) + rev_chars(digits@) =~= spec_decimal(
                        m as nat,
                    ) + rev_chars(pre));
                } else {
                    assert(m < 10);
                    assert(spec_decimal(m as nat) == seq![digit_char(d as nat)]);
                    assert(rev_chars(digits@) =~= spec_decimal(m as nat) + rev_chars(pre));
                }
            } else {
                assert(pre.len() == 0);
                assert(rev_chars(pre) =~= Seq::<char>::empty());
                assert(spec_decimal(0) == seq![digit_char(0)]);
                assert(rev_chars(digits@) =~= spec_decimal(n as nat));
            }
        }
        m = next;
        if m == 0 {
            break ;
        }
    }
    let mut s = String::new();
    let mut i: usize = digits.len();
    proof {
        assert(digits@.subrange(i as int, digits@.len() as int) =~= Seq::<u64>::empty());
    }
    while i > 0
        invariant
            i <= digits@.len(),
            forall|k: int| 0 <= k < digits@.len() ==> digits@[k] < 10,
            s@ == rev_chars(digits@.subrange(i as int, digits@.len() as int)),
        decreases i,
    {
        i = i - 1;
        let lit = digit_str(digits[i]);
        s.append(lit);
        proof {
            let tail = digits@.subrange(i as int, digits@.len() as int);
            lemma_rev_chars_drop_first(tail);
            assert(tail.drop_first() =~= digits@.subrange(i + 1, digits@.len() as int));
            assert(tail.first() == digits@[i as int]);
        }
    }
    proof {
        assert(digits@.subrange(0, digits@.len() as int) =~= digits@);
    }
    s
}

} // verus!
