//! The text forms in which blocks and circuits are written: field elements as decimal
//! numbers, and the name of a circuit's directory.

use crate::field::Fr;
use vstd::prelude::*;
use vstd::string::StrSliceExecFns;
use vstd::string::StringExecFns;

verus! {

/// The character of a decimal digit.
pub open spec fn digit_char(d: nat) -> char {
    if d == 0 {
        '0'
    } else if d == 1 {
        '1'
    } else if d == 2 {
        '2'
    } else if d == 3 {
        '3'
    } else if d == 4 {
        '4'
    } else if d == 5 {
        '5'
    } else if d == 6 {
        '6'
    } else if d == 7 {
        '7'
    } else if d == 8 {
        '8'
    } else {
        '9'
    }
}

/// The decimal digits of a number, the most significant first, without leading zeros.
pub open spec fn decimal_digits(n: nat) -> Seq<char>
    decreases n,
{
    if n < 10 {
        seq![digit_char(n)]
    } else {
        decimal_digits(n / 10).push(digit_char(n % 10))
    }
}

/// The characters of the digits in reverse order: the last digit comes first.
pub open spec fn reversed_digits(digits: Seq<u8>) -> Seq<char> {
    Seq::new(digits.len(), |i: int| digit_char(digits[digits.len() - 1 - i] as nat))
}

/// The text of one decimal digit.
fn digit_str(d: u8) -> (r: &'static str)
    requires
        d < 10,
    ensures
        r@ == seq![digit_char(d as nat)],
{
    proof {
        reveal_strlit("0");
        reveal_strlit("1");
        reveal_strlit("2");
        reveal_strlit("3");
        reveal_strlit("4");
        reveal_strlit("5");
        reveal_strlit("6");
        reveal_strlit("7");
        reveal_strlit("8");
        reveal_strlit("9");
    }
    let r = if d == 0 {
        "0"
    } else if d == 1 {
        "1"
    } else if d == 2 {
        "2"
    } else if d == 3 {
        "3"
    } else if d == 4 {
        "4"
    } else if d == 5 {
        "5"
    } else if d == 6 {
        "6"
    } else if d == 7 {
        "7"
    } else if d == 8 {
        "8"
    } else {
        "9"
    };
    assert(r@ =~= seq![digit_char(d as nat)]);
    r
}

/// The decimal digits of a field element.
pub fn field_to_string(x: &Fr) -> (r: String)
    ensures
        r@ == decimal_digits(x@),
{
    let mut digits: Vec<u8> = Vec::new();
    let mut cur = *x;
    assert(decimal_digits(x@) =~= decimal_digits(cur@) + reversed_digits(digits@));
    loop
        invariant_except_break
            decimal_digits(x@) == decimal_digits(cur@) + reversed_digits(digits@),
        invariant
            forall|k: int| 0 <= k < digits@.len() ==> digits@[k] < 10,
        ensures
            digits@.len() > 0,
            forall|k: int| 0 <= k < digits@.len() ==> digits@[k] < 10,
            decimal_digits(x@) == reversed_digits(digits@),
        decreases cur@,
    {
        let ghost before = digits@;
        let (q, d) = cur.div_rem_10();
        digits.push(d);
        if q.is_zero() {
            assert(decimal_digits(x@) =~= reversed_digits(digits@));
            break ;
        }
        assert(decimal_digits(cur@) + reversed_digits(before) =~= decimal_digits(q@)
            + reversed_digits(digits@));
        cur = q;
    }
    let mut out = String::new();
    let n = digits.len();
    let mut i: usize = 0;
    while i < n
        invariant
            i <= n,
            n == digits@.len(),
            forall|k: int| 0 <= k < digits@.len() ==> digits@[k] < 10,
            out@ == reversed_digits(digits@).take(i as int),
        decreases n - i,
    {
        out.append(digit_str(digits[n - 1 - i]));
        assert(out@ =~= reversed_digits(digits@).take(i + 1));
        i = i + 1;
    }
    assert(reversed_digits(digits@).take(n as int) =~= reversed_digits(digits@));
    out
}

/// The name of a circuit's directory, made from the instantiation of its main component:
/// blanks and closing brackets are left out, opening brackets and commas become underscores.
pub open spec fn circuit_name(main: Seq<char>) -> Seq<char>
    decreases main.len(),
{
    if main.len() == 0 {
        Seq::empty()
    } else {
        let rest = circuit_name(main.drop_last());
        let c = main.last();
        if c == ' ' || c == ')' {
            rest
        } else if c == '(' || c == ',' {
            rest.push('_')
        } else {
            rest.push(c)
        }
    }
}

/// The name of a circuit's directory.
pub fn format_circuit_name(main: &str) -> (r: String)
    ensures
        r@ == circuit_name(main@),
{
    let n = main.unicode_len();
    let mut out = String::new();
    let mut i: usize = 0;
    assert(main@.take(0) =~= Seq::<char>::empty());
    while i < n
        invariant
            i <= n,
            n == main@.len(),
            out@ == circuit_name(main@.take(i as int)),
        decreases n - i,
    {
        let c = main.get_char(i);
        proof {
            let next = main@.take(i + 1);
            assert(next.drop_last() =~= main@.take(i as int));
            assert(next.last() == c);
        }
        if c == ' ' || c == ')' {
        } else if c == '(' || c == ',' {
            proof {
                reveal_strlit("_");
                assert("_"@ =~= seq!['_']);
            }
            out.append("_");
            assert(out@ =~= circuit_name(main@.take(i as int)).push('_'));
        } else {
            let piece = main.substring_char(i, i + 1);
            out.append(piece);
            assert(out@ =~= circuit_name(main@.take(i as int)).push(c));
        }
        i = i + 1;
    }
    assert(main@.take(n as int) =~= main@);
    out
}

} // verus!
