use vstd::prelude::*;
use vstd::string::StringExecFns;

verus! {

/// The character of the decimal digit `d`.
pub open spec fn digit_char(d: nat) -> char {
    seq!['0', '1', '2', '3', '4', '5', '6', '7', '8', '9'][d as int]
}

/// The decimal digits of `n`, most significant first, without leading
/// zeros (`"0"` for zero).
pub open spec fn decimal(n: nat) -> Seq<char>
    decreases n,
{
    if n < 10 {
        seq![digit_char(n)]
    } else {
        decimal(n / 10).push(digit_char(n % 10))
    }
}

/// The decimal forms of `values`, separated by `", "`.
pub open spec fn joined(values: Seq<u32>) -> Seq<char>
    decreases values.len(),
{
    if values.len() == 0 {
        Seq::empty()
    } else if values.len() == 1 {
        decimal(values[0] as nat)
    } else {
        joined(values.drop_last()) + ", "@ + decimal(values.last() as nat)
    }
}

/// Relies on `ToString::to_string` for `u32` (its `Display`): the decimal
/// digits of `n`, with no sign, padding or leading zeros.
#[verifier::external_body]
fn decimal_text(n: u32) -> (r: String)
    ensures
        r@ == decimal(n as nat),
{
    n.to_string()
}

/// The values written in decimal and separated by `", "`; empty for no
/// values. For example `[1, 2, 3, 4]` gives `"1, 2, 3, 4"`.
pub fn format_vec_string(v: &[u32]) -> (r: String)
    ensures
        r@ == joined(v@),
{
    if v.len() == 0 {
        return String::new();
    }
    let mut s = decimal_text(v[0]);
    let mut i: usize = 1;
    proof {
        assert(v@.take(1).len() == 1);
        assert(v@.take(1)[0] == v@[0]);
    }
    while i < v.len()
        invariant
            1 <= i <= v@.len(),
            s@ == joined(v@.take(i as int)),
        decreases v@.len() - i,
    {
        s.append(", ");
        let t = decimal_text(v[i]);
        s.append(t.as_str());
        proof {
            let next = v@.take(i + 1);
            assert(next.drop_last() =~= v@.take(i as int));
            assert(next.last() == v@[i as int]);
        }
        i += 1;
    }
    proof {
        assert(v@.take(v@.len() as int) =~= v@);
    }
    s
}

} // verus!
