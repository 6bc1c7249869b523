//! Bytes written out for a reader, as a list of decimal numbers.

use vstd::prelude::*;
use vstd::string::StringExecFns;

verus! {

/// The text of one decimal digit.
pub open spec fn digit(d: nat) -> Seq<char> {
    if d == 0 {
        "0"@
    } else if d == 1 {
        "1"@
    } else if d == 2 {
        "2"@
    } else if d == 3 {
        "3"@
    } else if d == 4 {
        "4"@
    } else if d == 5 {
        "5"@
    } else if d == 6 {
        "6"@
    } else if d == 7 {
        "7"@
    } else if d == 8 {
        "8"@
    } else {
        "9"@
    }
}

/// A number in decimal digits, without leading zeros.
pub open spec fn decimal(n: nat) -> Seq<char>
    decreases n,
{
    if n < 10 {
        digit(n)
    } else {
        decimal(n / 10) + digit(n % 10)
    }
}

/// The numbers of `s` in decimal, parted by a comma and a space.
pub open spec fn listed(s: Seq<u8>) -> Seq<char>
    decreases s.len(),
{
    if s.len() == 0 {
        Seq::empty()
    } else if s.len() == 1 {
        decimal(s[0] as nat)
    } else {
        listed(s.drop_last()) + ", "@ + decimal(s.last() as nat)
    }
}

/// Bytes as a reader sees them: the list of their numbers in square brackets.
pub open spec fn shown(s: Seq<u8>) -> Seq<char> {
    "["@ + listed(s) + "]"@
}

/// The text of the digit `d`.
fn digit_text(d: u8) -> (t: &'static str)
    requires
        d < 10,
    ensures
        t@ == digit(d as nat),
{
    if d == 0 {
        "0"
    } else if d == 1 {
        "1"
    } else if d == 2 {
        "2"
    } else if d == 3 {
        "3"
    } else if d == 4 {
        "4"
    } else if d == 5 {
        "5"
    } else if d == 6 {
        "6"
    } else if d == 7 {
        "7"
    } else if d == 8 {
        "8"
    } else {
        "9"
    }
}

/// Appends a number in decimal.
pub fn push_decimal(out: &mut String, n: usize)
    ensures
        final(out)@ == old(out)@ + decimal(n as nat),
    decreases n,
{
    let ghost start = out@;
    if n >= 10 {
        push_decimal(out, n / 10);
    }
    out.append(digit_text((n % 10) as u8));
    proof {
        assert(out@ =~= start + decimal(n as nat));
    }
}

/// Appends bytes as the list of their numbers in square brackets.
pub fn push_shown(out: &mut String, s: &[u8])
    ensures
        final(out)@ == old(out)@ + shown(s@),
{
    let ghost start = out@;
    out.append("[");
    let mut i: usize = 0;
    proof {
        assert(s@.take(0) =~= Seq::empty());
        assert(out@ =~= start + "["@ + listed(s@.take(0)));
    }
    while i < s.len()
        invariant
            i <= s.len(),
            out@ == start + "["@ + listed(s@.take(i as int)),
        decreases s.len() - i,
    {
        let ghost before = out@;
        if i > 0 {
            out.append(", ");
        }
        push_decimal(out, s[i] as usize);
        proof {
            let now = s@.take(i + 1);
            assert(now.drop_last() =~= s@.take(i as int));
            assert(now.last() == s@[i as int]);
            if i == 0 {
                assert(listed(now) == decimal(s@[0] as nat));
                assert(listed(s@.take(0)) =~= Seq::<char>::empty());
                assert(out@ =~= start + "["@ + listed(now));
            } else {
                assert(out@ =~= start + "["@ + listed(now));
            }
        }
        i += 1;
    }
    proof {
        assert(s@.take(s.len() as int) =~= s@);
    }
    out.append("]");
    proof {
        assert(out@ =~= start + shown(s@));
    }
}

} // verus!
