//! Numbers written out can be read back.

use vstd::prelude::*;
#[allow(unused_imports)]
use crate::util::text::{decimal, digit};

verus! {

/// The number that some digits stand for, each worth ten times the next.
pub open spec fn reading(text: Seq<char>) -> int
    decreases text.len(),
{
    if text.len() == 0 {
        0
    } else {
        reading(text.drop_last()) * 10 + (text.last() as int - '0' as int)
    }
}

proof fn digits_stand_for_themselves(d: nat)
    requires
        d < 10,
    ensures
        digit(d).len() == 1,
        digit(d)[0] as int == '0' as int + d,
{
    reveal_strlit("0");
    reveal_strlit("1");
    reveal_strlit("2");
    reveal_strlit("3");
    reveal_strlit("4");
    reveal_strlit("5");
    reveal_strlit("6");
    reveal_strlit("7");
    reveal_strlit("8");
    reveal_strlit("9");
}

/// A number written out consists of digits, does not begin with a zero unless it is zero, and reads
/// as the number it is.
pub proof fn numbers_read_as_themselves(n: nat)
    ensures
        decimal(n).len() > 0,
        forall|i: int| 0 <= i < decimal(n).len() ==> '0' <= #[trigger] decimal(n)[i] <= '9',
        n > 0 ==> decimal(n)[0] != '0',
        reading(decimal(n)) == n,
    decreases n,
{
    digits_stand_for_themselves(n % 10);
    if n < 10 {
        let text = decimal(n);
        assert(n % 10 == n);
        assert(text.drop_last() =~= Seq::empty());
        assert(reading(text.drop_last()) == 0);
    } else {
        numbers_read_as_themselves(n / 10);
        let text = decimal(n);
        assert(text.drop_last() =~= decimal(n / 10));
        assert(text.last() == digit(n % 10)[0]);
        assert forall|i: int| 0 <= i < text.len() implies '0' <= #[trigger] text[i] <= '9' by {
            if i < text.len() - 1 {
                assert(text[i] == decimal(n / 10)[i]);
            }
        }
        assert(text[0] == decimal(n / 10)[0]);
    }
}

} // verus!
