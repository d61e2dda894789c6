//! The ABI description compiled into the library: its symbol count is
//! written in decimal at build time.
use vstd::prelude::*;

verus! {

pub open spec fn is_digit(b: u8) -> bool {
    48 <= b <= 57
}

/// The number written by a string of decimal digits.
pub open spec fn decimal_value(s: Seq<u8>) -> nat
    decreases s.len(),
{
    if s.len() == 0 {
        0
    } else {
        decimal_value(s.drop_last()) * 10 + (s.last() - 48) as nat
    }
}

proof fn lemma_decimal_value_prefix(s: Seq<u8>, i: int)
    requires
        0 <= i <= s.len(),
        forall|k: int| 0 <= k < s.len() ==> #[trigger] is_digit(s[k]),
    ensures
        decimal_value(s.take(i)) <= decimal_value(s),
    decreases s.len() - i,
{
    if i < s.len() {
        lemma_decimal_value_prefix(s, i + 1);
        assert(s.take(i + 1).drop_last() =~= s.take(i));
        assert(is_digit(s[i]));
    } else {
        assert(s.take(i) =~= s);
    }
}

/// Reads the decimal symbol count. Every byte is a digit and the number
/// fits in 32 bits (the build refuses anything else).
pub fn parse_symbol_count(bytes: &[u8]) -> (value: u32)
    requires
        forall|k: int| 0 <= k < bytes@.len() ==> #[trigger] is_digit(bytes@[k]),
        decimal_value(bytes@) <= u32::MAX,
    ensures
        value == decimal_value(bytes@),
{
    let mut index: usize = 0;
    let mut value: u32 = 0;
    while index < bytes.len()
        invariant
            index <= bytes@.len(),
            forall|k: int| 0 <= k < bytes@.len() ==> #[trigger] is_digit(bytes@[k]),
            decimal_value(bytes@) <= u32::MAX,
            value == decimal_value(bytes@.take(index as int)),
        decreases bytes@.len() - index,
    {
        let digit: u8 = bytes[index];
        proof {
            assert(bytes@.take(index + 1).drop_last() =~= bytes@.take(index as int));
            assert(is_digit(bytes@[index as int]));
            lemma_decimal_value_prefix(bytes@, index + 1);
        }
        value = value * 10 + (digit - 48u8) as u32;
        index = index + 1;
    }
    assert(bytes@.take(index as int) =~= bytes@);
    value
}

} // verus!
