//! Small string helpers shared by the other modules.

use vstd::prelude::*;
use vstd::string::StringExecFns;

verus! {

/// Calls `String::push`. Trusted: afterwards the string holds its former
/// characters followed by `c`.
#[verifier::external_body]
pub(crate) fn push_char(s: &mut String, c: char)
    ensures
        final(s)@ == old(s)@.push(c),
{
    s.push(c);
}

/// Whether two string slices hold the same characters.
pub fn str_equal(a: &str, b: &str) -> (res: bool)
    ensures
        res == (a@ == b@),
{
    let sa = a.to_owned();
    let sb = b.to_owned();
    sa == sb
}

/// `s` followed by `t`.
pub fn concat(s: &str, t: &str) -> (res: String)
    ensures
        res@ == s@ + t@,
{
    let mut res = s.to_owned();
    res.append(t);
    res
}

/// The decimal digit for `n < 10`.
pub open spec fn decimal_digit(n: nat) -> char {
    ((48 + n) as u8) as char
}

/// `n` written in decimal, without leading zeros.
pub open spec fn decimal(n: nat) -> Seq<char>
    decreases n,
{
    if n < 10 {
        seq![decimal_digit(n)]
    } else {
        decimal(n / 10).push(decimal_digit(n % 10))
    }
}

/// The value of a base-10 numeral, read from its digits left to right.
pub open spec fn numeral_value(digits: Seq<char>) -> int
    decreases digits.len(),
{
    if digits.len() == 0 {
        0
    } else {
        numeral_value(digits.drop_last()) * 10 + (digits.last() as int - 48)
    }
}

/// Law: the decimal text of `n` is a numeral of digits `0`-`9`, without a
/// leading zero (unless `n` is 0), that reads back as `n`.
pub proof fn lemma_decimal_reads_back(n: nat)
    ensures
        numeral_value(decimal(n)) == n,
        decimal(n).len() >= 1,
        forall|i: int| 0 <= i < decimal(n).len() ==> '0' <= #[trigger] decimal(n)[i] <= '9',
        n > 0 ==> decimal(n)[0] != '0',
    decreases n,
{
    if n < 10 {
        assert(decimal(n) =~= seq![decimal_digit(n)]);
        assert(decimal(n).drop_last() =~= Seq::<char>::empty());
        assert(decimal_digit(n) as int == 48 + n);
        assert(numeral_value(Seq::<char>::empty()) == 0);
        assert(decimal(n).last() == decimal_digit(n));
        assert(numeral_value(decimal(n)) == numeral_value(decimal(n).drop_last()) * 10 + (decimal(n).last() as int - 48));
    } else {
        lemma_decimal_reads_back(n / 10);
        let prefix = decimal(n / 10);
        let d = decimal_digit(n % 10);
        assert(d as int == 48 + n % 10);
        assert(decimal(n) =~= prefix.push(d));
        assert(decimal(n).drop_last() =~= prefix);
        assert((n / 10) * 10 + n % 10 == n) by (nonlinear_arith);
        assert(decimal(n).last() == d);
        assert(numeral_value(decimal(n)) == numeral_value(decimal(n).drop_last()) * 10 + (decimal(n).last() as int - 48));
        assert forall|i: int| 0 <= i < decimal(n).len() implies '0' <= #[trigger] decimal(n)[i] <= '9' by {
            if i < prefix.len() {
                assert(decimal(n)[i] == prefix[i]);
            }
        }
        assert(decimal(n)[0] == prefix[0]);
    }
}

/// Writes `n` in decimal.
pub fn to_decimal(n: u64) -> (res: String)
    ensures
        res@ == decimal(n as nat),
    decreases n,
{
    if n < 10 {
        let mut res = String::new();
        push_char(&mut res, ((48 + n) as u8) as char);
        res
    } else {
        let mut res = to_decimal(n / 10);
        push_char(&mut res, ((48 + n % 10) as u8) as char);
        res
    }
}

} // verus!
