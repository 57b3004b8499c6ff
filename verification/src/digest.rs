//! SHA-256 digests of file contents, written as lower-case hexadecimal.

use vstd::prelude::*;
use sha2::Digest;
use crate::text::push_char;

verus! {

/// The SHA-256 digest of `data`, as computed by the `sha2` crate.
pub uninterp spec fn sha256(data: Seq<u8>) -> Seq<u8>;

/// Calls `<sha2::Sha256 as sha2::Digest>::digest`. Trusted: the result is the
/// digest named by `sha256` of exactly the bytes passed in, and it is 32
/// bytes long (the output size of SHA-256).
#[verifier::external_body]
fn sha256_digest(data: &[u8]) -> (res: Vec<u8>)
    ensures
        res@ == sha256(data@),
        res@.len() == 32,
{
    sha2::Sha256::digest(data).to_vec()
}

/// The lower-case hexadecimal digit for `n`, where `0 <= n < 16`.
pub open spec fn hex_digit(n: u8) -> char {
    if n < 10 {
        (('0' as u8) + n) as char
    } else {
        (('a' as u8) + (n - 10)) as char
    }
}

/// Each byte as two lower-case hexadecimal digits, high nibble first.
pub open spec fn hex_lower(bytes: Seq<u8>) -> Seq<char>
    decreases bytes.len(),
{
    if bytes.len() == 0 {
        Seq::empty()
    } else {
        hex_lower(bytes.drop_last()) + seq![hex_digit(bytes.last() / 16), hex_digit(bytes.last() % 16)]
    }
}

fn hex_digit_exec(n: u8) -> (c: char)
    requires
        n < 16,
    ensures
        c == hex_digit(n),
{
    if n < 10 {
        (48u8 + n) as char
    } else {
        (97u8 + (n - 10)) as char
    }
}

/// Writes `bytes` as lower-case hexadecimal, two digits per byte.
pub fn to_hex_lower(bytes: &[u8]) -> (res: String)
    ensures
        res@ == hex_lower(bytes@),
{
    let mut res = String::new();
    let mut i: usize = 0;
    while i < bytes.len()
        invariant
            i <= bytes@.len(),
            res@ == hex_lower(bytes@.subrange(0, i as int)),
        decreases bytes@.len() - i,
    {
        let b = bytes[i];
        push_char(&mut res, hex_digit_exec(b / 16));
        push_char(&mut res, hex_digit_exec(b % 16));
        assert(bytes@.subrange(0, i + 1).drop_last() =~= bytes@.subrange(0, i as int));
        i = i + 1;
    }
    assert(bytes@.subrange(0, bytes@.len() as int) =~= bytes@);
    res
}

/// The SHA-256 digest of `data` in lower-case hexadecimal (64 characters).
pub fn calculate_sha256(data: &[u8]) -> (res: String)
    ensures
        res@ == hex_lower(sha256(data@)),
        res@.len() == 64,
{
    let digest = sha256_digest(data);
    proof {
        lemma_hex_lower_len(digest@);
    }
    to_hex_lower(digest.as_slice())
}

/// What is recorded as the hash of a file: the hexadecimal SHA-256 digest of
/// its contents when the file could be read, else the message of the read
/// error.
pub fn hash_file(contents: Result<Vec<u8>, String>) -> (res: String)
    ensures
        match contents {
            Ok(data) => res@ == hex_lower(sha256(data@)),
            Err(message) => res@ == message@,
        },
{
    match contents {
        Ok(data) => calculate_sha256(data.as_slice()),
        Err(message) => message,
    }
}

/// Hexadecimal writing doubles the length: two digits per byte.
pub proof fn lemma_hex_lower_len(bytes: Seq<u8>)
    ensures
        hex_lower(bytes).len() == 2 * bytes.len(),
    decreases bytes.len(),
{
    if bytes.len() > 0 {
        lemma_hex_lower_len(bytes.drop_last());
    }
}

proof fn lemma_hex_digit_injective(a: u8, b: u8)
    requires
        a < 16,
        b < 16,
        hex_digit(a) == hex_digit(b),
    ensures
        a == b,
{
}

/// Hexadecimal writing loses nothing: two byte strings with the same
/// hexadecimal text are equal.
pub proof fn lemma_hex_lower_injective(a: Seq<u8>, b: Seq<u8>)
    requires
        hex_lower(a) == hex_lower(b),
    ensures
        a == b,
    decreases a.len(),
{
    lemma_hex_lower_len(a);
    lemma_hex_lower_len(b);
    if a.len() > 0 {
        let ha = hex_lower(a.drop_last());
        let hb = hex_lower(b.drop_last());
        lemma_hex_lower_len(a.drop_last());
        lemma_hex_lower_len(b.drop_last());
        assert(hex_lower(a)[ha.len() as int] == hex_digit(a.last() / 16));
        assert(hex_lower(b)[hb.len() as int] == hex_digit(b.last() / 16));
        assert(hex_lower(a)[ha.len() + 1int] == hex_digit(a.last() % 16));
        assert(hex_lower(b)[hb.len() + 1int] == hex_digit(b.last() % 16));
        lemma_hex_digit_injective(a.last() / 16, b.last() / 16);
        lemma_hex_digit_injective(a.last() % 16, b.last() % 16);
        assert(ha =~= hex_lower(a).subrange(0, ha.len() as int));
        assert(hb =~= hex_lower(b).subrange(0, hb.len() as int));
        lemma_hex_lower_injective(a.drop_last(), b.drop_last());
        assert(a =~= a.drop_last().push(a.last()));
        assert(b =~= b.drop_last().push(b.last()));
    }
}

/// The value of a lower-case hexadecimal digit: `0`-`9` are 0-9, `a`-`f`
/// are 10-15.
pub open spec fn hex_value(c: char) -> int {
    if '0' <= c <= '9' {
        c as int - '0' as int
    } else {
        c as int - 'a' as int + 10
    }
}

proof fn lemma_hex_digit_value(n: u8)
    requires
        n < 16,
    ensures
        hex_value(hex_digit(n)) == n,
{
}

/// Law: the hexadecimal text reads back as the bytes: the two digits at
/// positions `2i` and `2i + 1` are the high and low halves of byte `i`.
pub proof fn lemma_hex_reads_back(bytes: Seq<u8>)
    ensures
        hex_lower(bytes).len() == 2 * bytes.len(),
        forall|i: int| 0 <= i < bytes.len() ==> hex_value(#[trigger] hex_lower(bytes)[2 * i]) * 16
            + hex_value(hex_lower(bytes)[2 * i + 1]) == bytes[i],
    decreases bytes.len(),
{
    lemma_hex_lower_len(bytes);
    if bytes.len() > 0 {
        let prefix = bytes.drop_last();
        lemma_hex_reads_back(prefix);
        let prev = hex_lower(prefix);
        let b = bytes.last();
        lemma_hex_digit_value(b / 16);
        lemma_hex_digit_value(b % 16);
        assert forall|i: int| 0 <= i < bytes.len() implies hex_value(#[trigger] hex_lower(bytes)[2 * i]) * 16
            + hex_value(hex_lower(bytes)[2 * i + 1]) == bytes[i] by {
            if i < prefix.len() {
                assert(hex_lower(bytes)[2 * i] == prev[2 * i]);
                assert(hex_lower(bytes)[2 * i + 1] == prev[2 * i + 1]);
                assert(prefix[i] == bytes[i]);
            } else {
                assert(hex_lower(bytes)[2 * i] == hex_digit(b / 16));
                assert(hex_lower(bytes)[2 * i + 1] == hex_digit(b % 16));
                assert(bytes[i] == b);
            }
        }
    }
}

/// Every character of the hexadecimal text is a lower-case hexadecimal digit.
pub proof fn lemma_hex_lower_charset(bytes: Seq<u8>)
    ensures
        forall|i: int| 0 <= i < hex_lower(bytes).len() ==> {
            let c = #[trigger] hex_lower(bytes)[i];
            ('0' <= c <= '9') || ('a' <= c <= 'f')
        },
    decreases bytes.len(),
{
    lemma_hex_lower_len(bytes);
    if bytes.len() > 0 {
        lemma_hex_lower_charset(bytes.drop_last());
        lemma_hex_lower_len(bytes.drop_last());
        let prev = hex_lower(bytes.drop_last());
        assert forall|i: int| 0 <= i < hex_lower(bytes).len() implies {
            let c = #[trigger] hex_lower(bytes)[i];
            ('0' <= c <= '9') || ('a' <= c <= 'f')
        } by {
            if i < prev.len() {
                assert(hex_lower(bytes)[i] == prev[i]);
            }
        }
    }
}

} // verus!
