//! Content digests and their text.

use vstd::prelude::*;

use crate::text;

verus! {

/// The BLAKE3 digest of a byte sequence.
pub uninterp spec fn blake3_of(bytes: Seq<u8>) -> Seq<u8>;

/// `blake3::hash`: the 32-byte digest of `bytes`, a function of the bytes alone.
#[verifier::external_body]
pub(crate) fn blake3_hash(bytes: &[u8]) -> (digest: [u8; 32])
    ensures
        digest@ == blake3_of(bytes@),
{
    *blake3::hash(bytes).as_bytes()
}

/// The SHA-256 digest of a byte sequence.
pub uninterp spec fn sha256_of(bytes: Seq<u8>) -> Seq<u8>;

/// `sha2::Sha256::digest`: the 32-byte digest of `bytes`, a function of the bytes
/// alone.
#[verifier::external_body]
pub(crate) fn sha256_hash(bytes: &[u8]) -> (digest: [u8; 32])
    ensures
        digest@ == sha256_of(bytes@),
{
    <sha2::Sha256 as sha2::Digest>::digest(bytes).into()
}

/// The lowercase hexadecimal digit of value `d`.
pub open spec fn hex_char(d: nat) -> char {
    if d < 10 {
        (48 + d) as char
    } else {
        (87 + d) as char
    }
}

/// The lowercase hexadecimal text of a byte sequence, two digits for each byte.
pub open spec fn hex_of(bytes: Seq<u8>) -> Seq<char>
    decreases bytes.len(),
{
    if bytes.len() == 0 {
        Seq::empty()
    } else {
        hex_of(bytes.drop_last()).push(hex_char((bytes.last() / 16) as nat)).push(
            hex_char((bytes.last() % 16) as nat),
        )
    }
}

fn hex_digit(d: u8) -> (c: char)
    requires
        d < 16,
    ensures
        c == hex_char(d as nat),
{
    if d < 10 {
        (48 + d) as char
    } else {
        (87 + d) as char
    }
}

/// The lowercase hexadecimal text of `bytes`.
pub fn to_hex(bytes: &[u8; 32]) -> (s: String)
    ensures
        s@ == hex_of(bytes@),
{
    let mut s = String::new();
    for i in 0..32usize
        invariant
            s@ == hex_of(bytes@.take(i as int)),
    {
        assert(bytes@.take(i + 1).drop_last() =~= bytes@.take(i as int));
        s.push(hex_digit(bytes[i] / 16));
        s.push(hex_digit(bytes[i] % 16));
    }
    assert(bytes@.take(32) =~= bytes@);
    s
}

/// The text of a digest of `n` bytes is `2 * n` lowercase hexadecimal digits.
pub proof fn lemma_hex_digits(bytes: Seq<u8>)
    ensures
        hex_of(bytes).len() == 2 * bytes.len(),
        forall|i: int| 0 <= i < hex_of(bytes).len() ==> text::is_hex_digit(#[trigger] hex_of(bytes)[i]),
    decreases bytes.len(),
{
    if bytes.len() > 0 {
        lemma_hex_digits(bytes.drop_last());
    }
}

proof fn lemma_hex_char_injective(d: nat, e: nat)
    requires
        d < 16,
        e < 16,
        hex_char(d) == hex_char(e),
    ensures
        d == e,
{
    assert(hex_char(d) as int == if d < 10 { 48 + d } else { 87 + d });
    assert(hex_char(e) as int == if e < 10 { 48 + e } else { 87 + e });
}

/// Different digests have different texts.
pub proof fn lemma_hex_injective(a: Seq<u8>, b: Seq<u8>)
    requires
        hex_of(a) == hex_of(b),
    ensures
        a == b,
    decreases a.len(),
{
    lemma_hex_digits(a);
    lemma_hex_digits(b);
    if a.len() > 0 {
        let x = hex_of(a.drop_last()).push(hex_char((a.last() / 16) as nat));
        let y = hex_of(b.drop_last()).push(hex_char((b.last() / 16) as nat));
        assert(hex_of(a).drop_last() =~= x);
        assert(hex_of(b).drop_last() =~= y);
        assert(hex_of(a).last() == hex_char((a.last() % 16) as nat));
        assert(hex_of(b).last() == hex_char((b.last() % 16) as nat));
        assert(x.last() == y.last());
        assert(x.drop_last() =~= hex_of(a.drop_last()));
        assert(y.drop_last() =~= hex_of(b.drop_last()));
        lemma_hex_injective(a.drop_last(), b.drop_last());
        lemma_hex_char_injective((a.last() / 16) as nat, (b.last() / 16) as nat);
        lemma_hex_char_injective((a.last() % 16) as nat, (b.last() % 16) as nat);
        assert(a =~= a.drop_last().push(a.last()));
        assert(b =~= b.drop_last().push(b.last()));
    } else {
        assert(a =~= b);
    }
}

/// The digest of a file's bytes, as text.
pub open spec fn content_digest(bytes: Seq<u8>) -> Seq<char> {
    hex_of(blake3_of(bytes))
}

/// The BLAKE3 digest of `bytes`, as text.
pub fn content_hash(bytes: &[u8]) -> (s: String)
    ensures
        s@ == content_digest(bytes@),
        text::is_hex_digest(s@),
{
    let digest = blake3_hash(bytes);
    let s = to_hex(&digest);
    proof {
        lemma_hex_digits(digest@);
    }
    s
}

/// Whether two digests are the same.
pub fn same_digest(a: &[u8; 32], b: &[u8; 32]) -> (r: bool)
    ensures
        r == (a@ == b@),
{
    for i in 0..32usize
        invariant
            forall|j: int| 0 <= j < i ==> a@[j] == b@[j],
    {
        if a[i] != b[i] {
            return false;
        }
    }
    assert(a@ =~= b@);
    true
}

/// Appends the bytes of `more` to `bytes`.
pub fn extend(bytes: &mut Vec<u8>, more: &[u8])
    ensures
        final(bytes)@ == old(bytes)@ + more@,
{
    let ghost before = bytes@;
    for i in 0..more.len()
        invariant
            bytes@ == before + more@.take(i as int),
    {
        bytes.push(more[i]);
        assert(more@.take(i + 1) =~= more@.take(i as int).push(more@[i as int]));
        assert(bytes@ =~= before + more@.take(i + 1));
    }
    assert(more@.take(more@.len() as int) =~= more@);
}

/// The value of a hexadecimal digit.
pub open spec fn nibble(c: char) -> int {
    if c <= '9' {
        c as int - '0' as int
    } else {
        c as int - 'a' as int + 10
    }
}

/// The text of a digest holds two digits for each byte, in order, the high one first.
pub proof fn law_hex_text_spells_the_bytes(bytes: Seq<u8>, i: int)
    requires
        0 <= i < bytes.len(),
    ensures
        hex_of(bytes).len() == 2 * bytes.len(),
        16 * nibble(hex_of(bytes)[2 * i]) + nibble(hex_of(bytes)[2 * i + 1]) == bytes[i],
        0 <= nibble(hex_of(bytes)[2 * i]) < 16,
        0 <= nibble(hex_of(bytes)[2 * i + 1]) < 16,
    decreases bytes.len(),
{
    lemma_hex_digits(bytes);
    lemma_hex_digits(bytes.drop_last());
    assert(bytes.last() == bytes[bytes.len() - 1]);
    if i < bytes.len() - 1 {
        law_hex_text_spells_the_bytes(bytes.drop_last(), i);
        assert(hex_of(bytes)[2 * i] == hex_of(bytes.drop_last())[2 * i]);
        assert(hex_of(bytes)[2 * i + 1] == hex_of(bytes.drop_last())[2 * i + 1]);
    } else {
        let high = (bytes.last() / 16) as nat;
        let low = (bytes.last() % 16) as nat;
        assert(hex_of(bytes)[2 * i] == hex_char(high));
        assert(hex_of(bytes)[2 * i + 1] == hex_char(low));
        assert(16 * high + low == bytes.last());
        assert(nibble(hex_char(high)) == high);
        assert(nibble(hex_char(low)) == low);
    }
}

} // verus!
