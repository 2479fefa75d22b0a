//! SHA-256 digests of byte strings and of lists of fields.

use crate::ids;
use vstd::prelude::*;

verus! {

/// The SHA-256 digest of a byte string.
pub uninterp spec fn sha256_of(bytes: Seq<u8>) -> Seq<u8>;

/// `sha2::Sha256::digest` depends on the bytes alone and yields 32 bytes.
#[verifier::external_body]
pub(crate) fn sha256(bytes: &[u8]) -> (r: Vec<u8>)
    ensures
        r@ == sha256_of(bytes@),
        r@.len() == 32,
{
    <sha2::Sha256 as sha2::Digest>::digest(bytes).to_vec()
}

/// The lower-case hexadecimal form of a byte string, two digits a byte.
pub open spec fn hex_of(bytes: Seq<u8>) -> Seq<char> {
    Seq::new(
        2 * bytes.len(),
        |i: int|
            if i % 2 == 0 {
                ids::hex_digit(bytes[i / 2] as int / 16)
            } else {
                ids::hex_digit(bytes[i / 2] as int % 16)
            },
    )
}

/// `hex::encode` writes each byte as two lower-case hexadecimal digits, the
/// high one first.
#[verifier::external_body]
pub(crate) fn hex_text(bytes: &[u8]) -> (r: String)
    ensures
        r@ == hex_of(bytes@),
{
    hex::encode(bytes)
}

/// The `count` least significant bytes of a number, the lowest first.
pub open spec fn le_bytes(n: nat, count: nat) -> Seq<u8>
    decreases count,
{
    if count == 0 {
        Seq::empty()
    } else {
        seq![(n % 256) as u8] + le_bytes(n / 256, (count - 1) as nat)
    }
}

/// A list of fields as one byte string: each field after its length in eight
/// bytes.
pub open spec fn framed(fields: Seq<Seq<u8>>) -> Seq<u8>
    decreases fields.len(),
{
    if fields.len() == 0 {
        Seq::empty()
    } else {
        framed(fields.drop_last()) + le_bytes(fields.last().len(), 8) + fields.last()
    }
}

/// The fields of a list of byte vectors.
pub open spec fn fields_of(v: Seq<Vec<u8>>) -> Seq<Seq<u8>> {
    Seq::new(v.len(), |i: int| v[i]@)
}

/// Appends the length of a field and the field itself.
pub fn append_field(out: &mut Vec<u8>, field: &[u8])
    ensures
        final(out)@ == old(out)@ + le_bytes(field@.len(), 8) + field@,
{
    let ghost start = out@;
    let mut rest: u64 = field.len() as u64;
    let ghost mut written: Seq<u8> = Seq::empty();
    let mut k: usize = 0;
    while k < 8
        invariant
            k <= 8,
            out@ == start + written,
            le_bytes(field@.len(), 8) == written + le_bytes(rest as nat, (8 - k) as nat),
        decreases 8 - k,
    {
        let byte: u8 = (rest % 256) as u8;
        out.push(byte);
        proof {
            let before = written;
            written = written.push(byte);
            assert(le_bytes(rest as nat, (8 - k) as nat) == seq![byte] + le_bytes(
                rest as nat / 256,
                (8 - k - 1) as nat,
            ));
            assert(before + (seq![byte] + le_bytes(rest as nat / 256, (8 - k - 1) as nat))
                =~= written + le_bytes(rest as nat / 256, (8 - k - 1) as nat));
            assert(start + before.push(byte) =~= (start + before).push(byte));
        }
        rest = rest / 256;
        k += 1;
    }
    assert(written + le_bytes(rest as nat, 0) =~= written);
    let mut i: usize = 0;
    while i < field.len()
        invariant
            i <= field.len(),
            out@ == start + written + field@.subrange(0, i as int),
        decreases field.len() - i,
    {
        out.push(field[i]);
        i += 1;
        assert(field@.subrange(0, i as int) =~= field@.subrange(0, i - 1).push(field@[i - 1]));
        assert(start + written + field@.subrange(0, i as int) =~= (start + written
            + field@.subrange(0, i - 1)).push(field@[i - 1]));
    }
    assert(field@.subrange(0, field@.len() as int) =~= field@);
}

/// The hexadecimal SHA-256 digest of a byte string.
pub open spec fn digest_of(bytes: Seq<u8>) -> Seq<char> {
    hex_of(sha256_of(bytes))
}

pub fn digest_text(bytes: &[u8]) -> (r: String)
    ensures
        r@ == digest_of(bytes@),
        r@.len() == 64,
{
    hex_text(sha256(bytes).as_slice())
}

/// The hexadecimal SHA-256 digest of a list of framed fields.
pub fn digest_fields(fields: &Vec<Vec<u8>>) -> (r: String)
    ensures
        r@ == digest_of(framed(fields_of(fields@))),
        r@.len() == 64,
{
    let mut bytes: Vec<u8> = Vec::new();
    let mut i: usize = 0;
    assert(fields_of(fields@).subrange(0, 0) =~= Seq::<Seq<u8>>::empty());
    while i < fields.len()
        invariant
            i <= fields.len(),
            bytes@ == framed(fields_of(fields@).subrange(0, i as int)),
        decreases fields.len() - i,
    {
        append_field(&mut bytes, fields[i].as_slice());
        i += 1;
        let ghost part = fields_of(fields@).subrange(0, i as int);
        assert(part.drop_last() =~= fields_of(fields@).subrange(0, i - 1));
    }
    assert(fields_of(fields@).subrange(0, fields@.len() as int) =~= fields_of(fields@));
    digest_text(bytes.as_slice())
}

// ---------------------------------------------------------------------------
// Laws.

/// 256 to the power of `count`.
pub open spec fn byte_range(count: nat) -> nat
    decreases count,
{
    if count == 0 {
        1
    } else {
        256 * byte_range((count - 1) as nat)
    }
}

proof fn lemma_le_bytes_len(n: nat, count: nat)
    ensures
        le_bytes(n, count).len() == count,
    decreases count,
{
    if count > 0 {
        lemma_le_bytes_len(n / 256, (count - 1) as nat);
    }
}

proof fn lemma_le_bytes_injective(a: nat, b: nat, count: nat)
    requires
        a < byte_range(count),
        b < byte_range(count),
        le_bytes(a, count) == le_bytes(b, count),
    ensures
        a == b,
    decreases count,
{
    if count > 0 {
        let x = le_bytes(a / 256, (count - 1) as nat);
        let y = le_bytes(b / 256, (count - 1) as nat);
        let s = seq![(a % 256) as u8] + x;
        let t = seq![(b % 256) as u8] + y;
        assert(s == t);
        assert(s[0] == t[0]);
        assert(x =~= s.subrange(1, s.len() as int));
        assert(y =~= t.subrange(1, t.len() as int));
        lemma_le_bytes_injective(a / 256, b / 256, (count - 1) as nat);
        assert(a % 256 == b % 256);
    }
}

/// Whether every field's length fits in eight bytes.
pub open spec fn short_fields(fields: Seq<Seq<u8>>) -> bool {
    forall|i: int| 0 <= i < fields.len() ==> (#[trigger] fields[i]).len() < byte_range(8)
}

/// The framing read from the front.
proof fn lemma_framed_first(fields: Seq<Seq<u8>>)
    requires
        fields.len() > 0,
    ensures
        framed(fields) == le_bytes(fields[0].len(), 8) + fields[0] + framed(
            fields.subrange(1, fields.len() as int),
        ),
    decreases fields.len(),
{
    let rest = fields.subrange(1, fields.len() as int);
    if fields.len() == 1 {
        assert(fields.drop_last() =~= Seq::<Seq<u8>>::empty());
        assert(rest =~= Seq::<Seq<u8>>::empty());
        assert(framed(fields) =~= le_bytes(fields[0].len(), 8) + fields[0] + framed(rest));
    } else {
        lemma_framed_first(fields.drop_last());
        assert(fields.drop_last().subrange(1, fields.len() - 1) =~= rest.drop_last());
        assert(framed(fields) =~= le_bytes(fields[0].len(), 8) + fields[0] + framed(rest));
    }
}

/// Two lists of fields with the same framing are the same list: no field can
/// be mistaken for a part of another.
pub proof fn law_framing_is_injective(a: Seq<Seq<u8>>, b: Seq<Seq<u8>>)
    requires
        framed(a) == framed(b),
        short_fields(a),
        short_fields(b),
    ensures
        a == b,
    decreases a.len(),
{
    if a.len() == 0 {
        if b.len() > 0 {
            lemma_framed_first(b);
            lemma_le_bytes_len(b[0].len(), 8);
            assert(framed(b).len() > 0);
        }
        assert(a =~= b);
    } else if b.len() == 0 {
        lemma_framed_first(a);
        lemma_le_bytes_len(a[0].len(), 8);
        assert(framed(a).len() > 0);
    } else {
        let x = a.subrange(1, a.len() as int);
        let y = b.subrange(1, b.len() as int);
        lemma_framed_first(a);
        lemma_framed_first(b);
        lemma_le_bytes_len(a[0].len(), 8);
        lemma_le_bytes_len(b[0].len(), 8);
        let p = le_bytes(a[0].len(), 8);
        let q = le_bytes(b[0].len(), 8);
        let s = p + a[0] + framed(x);
        let t = q + b[0] + framed(y);
        assert(s == t);
        assert(p =~= s.subrange(0, 8));
        assert(q =~= t.subrange(0, 8));
        lemma_le_bytes_injective(a[0].len(), b[0].len(), 8);
        let n = a[0].len() as int;
        assert(a[0] =~= s.subrange(8, 8 + n));
        assert(b[0] =~= t.subrange(8, 8 + n));
        assert(framed(x) =~= s.subrange(8 + n, s.len() as int));
        assert(framed(y) =~= t.subrange(8 + n, t.len() as int));
        assert(short_fields(x)) by {
            assert forall|i: int| 0 <= i < x.len() implies (#[trigger] x[i]).len()
                < byte_range(8) by {
                assert(x[i] == a[i + 1]);
            }
        }
        assert(short_fields(y)) by {
            assert forall|i: int| 0 <= i < y.len() implies (#[trigger] y[i]).len()
                < byte_range(8) by {
                assert(y[i] == b[i + 1]);
            }
        }
        law_framing_is_injective(x, y);
        assert(a =~= seq![a[0]] + x);
        assert(b =~= seq![b[0]] + y);
    }
}

/// The hexadecimal form of a byte string holds lower-case digits only.
pub proof fn lemma_hex_digits(bytes: Seq<u8>)
    ensures
        forall|i: int|
            0 <= i < hex_of(bytes).len() ==> ('0' <= #[trigger] hex_of(bytes)[i] <= '9' || 'a'
                <= hex_of(bytes)[i] <= 'f'),
{
    assert forall|i: int| 0 <= i < hex_of(bytes).len() implies ('0' <= #[trigger] hex_of(bytes)[i]
        <= '9' || 'a' <= hex_of(bytes)[i] <= 'f') by {
        let b = bytes[i / 2] as int;
        assert(0 <= b / 16 < 16 && 0 <= b % 16 < 16);
    }
}

} // verus!
