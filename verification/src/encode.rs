//! Canonical encoding of a `(block counter, seed)` pair.
//!
//! The bytes fed to the hash function for block `counter` are, in order:
//!
//! * a fixed 16-byte domain-separation tag, the ASCII of `"rand_hash.seed.1"`,
//!   so the hash inputs of this construction cannot collide with unrelated
//!   uses of the same hash function;
//! * the counter, as 8 little-endian bytes;
//! * the number of seed fields, as 8 little-endian bytes;
//! * each field in record order: a one-byte kind marker (`1` for bytes,
//!   `2` for integers), then for a byte string its length as 8 little-endian
//!   bytes followed by the bytes themselves, and for an integer its 8
//!   little-endian bytes.
//!
//! Every variable-length part is length-prefixed and every field is
//! kind-tagged, so structurally distinct `(counter, seed)` pairs never
//! encode to the same byte string.

use vstd::bytes::{
    lemma_auto_spec_u64_to_from_le_bytes, spec_u64_from_le_bytes, spec_u64_to_le_bytes,
    u64_to_le_bytes,
};
use vstd::prelude::*;

use crate::seed::{FieldModel, Seed, SeedField};

verus! {

/// The domain-separation tag: the ASCII bytes of `"rand_hash.seed.1"`.
pub open spec fn tag_bytes() -> Seq<u8> {
    seq![
        114u8, 97u8, 110u8, 100u8, 95u8, 104u8, 97u8, 115u8,
        104u8, 46u8, 115u8, 101u8, 101u8, 100u8, 46u8, 49u8,
    ]
}

/// The encoding of one seed field: a kind marker, then the length-prefixed
/// or fixed-width content.
pub open spec fn field_encoding(f: FieldModel) -> Seq<u8> {
    match f {
        FieldModel::Bytes(b) => seq![1u8] + spec_u64_to_le_bytes(b.len() as u64) + b,
        FieldModel::Uint(x) => seq![2u8] + spec_u64_to_le_bytes(x),
    }
}

/// The concatenated encodings of a record of seed fields.
pub open spec fn fields_encoding(fs: Seq<FieldModel>) -> Seq<u8>
    decreases fs.len(),
{
    if fs.len() == 0 {
        Seq::<u8>::empty()
    } else {
        fields_encoding(fs.drop_last()) + field_encoding(fs.last())
    }
}

/// The canonical byte string hashed for block `counter` of a generator
/// seeded with `seed`: domain tag, counter, field count, then the fields.
pub open spec fn encoding(counter: u64, seed: Seq<FieldModel>) -> Seq<u8> {
    tag_bytes() + spec_u64_to_le_bytes(counter) + spec_u64_to_le_bytes(seed.len() as u64)
        + fields_encoding(seed)
}

/// Domain separation: every canonical encoding opens with the fixed tag,
/// so the hash inputs of this construction cannot collide with an encoding
/// produced for an unrelated purpose under a different prefix.
pub proof fn lemma_encoding_tagged(counter: u64, seed: Seq<FieldModel>)
    ensures
        encoding(counter, seed).len() >= 32,
        encoding(counter, seed).subrange(0, 16) == tag_bytes(),
{
    lemma_auto_spec_u64_to_from_le_bytes();
    assert(encoding(counter, seed).subrange(0, 16) =~= tag_bytes());
}

/// Unambiguity in the counter: for one seed, distinct counters never
/// encode to the same byte string, so successive blocks are digests of
/// distinct messages. The counter bytes sit at a fixed position, and the
/// little-endian encoding of a `u64` is injective.
pub proof fn lemma_counter_encoding_injective(c1: u64, c2: u64, seed: Seq<FieldModel>)
    requires
        c1 != c2,
    ensures
        encoding(c1, seed) != encoding(c2, seed),
{
    lemma_auto_spec_u64_to_from_le_bytes();
    let e1 = encoding(c1, seed);
    let e2 = encoding(c2, seed);
    if e1 == e2 {
        assert(e1.subrange(16, 24) =~= spec_u64_to_le_bytes(c1));
        assert(e2.subrange(16, 24) =~= spec_u64_to_le_bytes(c2));
        assert(spec_u64_from_le_bytes(spec_u64_to_le_bytes(c1)) == c1);
        assert(spec_u64_from_le_bytes(spec_u64_to_le_bytes(c2)) == c2);
        assert(false);
    }
}

/// Whether one field's content fits the 8-byte length prefix. Every field
/// held in real memory does; the bound matters only for the mathematical
/// statement of unambiguity.
pub open spec fn field_bounded(f: FieldModel) -> bool {
    match f {
        FieldModel::Bytes(b) => b.len() < 0x1_0000_0000_0000_0000,
        FieldModel::Uint(_) => true,
    }
}

/// Whether every field of a record is bounded.
pub open spec fn fields_bounded(fs: Seq<FieldModel>) -> bool {
    forall|i: int| 0 <= i < fs.len() ==> field_bounded(#[trigger] fs[i])
}

/// Whether a seed is bounded: the field count and each field's content fit
/// their 8-byte prefixes.
pub open spec fn seed_bounded(seed: Seq<FieldModel>) -> bool {
    &&& seed.len() < 0x1_0000_0000_0000_0000
    &&& fields_bounded(seed)
}

/// The field encodings also concatenate head-first.
proof fn lemma_fields_encoding_head(fs: Seq<FieldModel>)
    requires
        fs.len() > 0,
    ensures
        fields_encoding(fs) == field_encoding(fs[0]) + fields_encoding(fs.drop_first()),
    decreases fs.len(),
{
    if fs.len() == 1 {
        assert(fs.drop_last() =~= Seq::<FieldModel>::empty());
        assert(fs.drop_first() =~= Seq::<FieldModel>::empty());
        assert(fields_encoding(fs) =~= field_encoding(fs[0]) + fields_encoding(fs.drop_first()));
    } else {
        let head = fs.drop_last();
        lemma_fields_encoding_head(head);
        assert(fs.drop_first().drop_last() =~= head.drop_first());
        assert(fs.drop_first().last() == fs.last());
        assert(fields_encoding(fs) =~= field_encoding(fs[0]) + fields_encoding(fs.drop_first()));
    }
}

/// Concatenations of equal total shape cancel: if the left parts have equal
/// lengths and the concatenations are equal, both parts agree.
proof fn lemma_concat_cancel(a1: Seq<u8>, b1: Seq<u8>, a2: Seq<u8>, b2: Seq<u8>)
    requires
        a1.len() == a2.len(),
        a1 + b1 == a2 + b2,
    ensures
        a1 == a2,
        b1 == b2,
{
    assert((a1 + b1).len() == a1.len() + b1.len());
    assert((a2 + b2).len() == a2.len() + b2.len());
    assert(b1.len() == b2.len());
    assert forall|i: int| 0 <= i < a1.len() implies a1[i] == a2[i] by {
        assert((a1 + b1)[i] == a1[i]);
        assert((a2 + b2)[i] == a2[i]);
    };
    assert(a1 =~= a2);
    assert forall|i: int| 0 <= i < b1.len() implies b1[i] == b2[i] by {
        assert((a1 + b1)[a1.len() + i] == b1[i]);
        assert((a2 + b2)[a2.len() + i] == b2[i]);
    };
    assert(b1 =~= b2);
}

/// Unambiguity of the field encodings: equally many bounded fields that
/// encode to the same bytes are the same fields. Each field encoding is
/// self-delimiting (kind marker, then a fixed-width or length-prefixed
/// content), so the concatenation can be parsed back from the front.
proof fn lemma_fields_encoding_injective(s1: Seq<FieldModel>, s2: Seq<FieldModel>)
    requires
        s1.len() == s2.len(),
        fields_bounded(s1),
        fields_bounded(s2),
        fields_encoding(s1) == fields_encoding(s2),
    ensures
        s1 == s2,
    decreases s1.len(),
{
    lemma_auto_spec_u64_to_from_le_bytes();
    if s1.len() == 0 {
        assert(s1 =~= s2);
    } else {
        lemma_fields_encoding_head(s1);
        lemma_fields_encoding_head(s2);
        let e1 = field_encoding(s1[0]);
        let e2 = field_encoding(s2[0]);
        let r1 = fields_encoding(s1.drop_first());
        let r2 = fields_encoding(s2.drop_first());
        assert(e1 + r1 == e2 + r2);
        assert(field_bounded(s1[0]));
        assert(field_bounded(s2[0]));
        match (s1[0], s2[0]) {
            (FieldModel::Bytes(b1), FieldModel::Bytes(b2)) => {
                assert forall|i: int| 0 <= i < 8 implies #[trigger] spec_u64_to_le_bytes(b1.len() as u64)[i]
                    == spec_u64_to_le_bytes(b2.len() as u64)[i] by {
                    assert((e1 + r1)[1 + i] == (e2 + r2)[1 + i]);
                };
                assert(spec_u64_to_le_bytes(b1.len() as u64) =~= spec_u64_to_le_bytes(
                    b2.len() as u64,
                ));
                assert(b1.len() as u64 == b2.len() as u64);
                assert(b1.len() == b2.len());
                lemma_concat_cancel(e1, r1, e2, r2);
                assert forall|i: int| 0 <= i < b1.len() implies b1[i] == b2[i] by {
                    assert(e1[9 + i] == e2[9 + i]);
                };
                assert(b1 =~= b2);
            },
            (FieldModel::Uint(x1), FieldModel::Uint(x2)) => {
                lemma_concat_cancel(e1, r1, e2, r2);
                assert forall|i: int| 0 <= i < 8 implies #[trigger] spec_u64_to_le_bytes(x1)[i]
                    == spec_u64_to_le_bytes(x2)[i] by {
                    assert(e1[1 + i] == e2[1 + i]);
                };
                assert(spec_u64_to_le_bytes(x1) =~= spec_u64_to_le_bytes(x2));
                assert(x1 == x2);
            },
            (FieldModel::Bytes(_), FieldModel::Uint(_)) => {
                assert((e1 + r1)[0] == 1u8);
                assert((e2 + r2)[0] == 2u8);
                assert(false);
            },
            (FieldModel::Uint(_), FieldModel::Bytes(_)) => {
                assert((e1 + r1)[0] == 2u8);
                assert((e2 + r2)[0] == 1u8);
                assert(false);
            },
        }
        assert(s1[0] == s2[0]);
        assert(fields_bounded(s1.drop_first())) by {
            assert forall|i: int| 0 <= i < s1.drop_first().len() implies field_bounded(
                #[trigger] s1.drop_first()[i],
            ) by {
                assert(s1.drop_first()[i] == s1[i + 1]);
            };
        };
        assert(fields_bounded(s2.drop_first())) by {
            assert forall|i: int| 0 <= i < s2.drop_first().len() implies field_bounded(
                #[trigger] s2.drop_first()[i],
            ) by {
                assert(s2.drop_first()[i] == s2[i + 1]);
            };
        };
        lemma_fields_encoding_injective(s1.drop_first(), s2.drop_first());
        assert forall|i: int| 0 <= i < s1.len() implies s1[i] == s2[i] by {
            if i > 0 {
                assert(s1.drop_first()[i - 1] == s2.drop_first()[i - 1]);
                assert(s1.drop_first()[i - 1] == s1[i]);
                assert(s2.drop_first()[i - 1] == s2[i]);
            }
        };
        assert(s1 =~= s2);
    }
}

/// Unambiguity of the whole encoding: two bounded `(counter, seed)` pairs
/// that encode to the same byte string are the same pair. Together with
/// [`lemma_encoding_tagged`], this is the canonical-encoding contract: the
/// byte string fed to the hash function determines — and is determined by —
/// the semantic content of the counter and the seed.
pub proof fn lemma_encoding_injective(
    c1: u64,
    c2: u64,
    s1: Seq<FieldModel>,
    s2: Seq<FieldModel>,
)
    requires
        seed_bounded(s1),
        seed_bounded(s2),
        encoding(c1, s1) == encoding(c2, s2),
    ensures
        c1 == c2,
        s1 == s2,
{
    lemma_auto_spec_u64_to_from_le_bytes();
    let h1 = tag_bytes() + spec_u64_to_le_bytes(c1) + spec_u64_to_le_bytes(s1.len() as u64);
    let h2 = tag_bytes() + spec_u64_to_le_bytes(c2) + spec_u64_to_le_bytes(s2.len() as u64);
    assert(h1 + fields_encoding(s1) == h2 + fields_encoding(s2)) by {
        assert(h1 + fields_encoding(s1) =~= encoding(c1, s1));
        assert(h2 + fields_encoding(s2) =~= encoding(c2, s2));
    };
    lemma_concat_cancel(h1, fields_encoding(s1), h2, fields_encoding(s2));
    assert forall|i: int| 0 <= i < 8 implies #[trigger] spec_u64_to_le_bytes(c1)[i] == spec_u64_to_le_bytes(
        c2,
    )[i] by {
        assert(h1[16 + i] == h2[16 + i]);
    };
    assert(spec_u64_to_le_bytes(c1) =~= spec_u64_to_le_bytes(c2));
    assert forall|i: int| 0 <= i < 8 implies #[trigger] spec_u64_to_le_bytes(s1.len() as u64)[i]
        == spec_u64_to_le_bytes(s2.len() as u64)[i] by {
        assert(h1[24 + i] == h2[24 + i]);
    };
    assert(spec_u64_to_le_bytes(s1.len() as u64) =~= spec_u64_to_le_bytes(s2.len() as u64));
    assert(s1.len() == s2.len());
    lemma_fields_encoding_injective(s1, s2);
}

/// Appends the domain-separation tag to `out`.
fn push_tag(out: &mut Vec<u8>)
    ensures
        final(out)@ == old(out)@ + tag_bytes(),
{
    let tag: [u8; 16] = [
        114u8, 97u8, 110u8, 100u8, 95u8, 104u8, 97u8, 115u8,
        104u8, 46u8, 115u8, 101u8, 101u8, 100u8, 46u8, 49u8,
    ];
    let mut i: usize = 0;
    while i < 16
        invariant
            i <= 16,
            tag@ == tag_bytes(),
            out@ == old(out)@ + tag_bytes().take(i as int),
        decreases 16 - i,
    {
        out.push(tag[i]);
        i = i + 1;
        proof {
            assert(out@ =~= old(out)@ + tag_bytes().take(i as int));
        }
    }
    proof {
        assert(out@ =~= old(out)@ + tag_bytes());
    }
}

/// Appends the little-endian bytes of `x` to `out`.
fn push_u64_le(out: &mut Vec<u8>, x: u64)
    ensures
        final(out)@ == old(out)@ + spec_u64_to_le_bytes(x),
{
    let mut b = u64_to_le_bytes(x);
    out.append(&mut b);
}

/// Appends the canonical encoding of one seed field to `out`.
fn push_field(out: &mut Vec<u8>, f: &SeedField)
    ensures
        final(out)@ == old(out)@ + field_encoding(f@),
{
    match f {
        SeedField::Bytes(b) => {
            out.push(1u8);
            push_u64_le(out, b.len() as u64);
            let mut i: usize = 0;
            while i < b.len()
                invariant
                    i <= b.len(),
                    out@ == old(out)@ + seq![1u8] + spec_u64_to_le_bytes(b@.len() as u64)
                        + b@.take(i as int),
                decreases b.len() - i,
            {
                out.push(b[i]);
                i = i + 1;
                proof {
                    assert(out@ =~= old(out)@ + seq![1u8]
                        + spec_u64_to_le_bytes(b@.len() as u64) + b@.take(i as int));
                }
            }
            proof {
                assert(out@ =~= old(out)@ + field_encoding(f@));
            }
        },
        SeedField::Uint(x) => {
            out.push(2u8);
            push_u64_le(out, *x);
            proof {
                assert(out@ =~= old(out)@ + field_encoding(f@));
            }
        },
    }
}

/// Computes the canonical encoding of `(counter, seed)`.
///
/// This is the byte string whose digest is block `counter` of the output
/// stream; it is a pure function of the counter and the seed's value.
pub fn encode(counter: u64, seed: &Seed) -> (r: Vec<u8>)
    ensures
        r@ == encoding(counter, seed@),
{
    let mut out: Vec<u8> = Vec::new();
    push_tag(&mut out);
    push_u64_le(&mut out, counter);
    push_u64_le(&mut out, seed.fields.len() as u64);
    let ghost header = tag_bytes() + spec_u64_to_le_bytes(counter)
        + spec_u64_to_le_bytes(seed@.len() as u64);
    proof {
        assert(seed@.len() == seed.fields@.len());
        assert(out@ =~= header + fields_encoding(seed@.take(0)));
    }
    let mut i: usize = 0;
    while i < seed.fields.len()
        invariant
            i <= seed.fields.len(),
            seed@.len() == seed.fields@.len(),
            header == tag_bytes() + spec_u64_to_le_bytes(counter)
                + spec_u64_to_le_bytes(seed@.len() as u64),
            out@ == header + fields_encoding(seed@.take(i as int)),
        decreases seed.fields.len() - i,
    {
        let ghost prev = out@;
        push_field(&mut out, &seed.fields[i]);
        proof {
            let fs = seed@.take(i + 1);
            assert(fs.drop_last() =~= seed@.take(i as int));
            assert(fs.last() == seed@[i as int]);
            assert(seed@[i as int] == seed.fields@[i as int]@);
            assert(out@ =~= header + fields_encoding(seed@.take(i + 1)));
        }
        i = i + 1;
    }
    proof {
        assert(seed@.take(seed@.len() as int) =~= seed@);
        assert(out@ =~= encoding(counter, seed@));
    }
    out
}

} // verus!
