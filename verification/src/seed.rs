//! Structured seeds.
//!
//! A [`Seed`] is the caller-supplied entropy source of a generator: an
//! ordered record of plain fields (byte strings and unsigned integers).
//! The seed is owned by the generator for its whole lifetime and is never
//! mutated; re-seeding means constructing a new generator.

use vstd::prelude::*;

verus! {

/// One field of a structured seed.
pub enum SeedField {
    /// An arbitrary byte string (also the representation of textual fields).
    Bytes(Vec<u8>),
    /// An unsigned 64-bit integer.
    Uint(u64),
}

/// The mathematical value of one seed field.
pub enum FieldModel {
    /// The bytes a [`SeedField::Bytes`] field holds.
    Bytes(Seq<u8>),
    /// The integer a [`SeedField::Uint`] field holds.
    Uint(u64),
}

impl View for SeedField {
    type V = FieldModel;

    open spec fn view(&self) -> FieldModel {
        match self {
            SeedField::Bytes(b) => FieldModel::Bytes(b@),
            SeedField::Uint(x) => FieldModel::Uint(*x),
        }
    }
}

/// A structured seed: an ordered record of fields.
///
/// Two seeds are the same entropy source exactly when their views (the
/// sequence of field values) are equal.
pub struct Seed {
    /// The fields of the record, in significance order chosen by the caller.
    pub fields: Vec<SeedField>,
}

impl View for Seed {
    type V = Seq<FieldModel>;

    open spec fn view(&self) -> Seq<FieldModel> {
        self.fields@.map(|i: int, f: SeedField| f@)
    }
}

impl Seed {
    /// An empty seed, to be extended field by field.
    pub fn new() -> (r: Seed)
        ensures
            r@ == Seq::<FieldModel>::empty(),
    {
        let r = Seed { fields: Vec::new() };
        proof {
            assert(r@ =~= Seq::<FieldModel>::empty());
        }
        r
    }

    /// A seed consisting of a single byte-string field.
    pub fn from_bytes(bytes: Vec<u8>) -> (r: Seed)
        ensures
            r@ == seq![FieldModel::Bytes(bytes@)],
    {
        let ghost b = bytes@;
        let mut fields: Vec<SeedField> = Vec::new();
        fields.push(SeedField::Bytes(bytes));
        let r = Seed { fields };
        proof {
            assert(r@ =~= seq![FieldModel::Bytes(b)]);
        }
        r
    }

    /// Appends a byte-string field to the record.
    pub fn push_bytes(&mut self, bytes: Vec<u8>)
        ensures
            final(self)@ == old(self)@.push(FieldModel::Bytes(bytes@)),
    {
        let ghost b = bytes@;
        let ghost prev = self@;
        self.fields.push(SeedField::Bytes(bytes));
        proof {
            assert(self@ =~= prev.push(FieldModel::Bytes(b)));
        }
    }

    /// Appends an integer field to the record.
    pub fn push_uint(&mut self, x: u64)
        ensures
            final(self)@ == old(self)@.push(FieldModel::Uint(x)),
    {
        let ghost prev = self@;
        self.fields.push(SeedField::Uint(x));
        proof {
            assert(self@ =~= prev.push(FieldModel::Uint(x)));
        }
    }
}

} // verus!
