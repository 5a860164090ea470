//! The block generator and byte-stream cursor.
//!
//! A [`HashRng`] owns a seed and a monotonically advancing block counter.
//! Block `b` of the logical stream is `D::digest(encoding(b, seed))`; the
//! generator buffers one block at a time and serves byte requests of any
//! size by draining blocks in order. The counter wraps at `2^64`, which
//! bounds the period of the stream; the model below tracks the true block
//! count as ghost state, so every contract is exact even across the wrap.

use core::marker::PhantomData;

use vstd::arithmetic::div_mod::{
    lemma_add_mod_noop, lemma_fundamental_div_mod_converse, lemma_mod_self_0, lemma_small_mod,
};
use vstd::bytes::{spec_u32_from_le_bytes, spec_u64_from_le_bytes, u32_from_le_bytes, u64_from_le_bytes};
use vstd::pervasive::VecAdditionalExecFns;
use vstd::prelude::*;

use crate::encode::{encode, encoding};
use crate::hashes::BlockDigest;
use crate::seed::{FieldModel, Seed};

verus! {

/// The counter is 64 bits wide, so block indices repeat modulo this value.
pub open spec fn counter_modulus() -> nat {
    0x1_0000_0000_0000_0000
}

/// The error type of [`HashRng::try_fill_bytes`]. Filling bytes is a total
/// operation, so no value of this type is ever produced; the fallible
/// signature exists only for symmetry with generic randomness consumers.
#[derive(Debug)]
pub struct FillError;

/// A deterministic byte-stream generator: the pseudo-random stream derived
/// from a structured [`Seed`] through the hash function `D`.
pub struct HashRng<D: BlockDigest> {
    /// The counter value the next block will be hashed with (wraps at `2^64`).
    counter: u64,
    /// The seed, owned and never mutated.
    seed: Seed,
    /// The current block: the digest for the previous counter value.
    buffer: Vec<u8>,
    /// How many bytes of `buffer` have already been handed out.
    offset: usize,
    /// The true number of blocks computed so far (not truncated to 64 bits).
    blocks: Ghost<nat>,
    hash: PhantomData<D>,
}

impl<D: BlockDigest> HashRng<D> {
    /// Block `b` of the stream for `seed`: the digest of the canonical
    /// encoding of the (wrapped) counter value `b` and the seed.
    pub open spec fn block_at(seed: Seq<FieldModel>, b: nat) -> Seq<u8> {
        D::digest_spec(encoding((b % counter_modulus()) as u64, seed))
    }

    /// Byte `i` of the logical infinite stream for `seed`.
    pub open spec fn stream_byte(seed: Seq<FieldModel>, i: nat) -> u8 {
        Self::block_at(seed, i / D::out_len())[(i % D::out_len()) as int]
    }

    /// The `n` stream bytes starting at position `start`.
    pub open spec fn stream(seed: Seq<FieldModel>, start: nat, n: nat) -> Seq<u8> {
        Seq::new(n, |j: int| Self::stream_byte(seed, (start + j) as nat))
    }

    /// The value of the seed this generator expands.
    pub closed spec fn seed_model(self) -> Seq<FieldModel> {
        self.seed@
    }

    /// How many bytes of the stream have been handed out so far: every
    /// byte of each computed block except the unread tail of the buffer.
    pub closed spec fn consumed(self) -> nat {
        ((self.blocks@ - 1) * D::out_len() + self.offset) as nat
    }

    /// The generator state invariant, except that the buffer may be
    /// (transiently) exhausted.
    closed spec fn wf_loose(self) -> bool {
        &&& self.blocks@ >= 1
        &&& self.counter as nat == self.blocks@ % counter_modulus()
        &&& self.buffer@ == Self::block_at(self.seed@, (self.blocks@ - 1) as nat)
        &&& self.buffer@.len() == D::out_len()
        &&& self.offset <= D::out_len()
    }

    /// Well-formedness: at least one block has been computed, the buffer
    /// holds the block for the previous counter value, and the read offset
    /// lies strictly inside the buffer (a drained buffer is advanced
    /// eagerly, so exhaustion never persists across calls).
    pub closed spec fn wf(self) -> bool {
        &&& self.wf_loose()
        &&& self.offset < D::out_len()
    }

    /// Stream position `(b - 1) * out_len + off` lies in block `b - 1` at
    /// offset `off`.
    proof fn lemma_block_index(seed: Seq<FieldModel>, b: nat, off: nat)
        requires
            b >= 1,
            off < D::out_len(),
        ensures
            Self::stream_byte(seed, ((b - 1) * D::out_len() + off) as nat) == Self::block_at(
                seed,
                (b - 1) as nat,
            )[off as int],
    {
        D::out_len_positive();
        let l = D::out_len();
        let i = ((b - 1) * l + off) as nat;
        lemma_fundamental_div_mod_converse(i as int, l as int, (b - 1) as int, off as int);
        assert(i / l == (b - 1) as nat);
        assert(i % l == off);
    }

    /// Constructs a generator from a seed: primes the block for counter 0,
    /// after which the cursor stands at the start of the stream.
    pub fn from_seed(seed: Seed) -> (r: Self)
        ensures
            r.wf(),
            r.seed_model() == seed@,
            r.consumed() == 0,
    {
        let msg = encode(0u64, &seed);
        let buffer = D::digest(&msg);
        let r = HashRng {
            counter: 1u64,
            seed,
            buffer,
            offset: 0usize,
            blocks: Ghost(1nat),
            hash: PhantomData,
        };
        proof {
            D::out_len_positive();
            lemma_small_mod(1nat, counter_modulus());
            lemma_small_mod(0nat, counter_modulus());
            assert(r.wf());
            assert((r.blocks@ - 1) * D::out_len() == 0) by (nonlinear_arith)
                requires
                    r.blocks@ == 1,
            ;
        }
        r
    }

    /// Computes the next block: hashes the current counter with the seed,
    /// pre-increments the counter (wrapping at `2^64`), and rewinds the
    /// read offset. The consumed position is unchanged: the bytes handed
    /// out so far are exactly the earlier full blocks.
    fn advance_buffer(&mut self)
        requires
            old(self).wf_loose(),
            old(self).offset == D::out_len(),
        ensures
            final(self).wf(),
            final(self).seed_model() == old(self).seed_model(),
            final(self).consumed() == old(self).consumed(),
    {
        let c = self.counter;
        let msg = encode(c, &self.seed);
        self.buffer = D::digest(&msg);
        self.counter = if c == u64::MAX {
            0u64
        } else {
            c + 1
        };
        self.offset = 0;
        self.blocks = Ghost(self.blocks@ + 1);
        proof {
            D::out_len_positive();
            let m = counter_modulus();
            let b = old(self).blocks@;
            lemma_add_mod_noop(b as int, 1, m as int);
            lemma_small_mod(1nat, m);
            if c == u64::MAX {
                lemma_mod_self_0(m as int);
                assert((b % m + 1) % m == 0) by {
                    assert(b % m + 1 == m);
                };
            } else {
                lemma_small_mod((c + 1) as nat, m);
            }
            assert(self.counter as nat == self.blocks@ % m);
            assert(self.buffer@ == Self::block_at(self.seed@, (self.blocks@ - 1) as nat));
            assert(old(self).consumed() == (b - 1) * D::out_len() + D::out_len());
            assert((b - 1) * D::out_len() + D::out_len() == b * D::out_len()) by (nonlinear_arith)
                requires
                    b >= 1,
            ;
            assert(final(self).consumed() == old(self).consumed());
        }
    }

    /// Fills `dest` completely with the next `dest.len()` bytes of the
    /// stream. For any split of a request into successive smaller requests
    /// the same bytes are produced, because each call hands out exactly the
    /// stream bytes at the positions it consumes; a zero-length request is
    /// a no-op that leaves the generator untouched.
    pub fn fill_bytes(&mut self, dest: &mut Vec<u8>)
        requires
            old(self).wf(),
        ensures
            final(self).wf(),
            final(self).seed_model() == old(self).seed_model(),
            final(dest)@.len() == old(dest)@.len(),
            final(self).consumed() == old(self).consumed() + old(dest)@.len(),
            final(dest)@ == Self::stream(
                old(self).seed_model(),
                old(self).consumed(),
                old(dest)@.len(),
            ),
            old(dest)@.len() == 0 ==> *final(self) == *old(self) && *final(dest) == *old(dest),
    {
        let n = dest.len();
        if n == 0 {
            proof {
                assert(dest@ =~= Self::stream(self.seed@, self.consumed(), 0));
            }
            return;
        }
        let ghost seed0 = self.seed@;
        let ghost con0 = self.consumed();
        let mut w: usize = 0;
        while w < n
            invariant
                self.wf(),
                self.seed@ == seed0,
                dest@.len() == n,
                w <= n,
                self.consumed() == con0 + w,
                forall|j: int|
                    0 <= j < w ==> dest@[j] == Self::stream_byte(seed0, (con0 + j) as nat),
            decreases n - w,
        {
            proof {
                D::out_len_positive();
            }
            let avail = self.buffer.len() - self.offset;
            let need = n - w;
            let take = if avail < need {
                avail
            } else {
                need
            };
            let ghost off0 = self.offset as nat;
            let mut t: usize = 0;
            while t < take
                invariant
                    self.wf(),
                    self.seed@ == seed0,
                    self.offset == off0,
                    self.consumed() == con0 + w,
                    dest@.len() == n,
                    w + take <= n,
                    off0 + take <= D::out_len(),
                    self.buffer@.len() <= usize::MAX,
                    t <= take,
                    forall|j: int|
                        0 <= j < w ==> dest@[j] == Self::stream_byte(seed0, (con0 + j) as nat),
                    forall|j: int|
                        0 <= j < t ==> #[trigger] dest@[w + j] == self.buffer@[off0 + j],
                decreases take - t,
            {
                let byte = self.buffer[self.offset + t];
                dest.set(w + t, byte);
                t = t + 1;
            }
            proof {
                let b = self.blocks@;
                assert forall|j: int| w <= j < w + take implies #[trigger] dest@[j]
                    == Self::stream_byte(seed0, (con0 + j) as nat) by {
                    let d = j - w;
                    assert(dest@[w + d] == self.buffer@[off0 + d]);
                    Self::lemma_block_index(seed0, b, (off0 + d) as nat);
                    assert(((b - 1) * D::out_len() + (off0 + d)) as nat == (con0 + j) as nat);
                };
            }
            self.offset = self.offset + take;
            w = w + take;
            if self.offset == self.buffer.len() {
                self.advance_buffer();
            }
        }
        proof {
            assert(dest@ =~= Self::stream(seed0, con0, n as nat));
        }
    }

    /// The fallible-looking variant of [`HashRng::fill_bytes`]: always
    /// succeeds, with the same effect.
    pub fn try_fill_bytes(&mut self, dest: &mut Vec<u8>) -> (r: Result<(), FillError>)
        requires
            old(self).wf(),
        ensures
            r is Ok,
            final(self).wf(),
            final(self).seed_model() == old(self).seed_model(),
            final(dest)@.len() == old(dest)@.len(),
            final(self).consumed() == old(self).consumed() + old(dest)@.len(),
            final(dest)@ == Self::stream(
                old(self).seed_model(),
                old(self).consumed(),
                old(dest)@.len(),
            ),
            old(dest)@.len() == 0 ==> *final(self) == *old(self) && *final(dest) == *old(dest),
    {
        self.fill_bytes(dest);
        Ok(())
    }

    /// The next 4 stream bytes, read as a little-endian `u32`.
    pub fn next_u32(&mut self) -> (r: u32)
        requires
            old(self).wf(),
        ensures
            final(self).wf(),
            final(self).seed_model() == old(self).seed_model(),
            final(self).consumed() == old(self).consumed() + 4,
            r == spec_u32_from_le_bytes(
                Self::stream(old(self).seed_model(), old(self).consumed(), 4),
            ),
    {
        let mut tmp: Vec<u8> = vec![0u8, 0u8, 0u8, 0u8];
        self.fill_bytes(&mut tmp);
        u32_from_le_bytes(tmp.as_slice())
    }

    /// The next 8 stream bytes, read as a little-endian `u64`.
    pub fn next_u64(&mut self) -> (r: u64)
        requires
            old(self).wf(),
        ensures
            final(self).wf(),
            final(self).seed_model() == old(self).seed_model(),
            final(self).consumed() == old(self).consumed() + 8,
            r == spec_u64_from_le_bytes(
                Self::stream(old(self).seed_model(), old(self).consumed(), 8),
            ),
    {
        let mut tmp: Vec<u8> = vec![0u8, 0u8, 0u8, 0u8, 0u8, 0u8, 0u8, 0u8];
        self.fill_bytes(&mut tmp);
        u64_from_le_bytes(tmp.as_slice())
    }

    /// Chunking invariance: the stream bytes of two adjacent requests,
    /// concatenated, are the stream bytes of the single combined request.
    /// Together with the contract of [`HashRng::fill_bytes`] — each call
    /// returns the stream segment at its consumed position and advances
    /// that position by the request length — any decomposition of a length
    /// into successive requests yields the bytes of the one big request.
    pub proof fn lemma_stream_concat(seed: Seq<FieldModel>, start: nat, m: nat, n: nat)
        ensures
            Self::stream(seed, start, m) + Self::stream(seed, start + m, n) == Self::stream(
                seed,
                start,
                m + n,
            ),
    {
        assert(Self::stream(seed, start, m) + Self::stream(seed, start + m, n) =~= Self::stream(
            seed,
            start,
            m + n,
        ));
    }

    /// The total length of a decomposition of a request into parts.
    pub open spec fn parts_sum(parts: Seq<nat>) -> nat
        decreases parts.len(),
    {
        if parts.len() == 0 {
            0
        } else {
            parts[0] + Self::parts_sum(parts.drop_first())
        }
    }

    /// The bytes produced by successive requests of the given lengths,
    /// starting at `start`: each request takes its part of the stream and
    /// moves the position forward.
    pub open spec fn chunked_stream(seed: Seq<FieldModel>, start: nat, parts: Seq<nat>) -> Seq<u8>
        decreases parts.len(),
    {
        if parts.len() == 0 {
            Seq::<u8>::empty()
        } else {
            Self::stream(seed, start, parts[0]) + Self::chunked_stream(
                seed,
                start + parts[0],
                parts.drop_first(),
            )
        }
    }

    /// Chunking invariance over a whole decomposition: for any seed and any
    /// way of splitting a request into successive parts, the concatenation
    /// of the parts' bytes is byte-identical to the single request of the
    /// combined length.
    pub proof fn lemma_chunking(seed: Seq<FieldModel>, start: nat, parts: Seq<nat>)
        ensures
            Self::chunked_stream(seed, start, parts) == Self::stream(
                seed,
                start,
                Self::parts_sum(parts),
            ),
        decreases parts.len(),
    {
        if parts.len() == 0 {
            assert(Self::chunked_stream(seed, start, parts) =~= Self::stream(
                seed,
                start,
                Self::parts_sum(parts),
            ));
        } else {
            Self::lemma_chunking(seed, start + parts[0], parts.drop_first());
            Self::lemma_stream_concat(
                seed,
                start,
                parts[0],
                Self::parts_sum(parts.drop_first()),
            );
        }
    }

    /// Determinism: the stream is a function of the seed value alone, so
    /// two generators built from equal seeds — including one constructed,
    /// discarded and reconstructed — yield identical bytes at identical
    /// positions.
    pub proof fn lemma_stream_deterministic(
        seed1: Seq<FieldModel>,
        seed2: Seq<FieldModel>,
        start: nat,
        n: nat,
    )
        requires
            seed1 == seed2,
        ensures
            Self::stream(seed1, start, n) == Self::stream(seed2, start, n),
    {
    }

    /// Block-edge boundary: the byte right after the first block — reached
    /// after requesting exactly one block's worth of bytes — is the first
    /// byte of the digest of the canonical encoding of counter value 1.
    pub proof fn lemma_block_boundary(seed: Seq<FieldModel>)
        ensures
            Self::stream_byte(seed, D::out_len()) == D::digest_spec(encoding(1u64, seed))[0],
    {
        D::out_len_positive();
        let l = D::out_len();
        lemma_fundamental_div_mod_converse(l as int, l as int, 1, 0);
        assert(l / l == 1nat);
        assert(l % l == 0nat);
        lemma_small_mod(1nat, counter_modulus());
    }
}

impl<D: BlockDigest> vstd::std_specs::convert::FromSpecImpl<Seed> for HashRng<D> {
    open spec fn obeys_from_spec() -> bool {
        false
    }

    open spec fn from_spec(seed: Seed) -> Self {
        arbitrary()
    }
}

impl<D: BlockDigest> From<Seed> for HashRng<D> {
    /// An alias of [`HashRng::from_seed`]: the same construction, with the
    /// same contract.
    fn from(seed: Seed) -> (r: Self)
        ensures
            r.wf(),
            r.seed_model() == seed@,
            r.consumed() == 0,
    {
        Self::from_seed(seed)
    }
}

} // verus!
