use rand::Rng;
use rand_hash::builder;
use rand_hash::{encode, HashRng, Seed, Sha256, Sha512};
use sha2::Digest;

fn bytes_seed(b: &[u8]) -> Seed {
    Seed::from_bytes(b.to_vec())
}

fn fresh(b: &[u8]) -> HashRng<Sha256> {
    HashRng::<Sha256>::from_seed(bytes_seed(b))
}

fn take(rng: &mut HashRng<Sha256>, n: usize) -> Vec<u8> {
    let mut v = vec![0u8; n];
    rng.fill_bytes(&mut v);
    v
}

#[test]
fn different_window_size() {
    let mut rng = fresh(b"foobar");

    // Check that it doesn't panic for any window size
    for size in 0..=256usize {
        let mut buffer = vec![0u8; size];
        rng.fill_bytes(&mut buffer);
    }
}

#[test]
fn split_large_randomness_in_chunks() {
    // Here we generate a big random string of big length. Then
    // we reset PRNG state, and generate smaller random strings
    // which length sum up to the length of the big random string.
    //
    // Big random string must be equal to concatenation of smaller
    // strings.

    let mut rng = rand_dev::DevRng::new();
    let seed: [u8; 32] = rng.gen();

    // Generate big random string
    let mut hash_rng = HashRng::<Sha256>::from_seed(Seed::from_bytes(seed.to_vec()));
    let big_len = 20_000;
    let mut big_string = vec![0u8; big_len];
    hash_rng.fill_bytes(&mut big_string);

    // Reset `hash_rng` state
    let mut hash_rng = HashRng::<Sha256>::from_seed(Seed::from_bytes(seed.to_vec()));

    // Generate smaller random strings and concatenate them
    let mut concatenation: Vec<u8> = vec![];
    while concatenation.len() < big_string.len() {
        let small_len = rng.gen_range(1..=100.min(big_string.len() - concatenation.len()));
        let mut small_string = vec![0u8; small_len];
        hash_rng.fill_bytes(&mut small_string);

        concatenation.extend_from_slice(&small_string);
    }

    assert_eq!(big_string, concatenation);
}

#[test]
fn first_block_is_digest_of_encoding() {
    // The first 32 output bytes are exactly SHA-256 of the canonical
    // encoding of (0, seed), computed here independently.
    let mut rng = fresh(b"exact");
    let out = take(&mut rng, 32);

    let msg = encode(0, &bytes_seed(b"exact"));
    let expected = sha2::Sha256::digest(&msg);
    assert_eq!(out.as_slice(), expected.as_slice());
    // In particular the stream is not the encoding itself.
    assert_ne!(out, msg[..32].to_vec());
}

#[test]
fn block_boundary_sha256() {
    // After exactly one block (32 bytes), the next byte comes from the
    // block hashed with counter value 1.
    let mut rng = fresh(b"boundary");
    let _first_block = take(&mut rng, 32);
    let next = take(&mut rng, 1);

    let msg = encode(1, &bytes_seed(b"boundary"));
    let expected = sha2::Sha256::digest(&msg);
    assert_eq!(next[0], expected[0]);
}

#[test]
fn block_boundary_sha512() {
    let seed = bytes_seed(b"boundary");
    let mut rng = HashRng::<Sha512>::from_seed(seed);
    let mut first_block = vec![0u8; 64];
    rng.fill_bytes(&mut first_block);
    let mut next = vec![0u8; 1];
    rng.fill_bytes(&mut next);

    let msg = encode(1, &bytes_seed(b"boundary"));
    assert_eq!(first_block.as_slice(), sha2::Sha512::digest(&encode(0, &bytes_seed(b"boundary"))).as_slice());
    assert_eq!(next[0], sha2::Sha512::digest(&msg)[0]);
}

#[test]
fn zero_length_fill_is_noop() {
    let mut with_noop = fresh(b"zero");
    let mut empty: Vec<u8> = vec![];
    with_noop.fill_bytes(&mut empty);
    let a = take(&mut with_noop, 5);
    with_noop.fill_bytes(&mut empty);
    let b = take(&mut with_noop, 27);

    let mut plain = fresh(b"zero");
    let whole = take(&mut plain, 32);

    let mut joined = a.clone();
    joined.extend_from_slice(&b);
    assert_eq!(joined, whole);
}

#[test]
fn equal_seeds_equal_streams() {
    let mut one = fresh(b"determinism");
    let mut two = fresh(b"determinism");
    assert_eq!(take(&mut one, 100), take(&mut two, 100));
    assert_eq!(take(&mut one, 3), take(&mut two, 3));

    // Constructing, consuming, discarding and reconstructing yields the
    // same bytes again.
    let mut again = fresh(b"determinism");
    let mut rest = fresh(b"determinism");
    let n = take(&mut again, 103);
    let mut m = take(&mut rest, 100);
    m.extend_from_slice(&take(&mut rest, 3));
    assert_eq!(n, m);
}

#[test]
fn chunked_reads_match_one_read() {
    let parts = [1usize, 31, 5, 64, 27, 100, 2];
    let total: usize = parts.iter().sum();

    let mut chunked = fresh(b"chunks");
    let mut joined: Vec<u8> = vec![];
    for &p in parts.iter() {
        joined.extend_from_slice(&take(&mut chunked, p));
    }

    let mut whole = fresh(b"chunks");
    assert_eq!(joined, take(&mut whole, total));
}

#[test]
fn seed_sensitivity() {
    let mut base = Seed::new();
    base.push_bytes(b"alpha".to_vec());
    base.push_uint(7);
    let mut base_rng = HashRng::<Sha256>::from_seed(base);
    let base_block = take(&mut base_rng, 32);

    // Change the byte field.
    let mut changed_bytes = Seed::new();
    changed_bytes.push_bytes(b"alphb".to_vec());
    changed_bytes.push_uint(7);
    let mut rng = HashRng::<Sha256>::from_seed(changed_bytes);
    assert_ne!(take(&mut rng, 32), base_block);

    // Change the integer field.
    let mut changed_uint = Seed::new();
    changed_uint.push_bytes(b"alpha".to_vec());
    changed_uint.push_uint(8);
    let mut rng = HashRng::<Sha256>::from_seed(changed_uint);
    assert_ne!(take(&mut rng, 32), base_block);

    // Drop a field.
    let mut dropped = Seed::new();
    dropped.push_bytes(b"alpha".to_vec());
    let mut rng = HashRng::<Sha256>::from_seed(dropped);
    assert_ne!(take(&mut rng, 32), base_block);

    // Moving a byte across a field boundary changes the stream: the
    // encoding is length-prefixed, not a plain concatenation.
    let mut ab_c = Seed::new();
    ab_c.push_bytes(b"ab".to_vec());
    ab_c.push_bytes(b"c".to_vec());
    let mut a_bc = Seed::new();
    a_bc.push_bytes(b"a".to_vec());
    a_bc.push_bytes(b"bc".to_vec());
    let mut left = HashRng::<Sha256>::from_seed(ab_c);
    let mut right = HashRng::<Sha256>::from_seed(a_bc);
    assert_ne!(take(&mut left, 32), take(&mut right, 32));

    // An empty byte field is distinct from no field at all.
    let mut empty_field = Seed::new();
    empty_field.push_bytes(vec![]);
    let mut none = HashRng::<Sha256>::from_seed(Seed::new());
    let mut some = HashRng::<Sha256>::from_seed(empty_field);
    assert_ne!(take(&mut some, 32), take(&mut none, 32));
}

#[test]
fn try_fill_bytes_always_succeeds() {
    let mut rng = fresh(b"fallible");
    let mut buf = vec![0u8; 48];
    let res = rng.try_fill_bytes(&mut buf);
    assert!(res.is_ok());

    let mut twin = fresh(b"fallible");
    assert_eq!(buf, take(&mut twin, 48));
}

#[test]
fn next_integers_are_little_endian() {
    let mut rng = fresh(b"integers");
    let x = rng.next_u32();
    let y = rng.next_u64();

    let mut twin = fresh(b"integers");
    let bytes = take(&mut twin, 12);
    assert_eq!(x, u32::from_le_bytes([bytes[0], bytes[1], bytes[2], bytes[3]]));
    let mut tail = [0u8; 8];
    tail.copy_from_slice(&bytes[4..12]);
    assert_eq!(y, u64::from_le_bytes(tail));
}

#[test]
fn encoding_layout_is_as_documented() {
    // encode(counter, seed) = tag | counter LE | field count LE | fields,
    // with each field kind-tagged and length-prefixed.
    let mut seed = Seed::new();
    seed.push_bytes(b"ab".to_vec());
    seed.push_uint(5);

    let mut expected: Vec<u8> = b"rand_hash.seed.1".to_vec();
    expected.extend_from_slice(&3u64.to_le_bytes());
    expected.extend_from_slice(&2u64.to_le_bytes());
    expected.push(1);
    expected.extend_from_slice(&2u64.to_le_bytes());
    expected.extend_from_slice(b"ab");
    expected.push(2);
    expected.extend_from_slice(&5u64.to_le_bytes());

    assert_eq!(encode(3, &seed), expected);

    // Distinct counters yield distinct encodings for the same seed.
    let mut seed2 = Seed::new();
    seed2.push_bytes(b"ab".to_vec());
    seed2.push_uint(5);
    assert_ne!(encode(4, &seed2), expected);
}

#[test]
fn builder_matches_direct_construction() {
    let mut direct = fresh(b"builder");
    let expected = take(&mut direct, 40);

    let mut seed_first = builder::with_seed(bytes_seed(b"builder")).with_digest::<Sha256>();
    assert_eq!(take(&mut seed_first, 40), expected);

    let mut digest_first = builder::with_digest::<Sha256>().with_seed(bytes_seed(b"builder"));
    assert_eq!(take(&mut digest_first, 40), expected);

    let mut converted = HashRng::<Sha256>::from(bytes_seed(b"builder"));
    assert_eq!(take(&mut converted, 40), expected);
}
