use hashsig::goldreich::Goldreich;
use hashsig::hash::{hash, hash_n, hash_pair};
use hashsig::horst::Horst;
use hashsig::lamport::Lamport;
use hashsig::merkle::Merkle;
use hashsig::radix::{div_rem_small, le_u128, low_digits};
use hashsig::util::{bytes_equal, div_up, floored_log, le_bytes};
use hashsig::winternitz::Winternitz;
use hashsig::SignatureScheme;
use hashsig::U256;

fn hex(bytes: &[u8]) -> String {
    bytes.iter().map(|b| format!("{:02x}", b)).collect()
}

#[test]
fn hash_of_empty_and_abc() {
    assert_eq!(
        hex(&hash(b"").into_bytes()),
        "e3b0c44298fc1c149afbf4c8996fb92427ae41e4649b934ca495991b7852b855"
    );
    assert_eq!(
        hex(&hash(b"abc").into_bytes()),
        "ba7816bf8f01cfea414140de5dae2223b00361a396177a9cb410ff61f20015ad"
    );
}

#[test]
fn hash_pair_hashes_the_concatenation() {
    assert!(hash_pair(b"ab", b"c") == hash(b"abc"));
    assert!(hash_pair(b"", b"abc") == hash(b"abc"));
    assert!(hash_pair(b"a", b"bc") != hash_pair(b"bc", b"a"));
}

#[test]
fn hash_n_iterates() {
    let x = hash(b"seed");
    assert!(hash_n(x, 0) == x);
    assert!(hash_n(x, 1) == hash(&x.into_bytes()));
    let twice = hash(&hash(&x.into_bytes()).into_bytes());
    assert!(hash_n(x, 2) == twice);
}

#[test]
fn div_up_rounds_up() {
    assert_eq!(div_up(256, 4), 64);
    assert_eq!(div_up(256, 3), 86);
    assert_eq!(div_up(0, 5), 0);
    assert_eq!(div_up(61, 8), 8);
}

#[test]
fn floored_log_values() {
    assert_eq!(floored_log(1), 0);
    assert_eq!(floored_log(2), 1);
    assert_eq!(floored_log(960), 9);
    assert_eq!(floored_log(1024), 10);
    assert_eq!(floored_log(usize::MAX), 63);
}

#[test]
fn le_bytes_and_back() {
    assert_eq!(le_bytes(0x0102, 3), vec![2, 1, 0]);
    assert_eq!(le_bytes(0x0102, 1), vec![2]);
    assert_eq!(le_u128(&[1, 2]), 0x0201);
    assert_eq!(le_u128(&[]), 0);
    assert_eq!(le_u128(&[0xff; 16]), u128::MAX);
}

#[test]
fn division_by_a_small_number() {
    let (q, r) = div_rem_small(&[11, 1], 7);
    assert_eq!(r, 1);
    assert_eq!(q, vec![38, 0]);
    let (q, r) = div_rem_small(&[], 3);
    assert_eq!(r, 0);
    assert!(q.is_empty());
}

#[test]
fn low_digits_are_padded_with_zeros() {
    assert_eq!(low_digits(&[0x11, 0x00], 16, 4), vec![1, 1, 0, 0]);
    assert_eq!(low_digits(&[25], 10, 4), vec![5, 2, 0, 0]);
    assert_eq!(low_digits(&[0x34, 0x12], 256, 3), vec![0x34, 0x12, 0]);
}

#[test]
fn bytes_equal_compares_bytes() {
    assert!(bytes_equal(b"abc", b"abc"));
    assert!(!bytes_equal(b"abc", b"abd"));
    assert!(!bytes_equal(b"abc", b"ab"));
}

#[test]
fn u256_basics() {
    assert_eq!(U256::new().into_bytes(), [0u8; 32]);
    assert!(U256::try_from_slice(&[0u8; 31]).is_none());
    let w = U256::try_from_slice(&[9u8; 32]).unwrap();
    assert_eq!(w.into_bytes(), [9u8; 32]);
    let mut z = U256::new();
    z.as_mut_bytes()[3] = 7;
    assert_eq!(z.into_bytes()[3], 7);
    assert!(z != U256::new());
    assert!(U256::from([9u8; 32]) == w);
}

#[test]
fn winternitz_lengths() {
    let w16 = Winternitz::new(16);
    assert_eq!((w16.len1, w16.len2, w16.len), (64, 3, 67));
    let w4 = Winternitz::new(4);
    assert_eq!((w4.len1, w4.len2, w4.len), (128, 5, 133));
    let w256 = Winternitz::new(256);
    assert_eq!((w256.len1, w256.len2, w256.len), (32, 2, 34));
}

#[test]
fn winternitz_counts_carry_their_checksum() {
    let w = Winternitz::new(16);
    let counts = w.hash_counts(b"My OS update");
    assert_eq!(counts.len(), 67);
    assert!(counts.iter().all(|&c| c < 16));
    let digest = hash(b"My OS update").into_bytes();
    let expected_digits = low_digits(&digest, 16, 64);
    assert_eq!(&counts[..64], &expected_digits[..]);
    let checksum: usize = counts[..64].iter().map(|&c| 15 - c).sum();
    assert_eq!(counts[64] + 16 * counts[65] + 256 * counts[66], checksum);
}

#[test]
fn winternitz_seeded_keys_are_deterministic() {
    let w = Winternitz::new(16);
    let seed = U256::from([3u8; 32]);
    let (sk_a, pk_a) = w.gen_keys(Some(seed));
    let (sk_b, pk_b) = w.gen_keys(Some(seed));
    assert!(sk_a == seed && sk_b == seed);
    assert_eq!(pk_a.as_bytes(), pk_b.as_bytes());
    assert_eq!(pk_a.len(), 67);
    let sig = w.sign(b"x", &sk_a);
    assert!(w.verify(b"x", &pk_b, &sig));
    assert!(!w.verify(b"y", &pk_b, &sig));
}

#[test]
fn lamport_seeded_keys_are_deterministic() {
    let lamport = Lamport::new(8);
    let seed = U256::from([1u8; 32]);
    let (sk_a, pk_a) = lamport.gen_keys(Some(seed));
    let (sk_b, pk_b) = lamport.gen_keys(Some(seed));
    assert_eq!(sk_a.as_bytes(), sk_b.as_bytes());
    assert_eq!(pk_a.as_bytes(), pk_b.as_bytes());
    assert_eq!(sk_a.len(), 8);
    assert_eq!(pk_a.as_bytes().len(), 8 * 8 * 64);
    assert!(sk_a.get(0)[0] != seed);
    assert!(pk_a.get(5)[1] == hash(&sk_a.get(5)[1].into_bytes()));
    let (sk_c, _) = lamport.gen_keys(Some(U256::from([2u8; 32])));
    assert_ne!(sk_a.as_bytes(), sk_c.as_bytes());
}

#[test]
fn lamport_signature_selects_by_bit() {
    let lamport = Lamport::new(2);
    let (private, public) = lamport.gen_keys(Some(U256::from([4u8; 32])));
    let sig = lamport.sign(&[0b0000_0101], &private);
    assert_eq!(sig.len(), 1);
    assert!(sig.get(0) == private.get(0)[1]);
    assert!(sig.get(1) == private.get(1)[0]);
    assert!(sig.get(2) == private.get(2)[1]);
    assert!(sig.get(7) == private.get(7)[0]);
    assert!(lamport.verify(&[0b0000_0101], &public, &sig));
    assert!(!lamport.verify(&[0b0000_0100], &public, &sig));
    assert!(!lamport.verify(&[5, 0], &public, &sig));
    assert!(!lamport.verify(&[5, 0, 0], &public, &sig));
}

#[test]
fn lamport_fresh_keys_differ() {
    let lamport = Lamport::new(4);
    let (sk_a, _) = lamport.gen_keys(None);
    let (sk_b, _) = lamport.gen_keys(None);
    assert_ne!(sk_a.as_bytes(), sk_b.as_bytes());
}

#[test]
fn horst_parameters_and_transform() {
    let horst = Horst::new(16, 32);
    assert_eq!((horst.height, horst.num_leaves, horst.x, horst.k), (16, 65536, 6, 32));
    let ms = horst.transform_msg(&[0x11]);
    assert_eq!(ms.len(), 32);
    assert_eq!(&ms[..3], &[1, 1, 0]);
    let small = Horst::new(10, 4);
    assert_eq!(small.x, 3);
    assert_eq!(small.transform_msg(&[25]), vec![5, 2, 0, 0]);
}

#[test]
fn horst_top_nodes_give_the_root() {
    let horst = Horst::new(8, 8);
    let (private, public) = horst.gen_keys(Some(U256::from([6u8; 32])));
    assert_eq!(private.len(), 256);
    let sig = horst.sign(b"hi", &private);
    assert_eq!(sig.0.len(), 8);
    assert_eq!(sig.1.len(), 16);
    assert!(sig.0.iter().all(|s| s.path.len() == 4));
    assert!(horst.get_root_from_top_nodes(&sig.1) == public);
    assert!(Horst::get_node(&private, 8, 0) == public);
    assert!(horst.verify(b"hi", &public, &sig));
    assert!(!horst.verify(b"ho", &public, &sig));
    let (again, public2) = horst.gen_keys(Some(U256::from([6u8; 32])));
    assert!(public2 == public);
    assert!(again == private);
}

#[test]
fn merkle_path_length_and_leaf() {
    let merkle = Merkle::new(6, Lamport::new(64));
    let (private, public) = merkle.gen_keys(Some(U256::from([8u8; 32])));
    assert_eq!(private.1, 0);
    assert!(private.0 != U256::from([8u8; 32]));
    assert!(merkle.get_node(private.0, 0, 0) == public);
    let next = merkle.next_key(private).unwrap();
    let next = merkle.next_key(next).unwrap();
    let sig = merkle.sign(b"msg", &next);
    assert_eq!(sig.path.len(), 6);
    assert_eq!(sig.leaf_idx, 2);
    assert!(merkle.verify(b"msg", &public, &sig));
    assert!(!merkle.verify(b"msh", &public, &sig));
    let (_, again) = merkle.gen_keys(Some(U256::from([8u8; 32])));
    assert!(again == public);
}

#[test]
fn merkle_next_key_stops_at_the_last_leaf() {
    let merkle = Merkle::new(1, Lamport::new(1));
    let seed = U256::new();
    assert_eq!(merkle.next_key((seed, 0)).map(|p| p.1), Some(1));
    assert!(merkle.next_key((seed, 1)).is_none());
}

#[test]
fn goldreich_height_five() {
    let msg1 = b"My OS update";
    let msg2 = b"My important message";
    let goldreich = Goldreich::new(5, Lamport::new(64));
    let (private, public) = goldreich.gen_keys(Some(U256::from([11u8; 32])));
    assert!(private == U256::from([11u8; 32]));

    let sig1 = goldreich.sign(msg1, &private);
    assert!(sig1.leaf_idx >= 31 && sig1.leaf_idx < 63);
    assert_eq!(sig1.path.len(), 5);
    assert!(goldreich.verify(msg1, &public, &sig1));

    let sig2 = goldreich.sign(msg2, &private);
    assert!(sig2.leaf_idx >= 31 && sig2.leaf_idx < 63);
    assert!(goldreich.verify(msg2, &public, &sig2));
    assert!(!goldreich.verify(msg1, &public, &sig2));
}

#[test]
fn goldreich_sign_at_a_chosen_leaf() {
    let goldreich = Goldreich::new(3, Lamport::new(32));
    let (private, public) = goldreich.gen_keys(Some(U256::from([12u8; 32])));
    for offset in 0..8u128 {
        let sig = goldreich.sign_at(b"leaf", &private, offset);
        assert_eq!(sig.leaf_idx, 7 + offset);
        assert_eq!(sig.path.len(), 3);
        assert!(goldreich.verify(b"leaf", &public, &sig));
        assert!(!goldreich.verify(b"lead", &public, &sig));
    }
}
