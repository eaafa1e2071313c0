use hashsig::goldreich::Goldreich;
use hashsig::horst::Horst;
use hashsig::lamport::Lamport;
use hashsig::merkle::Merkle;
use hashsig::sphincs::Sphincs;
use hashsig::winternitz::Winternitz;
use hashsig::SignatureScheme;
use hashsig::U256;

#[test]
fn lamport_it_works() {
    let msg = b"My OS update";

    let lamport = Lamport::new(64);
    let (private, public) = lamport.gen_keys(None);

    let sig = lamport.sign(msg, &private);

    assert!(lamport.verify(msg, &public, &sig));
    assert!(!lamport.verify(b"My OS apdate", &public, &sig));
}

#[test]
fn winternitz_it_works() {
    let msg1 = b"My OS update";
    let msg2 = b"My important message";

    let winternitz = Winternitz::new(16);

    let (private, public) = winternitz.gen_keys(None);

    let sig = winternitz.sign(msg1, &private);
    assert!(winternitz.verify(msg1, &public, &sig));

    let sig = winternitz.sign(msg2, &private);
    assert!(winternitz.verify(msg2, &public, &sig));

    assert!(!winternitz.verify(msg1, &public, &sig));
}

#[test]
fn horst_it_works() {
    let msg1 = b"My OS update";
    let msg2 = b"My important message";

    let horst = Horst::new(16, 32);

    let (private, public) = horst.gen_keys(None);

    let sig = horst.sign(msg1, &private);
    assert!(horst.verify(msg1, &public, &sig));

    let sig = horst.sign(msg2, &private);
    assert!(horst.verify(msg2, &public, &sig));

    assert!(!horst.verify(msg1, &public, &sig));
}

#[test]
fn merkle_it_works() {
    let msg1 = b"My OS update";
    let msg2 = b"My important message";

    let lamport = Lamport::new(64);
    let merkle = Merkle::new(6, lamport);

    let (mut private, public) = merkle.gen_keys(None);

    let sig = merkle.sign(msg1, &private);
    assert!(merkle.verify(msg1, &public, &sig));

    private = merkle.next_key(private).unwrap();

    let sig = merkle.sign(msg2, &private);
    assert!(merkle.verify(msg2, &public, &sig));

    assert!(!merkle.verify(msg1, &public, &sig));
}

#[test]
fn goldreich_it_works() {
    let msg1 = b"My OS update";
    let msg2 = b"My important message";

    let lamport = Lamport::new(64);
    let goldreich = Goldreich::new(100, lamport);

    let (private, public) = goldreich.gen_keys(None);

    let sig = goldreich.sign(msg1, &private);
    assert!(goldreich.verify(msg1, &public, &sig));

    let sig = goldreich.sign(msg2, &private);
    assert!(goldreich.verify(msg2, &public, &sig));

    assert!(!goldreich.verify(msg1, &public, &sig));
}

#[test]
fn sphincs_it_works() {
    let msg1 = b"My OS update";
    let msg2 = b"My important message";

    let fts = Horst::new(16, 32);
    let sphincs = Sphincs::new(12, 5, Winternitz::new(16), fts);

    let (private, public) = sphincs.gen_keys(None);

    let sig = sphincs.sign(msg1, &private);
    assert!(sphincs.verify(msg1, &public, &sig));

    let sig = sphincs.sign(msg2, &private);
    assert!(sphincs.verify(msg2, &public, &sig));

    assert!(!sphincs.verify(msg1, &public, &sig));
}

#[test]
fn sphincs_over_merkle_few_time_scheme() {
    let msg1 = b"My OS update";
    let msg2 = b"My important message";

    let fts = Merkle::new(2, Lamport::new(64));
    let sphincs = Sphincs::new(12, 5, Lamport::new(32), fts);

    let (private, public) = sphincs.gen_keys(Some(U256::from([7u8; 32])));

    let sig = sphincs.sign(msg1, &private);
    assert!(sphincs.verify(msg1, &public, &sig));
    assert_eq!(sig.path.len(), 12);

    let sig = sphincs.sign(msg2, &private);
    assert!(sphincs.verify(msg2, &public, &sig));

    assert!(!sphincs.verify(msg1, &public, &sig));
}

#[test]
fn sphincs_gen_keys_is_deterministic_with_seed() {
    let sphincs = Sphincs::new(12, 5, Winternitz::new(16), Horst::new(16, 32));
    let seed = U256::from([42u8; 32]);
    let (sk_a, pk_a) = sphincs.gen_keys(Some(seed));
    let (sk_b, pk_b) = sphincs.gen_keys(Some(seed));
    assert!(sk_a.0 == sk_b.0);
    assert!(sk_a.1 == sk_b.1);
    assert!(pk_a == pk_b);
    let (sk_c, pk_c) = sphincs.gen_keys(Some(U256::from([43u8; 32])));
    assert!(sk_c.0 != sk_a.0);
    assert!(pk_c != pk_a);
}

#[test]
fn sphincs_signing_is_deterministic_per_message() {
    let sphincs = Sphincs::new(3, 2, Winternitz::new(16), Horst::new(8, 8));
    let (private, public) = sphincs.gen_keys(Some(U256::from([5u8; 32])));
    let s1 = sphincs.sign(b"message", &private);
    let s2 = sphincs.sign(b"message", &private);
    assert!(s1.random == s2.random);
    assert!(s1.fts_public == s2.fts_public);
    assert_eq!(s1.path.len(), 3);
    assert!(sphincs.verify(b"message", &public, &s1));
    assert!(!sphincs.verify(b"massage", &public, &s1));
}

#[test]
fn sphincs_transform_msg_is_sha512_of_random_and_message() {
    let sphincs = Sphincs::new(1, 1, Lamport::new(32), Horst::new(8, 8));
    let random = U256::new();
    let a = sphincs.transform_msg(b"abc", &random);
    let b = sphincs.transform_msg(b"abd", &random);
    assert_eq!(a.len(), 64);
    assert_ne!(a, b);
    let mut input = vec![0u8; 32];
    input.extend_from_slice(b"abc");
    assert_ne!(&a[..], &input[..a.len().min(input.len())]);
    assert_eq!(a, sphincs.transform_msg(b"abc", &random));
}
