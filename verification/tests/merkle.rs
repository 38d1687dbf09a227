use rcmerkle::{
    BetterMerkleTreeKeccak256, BetterMerkleTreeSHA256, Keccak256, MerkleTreeKeccak256,
    MerkleTreeSHA256, SHA256,
};

fn sha(s: &str) -> SHA256 {
    <SHA256 as rcmerkle::Hash>::hash(s.as_bytes())
}

fn kec(s: &str) -> Keccak256 {
    <Keccak256 as rcmerkle::Hash>::hash(s.as_bytes())
}

fn sha_hex(h: &SHA256) -> String {
    <SHA256 as rcmerkle::Hash>::to_string(h)
}

fn kec_hex(h: &Keccak256) -> String {
    <Keccak256 as rcmerkle::Hash>::to_string(h)
}

#[test]
fn test_sha256() {
    let list = [
        "a", "b", "c", "d", "e", "f", "g", "h", "i", "j", "k", "l", "m", "n",
    ];
    let hashed_list: Vec<SHA256> = list.iter().map(|v| sha(v)).collect();
    let mut better_merkle = BetterMerkleTreeSHA256::new();

    for i in 0..hashed_list.len() {
        let root1 = MerkleTreeSHA256::root(hashed_list[0..i + 1].to_vec());
        let root2 = better_merkle.root(hashed_list[i].clone());
        assert_eq!(root1, root2);
    }
}

#[test]
fn test_keccak() {
    let list = [
        "a", "b", "c", "d", "e", "f", "g", "h", "i", "j", "k", "l", "m", "n",
    ];
    let hashed_list: Vec<Keccak256> = list.iter().map(|v| kec(v)).collect();
    let mut better_merkle = BetterMerkleTreeKeccak256::new();

    for i in 0..hashed_list.len() {
        let root1 = MerkleTreeKeccak256::root(hashed_list[0..i + 1].to_vec());
        let root2 = better_merkle.root(hashed_list[i].clone());
        assert_eq!(root1, root2);
    }
}

#[test]
fn empty_root_is_zero_digest() {
    let root = MerkleTreeSHA256::root(vec![]);
    assert_eq!(root, <SHA256 as rcmerkle::Hash>::default_v());
    let root3 = MerkleTreeKeccak256::root(vec![]);
    assert_eq!(root3, <Keccak256 as rcmerkle::Hash>::default_v());
}

#[test]
fn single_leaf_is_its_own_root() {
    let x = sha("lonely");
    assert_eq!(MerkleTreeSHA256::root(vec![x]), x);
    let y = kec("lonely");
    assert_eq!(MerkleTreeKeccak256::root(vec![y]), y);
}

#[test]
fn odd_list_matches_explicit_duplicate() {
    let leaves = vec![sha("a"), sha("b"), sha("c")];
    let mut doubled = leaves.clone();
    doubled.push(leaves[2]);
    assert_eq!(
        MerkleTreeSHA256::root(leaves),
        MerkleTreeSHA256::root(doubled)
    );

    let five = vec![sha("a"), sha("b"), sha("c"), sha("d"), sha("e")];
    let mut six = five.clone();
    six.push(five[4]);
    assert_eq!(MerkleTreeSHA256::root(five), MerkleTreeSHA256::root(six));
}

#[test]
fn families_are_deterministic_but_disagree() {
    let words = ["a", "b", "c", "d"];
    let sha_leaves: Vec<SHA256> = words.iter().map(|v| sha(v)).collect();
    let kec_leaves: Vec<Keccak256> = words.iter().map(|v| kec(v)).collect();

    let sha_root_once = MerkleTreeSHA256::root(sha_leaves.clone());
    let sha_root_twice = MerkleTreeSHA256::root(sha_leaves);
    assert_eq!(sha_root_once, sha_root_twice);

    let kec_root_once = MerkleTreeKeccak256::root(kec_leaves.clone());
    let kec_root_twice = MerkleTreeKeccak256::root(kec_leaves);
    assert_eq!(kec_root_once, kec_root_twice);

    assert_eq!(sha("a"), sha("a"));
    assert_eq!(kec("a"), kec("a"));

    assert_ne!(sha_hex(&sha_root_once), kec_hex(&kec_root_once));
}

#[test]
fn save_and_restore_agree_on_next_feed() {
    let mut original = BetterMerkleTreeSHA256::new();
    original.root(sha("a"));
    original.root(sha("b"));
    let root_at_save = original.root(sha("c"));

    let saved: Vec<SHA256> = original.helper().clone();
    let mut restored = BetterMerkleTreeSHA256::load(saved);

    assert_eq!(
        *restored.now(),
        <SHA256 as rcmerkle::Hash>::default_v(),
        "load resets the root; the caller tracks it across the save point"
    );
    assert_eq!(*original.now(), root_at_save);

    let from_original = original.root(sha("d"));
    let from_restored = restored.root(sha("d"));
    assert_eq!(from_original, from_restored);
    assert_eq!(*restored.now(), from_restored);
}

#[test]
fn sha256_encoding_matches_known_digest() {
    let h = sha("a");
    assert_eq!(
        sha_hex(&h),
        "0xca978112ca1bbdcafac231b39a23dc4da786eff8147c4e72b9807785afee48bb"
    );
    let bytes = <SHA256 as rcmerkle::Hash>::encode(&h);
    assert_eq!(
        bytes,
        sha_hex(&h).as_bytes().to_vec(),
        "the string form and the byte form are the same encoding"
    );
}

#[test]
fn sha3_256_encoding_matches_known_digest() {
    let h = kec("a");
    assert_eq!(
        kec_hex(&h),
        "0x80084bf2fba02475726feb2cab2d8215eab14bc6bdd8bfb2c8151257032ecd8b"
    );
}

#[test]
fn zero_digest_encodes_as_zeros() {
    let zero = <SHA256 as rcmerkle::Hash>::default_v();
    assert_eq!(
        sha_hex(&zero),
        "0x0000000000000000000000000000000000000000000000000000000000000000"
    );
}

#[test]
fn two_leaves_hash_concatenated_encodings() {
    let a = sha("a");
    let b = sha("b");
    let mut cat = sha_hex(&a);
    cat.push_str(&sha_hex(&b));
    let expected = <SHA256 as rcmerkle::Hash>::hash(cat.as_bytes());
    assert_eq!(MerkleTreeSHA256::root(vec![a, b]), expected);
}
