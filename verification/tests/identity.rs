use hosteld::identity::{
    avatar_sha256,
    contact_file_name, contact_file_to_load, derive_contact_id, find_contacts_by_nickname,
    load_all_contacts, now_timestamp, old_contact_file_name, pubkey_hex, same_key,
    stale_contact_file, Contact, Identity, KeyPair,
};

fn contact(nickname: &str, key: u8, last_seen: &str) -> Contact {
    Contact {
        fingerprint: format!("fp{}", key),
        pubkey: [key; 32],
        nickname: nickname.to_string(),
        contact_id: format!("id{}", key),
        first_seen: "0".to_string(),
        last_seen: last_seen.to_string(),
        last_address: String::new(),
        last_port: String::new(),
        call_count: 0,
    }
}

fn bytes(hex: &str) -> [u8; 32] {
    let mut out = [0u8; 32];
    for i in 0..32 {
        out[i] = u8::from_str_radix(&hex[2 * i..2 * i + 2], 16).unwrap();
    }
    out
}

#[test]
fn key_in_hexadecimal() {
    let mut key = [0u8; 32];
    key[0] = 0xab;
    key[31] = 0x0f;
    let expected = format!("ab{}0f", "0".repeat(60));
    assert_eq!(pubkey_hex(&key), expected);
}

#[test]
fn different_keys_have_different_hexadecimals() {
    let mut key = [0u8; 32];
    key[31] = 0x10;
    assert_ne!(pubkey_hex(&key), pubkey_hex(&[0u8; 32]));
}

#[test]
fn contact_identifier_of_two_keys() {
    assert_eq!(derive_contact_id(&[1u8; 32], &[2u8; 32]), "fd3d8e78505c5b8c");
}

#[test]
fn both_peers_derive_the_same_identifier() {
    let (a, b) = ([7u8; 32], [9u8; 32]);
    assert_eq!(derive_contact_id(&a, &b), derive_contact_id(&b, &a));
    assert_ne!(derive_contact_id(&a, &b), derive_contact_id(&a, &a));
}

#[test]
fn public_key_of_a_known_secret() {
    let secret = bytes("77076d0a7318a57d3c16c17251b26645df4c2f87ebc0992ab177fba51db92c2a");
    let public = bytes("8520f0098930a754748b7ddcb43ef75a0dbf3a0d26381af4eba4a98eaa9b4e6a");
    let pair = KeyPair::of_secret(secret);
    assert_eq!(pair.secret, secret);
    assert_eq!(pair.pubkey, public);
}

#[test]
fn fresh_keys_differ_and_fit_together() {
    let a = KeyPair::generate();
    let b = KeyPair::generate();
    assert!(a.secret != b.secret);
    assert_eq!(KeyPair::of_secret(a.secret).pubkey, a.pubkey);
}

#[test]
fn key_file_can_be_read_back() {
    let pair = KeyPair::of_secret([5u8; 32]);
    let file = pair.to_bytes();
    assert_eq!(file.len(), 64);
    let again = Identity::load_or_create(Some(&file));
    assert_eq!(again.secret, pair.secret);
    assert_eq!(again.pubkey, pair.pubkey);
}

#[test]
fn short_key_file_is_corrupt() {
    match KeyPair::from_bytes(&[0u8; 63]) {
        Ok(_) => panic!("a short key file"),
        Err(e) => assert_eq!(e.len, 63),
    }
    match KeyPair::from_bytes(&[0u8; 65]) {
        Ok(_) => panic!("a long key file"),
        Err(e) => assert_eq!(e.len, 65),
    }
}

#[test]
fn without_a_key_file_keys_are_made() {
    let pair = Identity::load_or_create(None);
    let public = pair.pubkey;
    let me = Identity::new(pair, "#ABC".to_string());
    assert_eq!(me.pubkey, public);
    assert_eq!(me.fingerprint, "#ABC");
}

#[test]
fn contact_files() {
    let key = [0xcdu8; 32];
    assert_eq!(contact_file_name(&key), format!("{}.json", "cd".repeat(32)));
    assert_eq!(old_contact_file_name("#AB"), "#AB.json");
    let c = contact("ann", 0xcd, "1");
    assert_eq!(stale_contact_file(&c, true), Some("fp205.json".to_string()));
    assert_eq!(stale_contact_file(&c, false), None);
    assert_eq!(contact_file_to_load(&key, "#AB", true, true), Some(contact_file_name(&key)));
    assert_eq!(contact_file_to_load(&key, "#AB", false, true), Some("#AB.json".to_string()));
    assert_eq!(contact_file_to_load(&key, "#AB", false, false), None);
}

#[test]
fn contacts_by_nickname() {
    let all = vec![contact("ann", 1, "1"), contact("bob", 2, "2"), contact("ann", 3, "3")];
    let found = find_contacts_by_nickname(&all, "ann");
    assert_eq!(found.len(), 2);
    assert_eq!(found[0].contact_id, "id1");
    assert_eq!(found[1].contact_id, "id3");
    assert_eq!(find_contacts_by_nickname(&all, "").len(), 0);
    assert_eq!(find_contacts_by_nickname(&all, "Ann").len(), 0);
}

#[test]
fn contacts_seen_last_come_first() {
    let all = vec![
        contact("old", 1, "100"),
        contact("new", 2, "300"),
        contact("tied", 3, "100"),
        contact("mid", 4, "200"),
    ];
    let sorted = load_all_contacts(all);
    let names: Vec<&str> = sorted.iter().map(|c| c.nickname.as_str()).collect();
    assert_eq!(names, vec!["new", "mid", "old", "tied"]);
}

#[test]
fn timestamp_is_decimal() {
    assert_eq!(now_timestamp(0), "0");
    assert_eq!(now_timestamp(1_700_000_000), "1700000000");
    assert_eq!(now_timestamp(u64::MAX), "18446744073709551615");
}

#[test]
fn keys_are_compared_whole() {
    let mut other = [4u8; 32];
    assert!(same_key(&[4u8; 32], &other));
    other[31] = 5;
    assert!(!same_key(&[4u8; 32], &other));
}

#[test]
fn pictures_have_digests() {
    let expected = bytes("ba7816bf8f01cfea414140de5dae2223b00361a396177a9cb410ff61f20015ad");
    assert_eq!(avatar_sha256(b"abc"), expected);
}

#[test]
fn contacts_have_files_of_their_own() {
    let mut key = [0u8; 32];
    let first = contact_file_name(&key);
    key[0] = 1;
    assert_ne!(first, contact_file_name(&key));
}
