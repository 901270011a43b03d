//! Packet building, serialization, and parsing, exercised directly.

use std::collections::HashMap;

use mesher::crypto::{encrypt, sign};
use mesher::{Chunk, Packet};

#[test]
fn unsigned_serialized_deserializable() {
    let (pk1, sk1) = encrypt::gen_keypair();
    let (pk2, sk2) = encrypt::gen_keypair();

    let mut packet = Packet::unsigned();
    packet.add_hop("hello".to_owned(), &pk1);
    packet.add_message(&[1, 2, 3], &pk2);
    let packet = packet.serialize().expect("Failed to serialize packet");

    let dec1 = Packet::deserialize(&packet, &[sk1]).expect("Failed to deserialize packets");
    assert!(dec1.contains(&Chunk::Transport("hello".to_owned())));

    let dec2 = Packet::deserialize(&packet, &[sk2]).expect("Failed to deserialize packets");
    assert!(dec2.contains(&Chunk::Message(vec![1, 2, 3], None)));
}

#[test]
fn signed_serialized_deserializable() {
    let (pks, sks) = sign::gen_keypair();
    let (pk1, sk1) = encrypt::gen_keypair();
    let (pk2, sk2) = encrypt::gen_keypair();

    let mut packet = Packet::signed(sks);
    packet.add_hop("hello".to_owned(), &pk1);
    packet.add_message(&[1, 2, 3], &pk2);
    let packet = packet.serialize().expect("Failed to serialize packet");

    let dec1 =
        Packet::deserialize_signed(&packet, &[sk1], &[pks.clone()]).expect("Failed to deserialize packets");
    assert!(dec1.contains(&Chunk::Transport("hello".to_owned())));

    let dec2 =
        Packet::deserialize_signed(&packet, &[sk2], &[pks]).expect("Failed to deserialize packets");
    assert!(dec2.contains(&Chunk::Message(vec![1, 2, 3], None)));
}

#[test]
fn all_functions_compile() {
    let (pk, _) = encrypt::gen_keypair();
    let mut packet = Packet::unsigned();

    packet.add_hop("foo1".to_owned(), &pk);
    packet.add_message(&[1], &pk);

    let rh1 = packet.add_reply_path().expect("Failed to add reply handle 1");
    rh1.add_hop(&mut packet, "foo2".to_owned(), &pk);
    rh1.use_for_message(&mut packet, &[2], &pk);

    let rh2 = packet.add_reply_path().expect("Failed to add reply handle 2");
    rh2.add_hop(&mut packet, "foo4".to_owned(), &pk);
    rh2.use_for_message(&mut packet, &[4], &pk);
}

#[test]
fn replies_match() {
    let (pk, sk) = encrypt::gen_keypair();
    let (tpk, _) = encrypt::gen_keypair();
    let bytes = {
        let mut packet = Packet::unsigned();

        packet.add_hop("foo1".to_owned(), &tpk);
        packet.add_message(&[1], &pk);

        let rh1 = packet.add_reply_path().expect("Failed to add reply handle 1");
        rh1.add_hop(&mut packet, "foo2".to_owned(), &tpk);
        rh1.use_for_message(&mut packet, &[2], &pk);
        rh1.use_for_message(&mut packet, &[3], &pk);

        let rh2 = packet.add_reply_path().expect("Failed to add reply handle 2");
        rh2.add_hop(&mut packet, "foo4".to_owned(), &tpk);
        rh2.use_for_message(&mut packet, &[4], &pk);
        rh2.use_for_message(&mut packet, &[5], &pk);

        packet.serialize().expect("Failed to serialize packet")
    };

    let deser = Packet::deserialize(&bytes, &[sk]).expect("Failed to deserialize");
    let mut messages = HashMap::new();
    for chunk in deser {
        if let Chunk::Message(data, rep) = chunk {
            messages.insert(data[0], rep);
        }
    }

    // first message has no reply path
    assert_eq!(messages[&1], None);

    // 2 and 3 should have the same reply path; same for 4 and 5
    assert_eq!(messages[&2], messages[&3]);
    assert_eq!(messages[&4], messages[&5]);

    // neither 2/3 nor 4/5 should be None
    assert_ne!(messages[&2], None);
    assert_ne!(messages[&4], None);
    // and 2/3 and 4/5 should be different
    assert_ne!(messages[&3], messages[&4]);
}

#[test]
fn signed_replies_match() {
    let (rpk, rsk) = encrypt::gen_keypair();
    let (spk, ssk) = sign::gen_keypair();
    let (tpk, _) = encrypt::gen_keypair();
    let bytes = {
        let mut packet = Packet::signed(ssk);

        packet.add_hop("foo1".to_owned(), &tpk);
        packet.add_message(&[1], &rpk);

        let rh1 = packet.add_reply_path().expect("Failed to add reply handle 1");
        rh1.add_hop(&mut packet, "foo2".to_owned(), &tpk);
        rh1.use_for_message(&mut packet, &[2], &rpk);
        rh1.use_for_message(&mut packet, &[3], &rpk);

        let rh2 = packet.add_reply_path().expect("Failed to add reply handle 2");
        rh2.add_hop(&mut packet, "foo4".to_owned(), &tpk);
        rh2.use_for_message(&mut packet, &[4], &rpk);
        rh2.use_for_message(&mut packet, &[5], &rpk);

        packet.serialize().expect("Failed to serialize packet")
    };

    let deser = Packet::deserialize_signed(&bytes, &[rsk], &[spk]).expect("Failed to deserialize");
    let mut messages = HashMap::new();
    for chunk in deser {
        if let Chunk::Message(data, rep) = chunk {
            messages.insert(data[0], rep);
        }
    }

    // first message has no reply path
    assert_eq!(messages[&1], None);

    // 2 and 3 should have the same reply path; same for 4 and 5
    assert_eq!(messages[&2], messages[&3]);
    assert_eq!(messages[&4], messages[&5]);

    // neither 2/3 nor 4/5 should be None
    assert_ne!(messages[&2], None);
    assert_ne!(messages[&4], None);
    // and 2/3 and 4/5 should be different
    assert_ne!(messages[&3], messages[&4]);
}

#[test]
fn unknown_tags_and_bad_utf8_are_dropped() {
    // a message chunk with an unknown tag, or a transport chunk whose URL is
    // not UTF-8, decodes to nothing
    let replies: Vec<std::sync::Arc<Vec<Vec<u8>>>> = Vec::new();
    assert_eq!(Chunk::deserialize(&vec![7, 1, 2], &replies), None);
    assert_eq!(Chunk::deserialize(&vec![1, 0xff, 0xfe], &replies), None);
    assert_eq!(
        Chunk::deserialize(&vec![1, b'h', b'i'], &replies),
        Some(Chunk::Transport("hi".to_owned()))
    );
    assert_eq!(
        Chunk::deserialize(&vec![0, 0, 9], &replies),
        Some(Chunk::Message(vec![9], None))
    );
    // a reply reference past the last reply block drops the chunk
    assert_eq!(Chunk::deserialize(&vec![0, 1, 9], &replies), None);
}

#[test]
fn wrong_key_cannot_decrypt() {
    let (pk1, _sk1) = encrypt::gen_keypair();
    let (_pk2, sk2) = encrypt::gen_keypair();

    let ciphertext = pk1.encrypt(&[1, 2, 3]);
    assert_eq!(sk2.decrypt(&ciphertext), None);
}

#[test]
fn derived_public_key_matches() {
    let (pk, sk) = encrypt::gen_keypair();
    let derived = sk.pkey();
    assert_eq!(pk.as_bytes(), derived.as_bytes());

    let rebuilt = encrypt::SecretKey::of(vec![7u8; 32]).expect("32 bytes make a key");
    let ciphertext = rebuilt.pkey().encrypt(&[9]);
    assert_eq!(rebuilt.decrypt(&ciphertext), Some(vec![9]));
}

#[test]
fn wrong_signer_is_rejected() {
    let (_pk1, sk1) = sign::gen_keypair();
    let (pk2, _sk2) = sign::gen_keypair();

    let signed = sk1.sign(&[1, 2, 3]);
    assert_eq!(pk2.verify(&signed), None);
    assert_eq!(sk1.pkey().verify(&signed), Some(vec![1, 2, 3]));
}

#[test]
fn key_construction_checks_length() {
    assert!(encrypt::PublicKey::of(vec![0u8; 31]).is_none());
    assert!(encrypt::PublicKey::of(vec![0u8; 32]).is_some());
    assert!(encrypt::SecretKey::of(vec![0u8; 33]).is_none());
    assert!(sign::PublicKey::of(vec![0u8; 32]).is_some());
    // a signing secret key is derived from a 32-byte seed, never
    // assembled from loose bytes
    assert!(sign::SecretKey::of(vec![0u8; 32]).is_some());
    assert!(sign::SecretKey::of(vec![0u8; 64]).is_none());
}

#[test]
fn seeded_signing_key_roundtrip() {
    // deriving from the same seed gives the same key, and what it signs
    // verifies under its own public key
    let k1 = sign::SecretKey::of(vec![9u8; 32]).expect("32-byte seed makes a key");
    let k2 = sign::SecretKey::of(vec![9u8; 32]).expect("32-byte seed makes a key");
    let k1_pub = k1.pkey();
    let k2_pub = k2.pkey();
    assert_eq!(k1_pub.verify(&k2.sign(&[5, 6])), Some(vec![5, 6]));
    assert_eq!(k2_pub.verify(&k1.sign(&[7])), Some(vec![7]));

    let other = sign::SecretKey::of(vec![10u8; 32]).expect("32-byte seed makes a key");
    let other_pub = other.pkey();
    assert_eq!(other_pub.verify(&k1.sign(&[8])), None);
}
