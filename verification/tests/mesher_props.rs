//! Boundary behavior: key requirements, URL schemes, the reply-block
//! limit, signed-mode rejection, and shuffle invariance.

use mesher::crypto::{encrypt, sign};
use mesher::debug_transports::{InMemory, SharedStore};
use mesher::fail::MesherFail;
use mesher::{Mesher, Packet, Transport};

#[test]
fn empty_mesher_fails_receive() {
    let mut empty = Mesher::unsigned(vec![]);

    match empty.receive() {
        Err(MesherFail::NoKeys) => (),
        _ => unreachable!(),
    }
}

#[test]
fn listen_requires_known_scheme_and_colon() {
    let (_pk, sk) = encrypt::gen_keypair();
    let mut m = Mesher::unsigned(vec![sk]);
    m.register_transport("inmem", InMemory::with_store(SharedStore::new()));

    match m.listen_on("nowhere:path") {
        Err(MesherFail::UnregisteredScheme(_)) => (),
        _ => unreachable!(),
    }
    match m.listen_on("no-colon-here") {
        Err(MesherFail::InvalidURL(_)) => (),
        _ => unreachable!(),
    }
    match m.listen_on(":empty-scheme") {
        Err(MesherFail::InvalidURL(_)) => (),
        _ => unreachable!(),
    }
    assert!(m.listen_on("inmem:fine").is_ok());
}

#[test]
fn reply_paths_stop_at_the_limit() {
    let mut packet = Packet::unsigned();
    for _ in 0..255 {
        assert!(packet.add_reply_path().is_some());
    }
    assert!(packet.add_reply_path().is_none());
    // and again, to show it stays full
    assert!(packet.add_reply_path().is_none());
}

#[test]
fn garbage_is_an_invalid_packet() {
    let (_pk, sk) = encrypt::gen_keypair();
    match Packet::deserialize(&[1u8, 2, 3], &[sk]) {
        Err(MesherFail::InvalidPacket) => (),
        _ => unreachable!(),
    }
}

#[test]
fn empty_block_list_is_an_invalid_packet() {
    // a syntactically valid wire form that holds zero blocks
    let bytes = mesher::wire::encode_blocks(&Vec::new());
    let (_pk, sk) = encrypt::gen_keypair();
    match Packet::deserialize(&bytes, &[sk]) {
        Err(MesherFail::InvalidPacket) => (),
        _ => unreachable!(),
    }
}

#[test]
fn wire_form_is_exact() {
    let blocks: Vec<Vec<Vec<u8>>> = vec![vec![vec![0xaa, 0xbb]]];
    let bytes = mesher::wire::encode_blocks(&blocks);
    let expected: Vec<u8> = vec![
        1, 0, 0, 0, 0, 0, 0, 0, // one block
        1, 0, 0, 0, 0, 0, 0, 0, // of one chunk
        2, 0, 0, 0, 0, 0, 0, 0, // of two bytes
        0xaa, 0xbb,
    ];
    assert_eq!(bytes, expected);
    let decoded = mesher::wire::decode_blocks(&bytes).expect("round trip");
    assert_eq!(decoded, blocks);

    // trailing bytes are refused
    let mut padded = bytes.clone();
    padded.push(0);
    assert!(mesher::wire::decode_blocks(&padded).is_none());
}

#[test]
fn signed_packet_rejected_by_wrong_signer() {
    let store = SharedStore::new();
    let (_s1_pk, s1_sk) = sign::gen_keypair();
    let (s2_pk, _s2_sk) = sign::gen_keypair();

    let (a_own_pk, a_own_sk) = encrypt::gen_keypair();
    let mut a = Mesher::signed(vec![a_own_sk], vec![s2_pk.clone()]);
    a.register_transport("inmem", InMemory::with_store(store.handle()));

    let (b_pk, b_sk) = encrypt::gen_keypair();
    let mut b = Mesher::signed(vec![b_sk], vec![s2_pk]);
    b.register_transport("inmem", InMemory::with_store(store.handle()));
    b.listen_on("inmem:b").expect("failed to listen");

    // authored with signing key S1; B accepts only pk(S2)
    let mut packet = Packet::signed(s1_sk);
    packet.add_hop("inmem:b".to_owned(), &a_own_pk);
    packet.add_message(&[1, 2, 3], &b_pk);

    // A cannot read its own hop chunk either (it was signed with S1), so
    // hand the bytes to B directly, as a forwarding node would
    let bytes = packet.serialize().expect("failed to serialize");
    let mut carrier = InMemory::with_store(store.handle());
    carrier.send("inmem:b".to_owned(), bytes).expect("failed to send");

    let messages = b.receive().expect("receive must not error");
    assert!(messages.is_empty());
    let _ = &mut a;
}

#[test]
fn unsigned_packet_ignored_by_signed_mesher() {
    let store = SharedStore::new();
    let (s_pk, _s_sk) = sign::gen_keypair();

    let (b_pk, b_sk) = encrypt::gen_keypair();
    let mut b = Mesher::signed(vec![b_sk], vec![s_pk]);
    b.register_transport("inmem", InMemory::with_store(store.handle()));
    b.listen_on("inmem:b").expect("failed to listen");

    let mut packet = Packet::unsigned();
    packet.add_message(&[4], &b_pk);
    let bytes = packet.serialize().expect("failed to serialize");

    let mut carrier = InMemory::with_store(store.handle());
    carrier.send("inmem:b".to_owned(), bytes).expect("failed to send");

    let messages = b.receive().expect("receive must not error");
    assert!(messages.is_empty());
}

#[test]
fn shuffled_serializations_differ_but_parse_alike() {
    let (pk, sk) = encrypt::gen_keypair();
    let (tpk, _tsk) = encrypt::gen_keypair();

    let build = || {
        let mut packet = Packet::unsigned();
        packet.add_message(&[1], &pk);
        packet.add_message(&[2], &pk);
        packet.add_message(&[3], &pk);
        packet.add_hop("mem:somewhere".to_owned(), &tpk);
        packet.serialize().expect("failed to serialize")
    };
    let bytes1 = build();
    let bytes2 = build();

    // chunk encryption is randomized, so the wire forms differ
    assert_ne!(bytes1, bytes2);

    let collect = |bytes: &[u8]| {
        let mut contents: Vec<Vec<u8>> = Packet::deserialize(bytes, std::slice::from_ref(&sk))
            .expect("failed to parse")
            .into_iter()
            .filter_map(|c| match c {
                mesher::Chunk::Message(d, _) => Some(d),
                mesher::Chunk::Transport(_) => None,
            })
            .collect();
        contents.sort();
        contents
    };
    assert_eq!(collect(&bytes1), collect(&bytes2));
    assert_eq!(collect(&bytes1), vec![vec![1], vec![2], vec![3]]);
}

#[test]
fn launch_does_not_deliver_to_self() {
    let store = SharedStore::new();
    let (own_pk, own_sk) = encrypt::gen_keypair();
    let mut m = Mesher::unsigned(vec![own_sk]);
    m.register_transport("inmem", InMemory::with_store(store.handle()));
    m.listen_on("inmem:self").expect("failed to listen");

    // a message addressed to the launching mesher itself is discarded
    let mut packet = Packet::unsigned();
    packet.add_message(&[5], &own_pk);
    m.launch(packet).expect("launch must succeed");
    let messages = m.receive().expect("receive must not error");
    assert!(messages.is_empty());
}

#[test]
fn receive_with_no_transports_is_empty() {
    let (_pk, sk) = encrypt::gen_keypair();
    let mut m = Mesher::unsigned(vec![sk]);
    let messages = m.receive().expect("receive must succeed");
    assert!(messages.is_empty());
}

struct RefusingTransport;

impl Transport for RefusingTransport {
    fn new(_scheme: &str) -> Result<Self, MesherFail> {
        Ok(RefusingTransport)
    }

    fn send(&mut self, _path: String, _blob: Vec<u8>) -> Result<(), MesherFail> {
        // a transport has no business judging packet structure; the mesher
        // must report this as a send failure
        Err(MesherFail::InvalidPacket)
    }

    fn listen(&mut self, _path: String) -> Result<(), MesherFail> {
        Ok(())
    }

    fn receive(&mut self) -> Result<Vec<Vec<u8>>, MesherFail> {
        Ok(Vec::new())
    }
}

#[test]
fn transport_send_errors_are_send_failures() {
    let (own_pk, own_sk) = encrypt::gen_keypair();
    let mut m = Mesher::unsigned(vec![own_sk]);
    m.register_transport("refuse", RefusingTransport);

    let mut packet = Packet::unsigned();
    packet.add_hop("refuse:anywhere".to_owned(), &own_pk);

    match m.launch(packet) {
        Err(MesherFail::SendFailure(_)) => (),
        _ => unreachable!(),
    }
}
