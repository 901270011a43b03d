//! Reply round trips: a packet carries a prepared reply block, and the
//! receiver answers along it without ever learning the path back.

use mesher::crypto::{encrypt, sign};
use mesher::debug_transports::{InMemory, SharedStore};
use mesher::{Mesher, Packet};

fn make_unsigned(store: &SharedStore, name: &str) -> (Mesher, encrypt::PublicKey) {
    let (pk, sk) = encrypt::gen_keypair();
    let mut m = Mesher::unsigned(vec![sk]);
    m.register_transport("inmem", InMemory::with_store(store.handle()));
    m.listen_on(&format!("inmem:{}", name)).expect("failed to listen");
    (m, pk)
}

fn make_signed(
    store: &SharedStore,
    name: &str,
    pkey: &sign::PublicKey,
) -> (Mesher, encrypt::PublicKey) {
    let (pk, sk) = encrypt::gen_keypair();
    let mut mesh = Mesher::signed(vec![sk], vec![pkey.clone()]);
    mesh.register_transport("inmem", InMemory::with_store(store.handle()));
    mesh.listen_on(&format!("inmem:{}", name)).expect("Failed to listen");
    (mesh, pk)
}

#[test]
fn send_with_reply() {
    let store = SharedStore::new();
    let (mut m_sender, pk_sender) = make_unsigned(&store, "sender");
    let (mut m_receiver, pk_receiver) = make_unsigned(&store, "receiver");

    let mut packet = Packet::unsigned();
    packet.add_hop("inmem:receiver".to_owned(), &pk_sender);
    let rh = packet.add_reply_path().expect("Failed to add reply path");
    rh.add_hop(&mut packet, "inmem:sender".to_owned(), &pk_receiver);
    rh.use_for_message(&mut packet, &[1], &pk_receiver);

    m_sender.launch(packet).expect("Failed to send message");

    let messages = m_receiver.receive().expect("Failed to receive message");
    let message = &messages[0];
    assert_eq!(&[1], message.contents());

    m_receiver.reply(message, &[2], &pk_sender).expect("Failed to send reply");

    let replies = m_sender.receive().expect("Failed to receive reply");
    let reply = &replies[0];
    assert_eq!(&[2], reply.contents());
}

#[test]
fn send_with_reply_unsigned() {
    let store = SharedStore::new();
    let (mut sender, sender_pk) = make_unsigned(&store, "rt_sender");
    let (mut receiver, receiver_pk) = make_unsigned(&store, "rt_receiver");

    let mut packet = Packet::unsigned();
    packet.add_hop("inmem:rt_receiver".to_owned(), &sender_pk);
    let rh = packet.add_reply_path().expect("Failed to add reply path");
    rh.add_hop(&mut packet, "inmem:rt_sender".to_owned(), &receiver_pk);
    rh.use_for_message(&mut packet, &[1], &receiver_pk);

    sender.launch(packet).expect("Failed to send message");

    let messages = receiver.receive().expect("Failed to receive message");
    let message = &messages[0];
    assert_eq!(&[1], message.contents());
    assert!(message.has_reply_path());

    let mut reply_packet = Packet::unsigned();
    reply_packet.reply_to(message).expect("message had no reply path");
    reply_packet.add_message(&[2], &sender_pk);

    receiver.launch(reply_packet).expect("failed to send reply");

    let replies = sender.receive().expect("Failed to receive reply");
    let reply = &replies[0];
    assert_eq!(&[2], reply.contents());
}

#[test]
fn send_with_reply_signed() {
    let store = SharedStore::new();
    let (signing_pk, signing_sk) = sign::gen_keypair();
    let (mut sender, sender_pk) = make_signed(&store, "s_sender", &signing_pk);
    let (mut receiver, receiver_pk) = make_signed(&store, "s_receiver", &signing_pk);

    let mut packet = Packet::signed(signing_sk.clone());
    packet.add_hop("inmem:s_receiver".to_owned(), &sender_pk);
    let rh = packet.add_reply_path().expect("Failed to add reply path");
    rh.add_hop(&mut packet, "inmem:s_sender".to_owned(), &receiver_pk);
    rh.use_for_message(&mut packet, &[1], &receiver_pk);

    sender.launch(packet).expect("Failed to send message");

    let messages = receiver.receive().expect("Failed to receive message");
    let message = &messages[0];
    assert_eq!(&[1], message.contents());

    let mut reply_packet = Packet::signed(signing_sk.clone());
    reply_packet.reply_to(message).expect("message had no reply path");
    reply_packet.add_message(&[2], &sender_pk);

    receiver.launch(reply_packet).expect("failed to send reply");

    let replies = sender.receive().expect("Failed to receive reply");
    let reply = &replies[0];
    assert_eq!(&[2], reply.contents());
}

#[test]
fn send_with_reply_signed_helper() {
    let store = SharedStore::new();
    let (signing_pk, signing_sk) = sign::gen_keypair();
    let (mut sender, sender_pk) = make_signed(&store, "h_sender", &signing_pk);
    let (mut receiver, receiver_pk) = make_signed(&store, "h_receiver", &signing_pk);

    let mut packet = Packet::signed(signing_sk.clone());
    packet.add_hop("inmem:h_receiver".to_owned(), &sender_pk);
    let rh = packet.add_reply_path().expect("Failed to add reply path");
    rh.add_hop(&mut packet, "inmem:h_sender".to_owned(), &receiver_pk);
    rh.use_for_message(&mut packet, &[1], &receiver_pk);

    sender.launch(packet).expect("Failed to send message");

    let messages = receiver.receive().expect("Failed to receive message");
    let message = &messages[0];
    assert_eq!(&[1], message.contents());

    receiver
        .signed_reply(message, &[2], &sender_pk, signing_sk.clone())
        .expect("Failed to send reply");

    let replies = sender.receive().expect("Failed to receive reply");
    let reply = &replies[0];
    assert_eq!(&[2], reply.contents());
}

#[test]
fn reply_without_path_fails() {
    let store = SharedStore::new();
    let (mut sender, sender_pk) = make_unsigned(&store, "np_sender");
    let (mut receiver, _receiver_pk) = make_unsigned(&store, "np_receiver");

    // the message carries no reply block at all
    let (receiver2_pk, receiver2_sk) = encrypt::gen_keypair();
    let mut receiver2 = Mesher::unsigned(vec![receiver2_sk]);
    receiver2.register_transport("inmem", InMemory::with_store(store.handle()));
    receiver2.listen_on("inmem:np_r2").expect("failed to listen");

    let mut packet = Packet::unsigned();
    packet.add_hop("inmem:np_r2".to_owned(), &sender_pk);
    packet.add_message(&[9], &receiver2_pk);
    sender.launch(packet).expect("failed to send");

    let messages = receiver2.receive().expect("failed to receive");
    assert_eq!(messages.len(), 1);
    assert!(!messages[0].has_reply_path());

    match receiver2.reply(&messages[0], &[1], &sender_pk) {
        Err(mesher::fail::MesherFail::NoReplyRoute) => (),
        _ => unreachable!(),
    }

    let mut reply_packet = Packet::unsigned();
    match reply_packet.reply_to(&messages[0]) {
        Err(mesher::fail::MesherFail::NoReplyRoute) => (),
        _ => unreachable!(),
    }

    let _ = &mut receiver;
}
