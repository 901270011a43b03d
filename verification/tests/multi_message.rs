//! Several messages in one packet, fanned out to different receivers,
//! between unsigned meshers.

use mesher::crypto::encrypt;
use mesher::debug_transports::{InMemory, SharedStore};
use mesher::{Mesher, Packet};

fn make_mesher(store: &SharedStore, name: &str) -> (Mesher, encrypt::PublicKey) {
    let (pk, sk) = encrypt::gen_keypair();
    let mut mesh = Mesher::unsigned(vec![sk]);
    mesh.register_transport("inmem", InMemory::with_store(store.handle()));
    mesh.listen_on(&format!("inmem:{}", name)).expect("Failed to listen");
    (mesh, pk)
}

#[test]
fn multi_message_direct() {
    let store = SharedStore::new();
    let (mut sender, sender_pk) = make_mesher(&store, "direct_sender");
    let (mut dest1, dest1_pk) = make_mesher(&store, "direct_dest1");
    let (mut dest2, dest2_pk) = make_mesher(&store, "direct_dest2");

    let mut packet = Packet::unsigned();
    packet.add_hop("inmem:direct_dest1".to_owned(), &sender_pk);
    packet.add_hop("inmem:direct_dest2".to_owned(), &sender_pk);
    packet.add_message(&[1], &dest1_pk);
    packet.add_message(&[2], &dest2_pk);

    sender.launch(packet).expect("failed to launch packet");

    let received1 = dest1.receive().expect("failed to receive at 1");
    assert_eq!(vec![vec![1]], received1.iter().map(|m| m.contents()).collect::<Vec<_>>());

    let received2 = dest2.receive().expect("failed to receive at 2");
    assert_eq!(vec![vec![2]], received2.iter().map(|m| m.contents()).collect::<Vec<_>>());
}

#[test]
fn multi_message_one_hop() {
    let store = SharedStore::new();
    let (mut sender, sender_pk) = make_mesher(&store, "onehop_sender");
    let (mut im, im_pk) = make_mesher(&store, "onehop_im");
    let (mut dest1, dest1_pk) = make_mesher(&store, "onehop_dest1");
    let (mut dest2, dest2_pk) = make_mesher(&store, "onehop_dest2");

    let mut packet = Packet::unsigned();
    packet.add_hop("inmem:onehop_im".to_owned(), &sender_pk);
    packet.add_hop("inmem:onehop_dest1".to_owned(), &im_pk);
    packet.add_hop("inmem:onehop_dest2".to_owned(), &im_pk);
    packet.add_message(&[1], &dest1_pk);
    packet.add_message(&[2], &dest2_pk);

    sender.launch(packet).expect("failed to launch to dest2");

    // will bounce the message along to dest1 and dest2
    im.receive().expect("failed to receive at im");

    let received1 = dest1.receive().expect("failed to receive at 1");
    assert_eq!(vec![vec![1]], received1.iter().map(|m| m.contents()).collect::<Vec<_>>());

    let received2 = dest2.receive().expect("failed to receive at 2");
    assert_eq!(vec![vec![2]], received2.iter().map(|m| m.contents()).collect::<Vec<_>>());
}

#[test]
fn all_messages_received() {
    let store = SharedStore::new();
    let (mut sender, sender_pk) = make_mesher(&store, "fanout_sender");

    let (r1_pk, r1_sk) = encrypt::gen_keypair();
    let mut recvr1 = Mesher::unsigned(vec![r1_sk]);
    recvr1.register_transport("inmem", InMemory::with_store(store.handle()));
    recvr1.listen_on("inmem:r1").expect("Failed to listen");

    let (r2_pk, r2_sk) = encrypt::gen_keypair();
    let mut recvr2 = Mesher::unsigned(vec![r2_sk]);
    recvr2.register_transport("inmem", InMemory::with_store(store.handle()));
    recvr2.listen_on("inmem:r2").expect("Failed to listen");

    let mut packet = Packet::unsigned();
    packet.add_message(&[1], &r1_pk);
    packet.add_message(&[2], &r2_pk);
    packet.add_hop("inmem:r1".to_owned(), &sender_pk);
    packet.add_hop("inmem:r2".to_owned(), &sender_pk);

    sender.launch(packet).expect("failed to launch");

    let recvd1 = recvr1.receive().expect("failed to recv at 1");
    assert_eq!(vec![vec![1]], recvd1.iter().map(|m| m.contents()).collect::<Vec<_>>());

    let recvd2 = recvr2.receive().expect("failed to recv at 2");
    assert_eq!(vec![vec![2]], recvd2.iter().map(|m| m.contents()).collect::<Vec<_>>());
}

#[test]
fn fan_in_two_messages_at_one_node() {
    let store = SharedStore::new();
    let (mut sender, sender_pk) = make_mesher(&store, "fanin_sender");
    let (mut r, r_pk) = make_mesher(&store, "fanin_r");

    let mut packet = Packet::unsigned();
    packet.add_message(&[1], &r_pk);
    packet.add_message(&[2], &r_pk);
    packet.add_hop("inmem:fanin_r".to_owned(), &sender_pk);

    sender.launch(packet).expect("failed to launch");

    let mut contents = r
        .receive()
        .expect("failed to receive")
        .into_iter()
        .map(|m| m.into_contents())
        .collect::<Vec<_>>();
    contents.sort();
    assert_eq!(contents, vec![vec![1], vec![2]]);
}
