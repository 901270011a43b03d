//! End-to-end delivery and forwarding between unsigned meshers, over the
//! in-memory transport under the `mock` scheme.

use mesher::crypto::encrypt;
use mesher::debug_transports::{InMemory, SharedStore};
use mesher::{Mesher, Packet};

fn make_mesher(store: &SharedStore, name: &str) -> (Mesher, encrypt::PublicKey) {
    let (pk, sk) = encrypt::gen_keypair();
    let mut m = Mesher::unsigned(vec![sk]);
    m.register_transport("mock", InMemory::with_store(store.handle()));
    m.listen_on(&format!("mock:{}", name)).expect("failed to listen");
    (m, pk)
}

#[test]
fn all_in_one_direct() {
    let store = SharedStore::new();
    let (mut m_root, k_root) = make_mesher(&store, "direct_root");
    let (mut m_dest, k_dest) = make_mesher(&store, "direct_dest");

    let mut packet = Packet::unsigned();
    packet.add_hop("mock:direct_dest".to_owned(), &k_root);
    packet.add_message(&[1], &k_dest);

    m_root.launch(packet).expect("Failed to send");

    let msgs = m_dest
        .receive()
        .expect("Failed to receive")
        .into_iter()
        .map(|m| m.into_contents())
        .collect::<Vec<_>>();

    assert_eq!(msgs, vec![vec![1]]);
}

#[test]
fn all_in_one_one_hop() {
    let store = SharedStore::new();
    let (mut m_root, k_root) = make_mesher(&store, "onehop_root");
    let (mut m_n1, k_n1) = make_mesher(&store, "onehop_n1");
    let (mut m_dest, k_dest) = make_mesher(&store, "onehop_dest");

    let mut packet = Packet::unsigned();
    packet.add_hop("mock:onehop_n1".to_owned(), &k_root);
    packet.add_hop("mock:onehop_dest".to_owned(), &k_n1);
    packet.add_message(&[1], &k_dest);

    m_root.launch(packet).expect("Failed to send");

    // will bounce the message along to m_dest
    m_n1.receive().expect("Failed to receive");

    let msgs = m_dest
        .receive()
        .expect("Failed to receive")
        .into_iter()
        .map(|m| m.into_contents())
        .collect::<Vec<_>>();

    assert_eq!(msgs, vec![vec![1]]);
}

#[test]
fn all_in_one_two_hops() {
    let store = SharedStore::new();
    let (mut m_root, k_root) = make_mesher(&store, "twohops_root");
    let (mut m_n1, k_n1) = make_mesher(&store, "twohops_n1");
    let (mut m_n2, k_n2) = make_mesher(&store, "twohops_n2");
    let (mut m_dest, k_dest) = make_mesher(&store, "twohops_dest");

    let mut packet = Packet::unsigned();
    packet.add_hop("mock:twohops_n1".to_owned(), &k_root);
    packet.add_hop("mock:twohops_n2".to_owned(), &k_n1);
    packet.add_hop("mock:twohops_dest".to_owned(), &k_n2);
    packet.add_message(&[1], &k_dest);

    m_root.launch(packet).expect("Failed to send");

    // will bounce the message along to m_n2
    m_n1.receive().expect("Failed to receive");
    // will bounce the message along to m_dest
    m_n2.receive().expect("Failed to receive");

    let msgs = m_dest
        .receive()
        .expect("Failed to receive")
        .into_iter()
        .map(|m| m.into_contents())
        .collect::<Vec<_>>();

    assert_eq!(msgs, vec![vec![1]]);
}
