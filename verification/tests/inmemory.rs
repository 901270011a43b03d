//! The in-memory debug transport, exercised on its own.

use mesher::debug_transports::InMemory;
use mesher::Transport;

#[test]
fn send_and_receive() {
    let mut t = InMemory::new("inmem").expect("Failed to create");

    t.listen("inmem:1".to_owned()).expect("Failed to listen");
    t.send("inmem:1".to_owned(), vec![1, 2, 3, 4]).expect("Failed to send");
    let recvd = t.receive().expect("Failed to receive");
    assert_eq!(recvd, vec![vec![1, 2, 3, 4]]);
}

#[test]
fn send_2_and_receive() {
    let mut t = InMemory::new("inmem").expect("Failed to create");

    t.listen("inmem:2".to_owned()).expect("Failed to listen");
    t.send("inmem:2".to_owned(), vec![1, 2, 3, 4]).expect("Failed to send");
    t.send("inmem:2".to_owned(), vec![5, 6, 7, 8]).expect("Failed to send");
    let recvd = t.receive().expect("Failed to receive");
    assert_eq!(recvd, vec![vec![1, 2, 3, 4], vec![5, 6, 7, 8]]);
}

#[test]
fn send_and_receive_out_of_order() {
    let mut t = InMemory::new("inmem").expect("Failed to create");

    t.send("inmem:3".to_owned(), vec![9, 10, 11, 12]).expect("Failed to send");
    t.listen("inmem:3".to_owned()).expect("Failed to listen");
    let recvd = t.receive().expect("Failed to receive");
    assert_eq!(recvd, vec![vec![9, 10, 11, 12]]);
}

#[test]
fn receive_blank() {
    let mut t = InMemory::new("inmem").expect("Failed to create");

    t.listen("inmem:4".to_owned()).expect("Failed to listen");
    let recvd = t.receive().expect("Failed to receive");
    assert_eq!(recvd, Vec::<Vec<u8>>::new());
}

#[test]
fn shared_store_connects_handles() {
    let store = mesher::debug_transports::SharedStore::new();
    let mut a = InMemory::with_store(store.handle());
    let mut b = InMemory::with_store(store.handle());

    b.listen("inmem:shared".to_owned()).expect("Failed to listen");
    a.send("inmem:shared".to_owned(), vec![42]).expect("Failed to send");
    let recvd = b.receive().expect("Failed to receive");
    assert_eq!(recvd, vec![vec![42]]);
}

#[test]
fn mock_loops_back() {
    let mut t = mesher::debug_transports::Mock::new("mock").expect("Failed to create");

    t.listen("mock:loop".to_owned()).expect("Failed to listen");
    t.send("mock:loop".to_owned(), vec![7, 8]).expect("Failed to send");
    let recvd = t.receive().expect("Failed to receive");
    assert_eq!(recvd, vec![vec![7, 8]]);
}

#[test]
fn hex_rendering_is_exact() {
    let hex = mesher::debug_transports::hex_bytes(&[0xde, 0xad, 0xbe, 0xef, 0x05]);
    assert_eq!(hex, b"deadbeef05".to_vec());
}

#[test]
fn printer_sends_and_never_receives() {
    let mut t = mesher::debug_transports::Printer::new("print").expect("Failed to create");
    t.listen("print:anywhere".to_owned()).expect("Failed to listen");
    t.send("print:anywhere".to_owned(), vec![0xde, 0xad]).expect("Failed to send");
    let recvd = t.receive().expect("Failed to receive");
    assert!(recvd.is_empty());
}
