use assignments::tcp::{ClientPhase, Packet, TcpClient, TcpServer};
use rand::Rng;

fn gen_bufs() -> Vec<Vec<u8>> {
    let mut bufs: Vec<Vec<u8>> = Vec::new();
    let mut rng = rand::thread_rng();
    for _ in 0usize..20 {
        let buf: Vec<u8> = vec![0; rng.gen_range(1, 10)];
        let buf: Vec<u8> = buf.into_iter().map(|_x: u8| rng.gen()).collect();
        bufs.push(buf);
    }
    bufs
}

fn copy(bufs: &Vec<Vec<u8>>) -> Vec<Vec<u8>> {
    bufs.iter().map(|b| b.clone()).collect()
}

/// Runs the transfer in rounds; `deliver` decides which sent packets arrive.
fn transfer(bufs: Vec<Vec<u8>>, mut deliver: impl FnMut(Vec<Packet>) -> Vec<Packet>) -> (Vec<Vec<u8>>, usize) {
    let mut client = TcpClient::new(bufs);
    let mut server = TcpServer::new();
    let syn = client.open();
    let syn_ack = server.accept(syn);
    let ack = client.on_syn_ack(syn_ack);
    server.confirm(ack);
    let mut rounds = 0;
    loop {
        rounds += 1;
        let sent = client.packets();
        let arrived = deliver(sent);
        let acks = server.receive(&arrived);
        if client.acknowledge(&acks) {
            let (ack, fin) = server.close();
            let last = client.on_close(ack, fin);
            return (server.finish(last), rounds);
        }
    }
}

#[test]
fn test_basic() {
    let bufs = gen_bufs();
    let bufs_copy = copy(&bufs);
    let (recvd, rounds) = transfer(bufs, |sent| sent);
    assert_eq!(recvd, bufs_copy);
    assert_eq!(rounds, 1);
}

#[test]
fn test_lossy() {
    let bufs = gen_bufs();
    let bufs_copy = copy(&bufs);
    let mut rng = rand::thread_rng();
    let (recvd, _) = transfer(bufs, |sent| sent.into_iter().filter(|_| rng.gen_range(0, 2) == 0).collect());
    assert_eq!(recvd, bufs_copy);
}

#[test]
fn packets_follow_pending_positions() {
    let mut client = TcpClient::new(vec![vec![1], vec![2, 2], vec![3], vec![4]]);
    let syn = client.open();
    let _ = client.on_syn_ack(TcpServer::new().accept(syn));
    let ps = client.packets();
    assert_eq!(ps.iter().map(|p| p.seqno).collect::<Vec<_>>(), vec![0, 1, 2, 3]);
    assert_eq!(ps[1].buf, vec![2, 2]);
    assert!(!client.acknowledge(&vec![2, 0, 7]));
    let ps = client.packets();
    assert_eq!(ps.iter().map(|p| p.seqno).collect::<Vec<_>>(), vec![1, 3]);
    assert_eq!(ps[1].buf, vec![4]);
    assert!(client.acknowledge(&vec![3, 1]));
}

#[test]
fn server_keeps_arrival_order_until_finish() {
    let mut server = TcpServer::new();
    let mut client = TcpClient::new(vec![]);
    let syn_ack = server.accept(client.open());
    server.confirm(client.on_syn_ack(syn_ack));
    let acks = server.receive(&vec![
        Packet { buf: vec![20], seqno: 2 },
        Packet { buf: vec![0], seqno: 0 },
    ]);
    assert_eq!(acks, vec![2, 0]);
    let acks = server.receive(&vec![Packet { buf: vec![10], seqno: 1 }]);
    assert_eq!(acks, vec![1]);
    assert!(client.acknowledge(&vec![]));
    let (ack, fin) = server.close();
    let last = client.on_close(ack, fin);
    assert_eq!(server.finish(last), vec![vec![0], vec![10], vec![20]]);
}

#[test]
fn empty_transfer() {
    let (recvd, rounds) = transfer(vec![], |sent| sent);
    assert!(recvd.is_empty());
    assert_eq!(rounds, 1);
}

#[test]
fn reordered_delivery_still_arrives_in_order() {
    let bufs = gen_bufs();
    let bufs_copy = copy(&bufs);
    let (recvd, _) = transfer(bufs, |mut sent| {
        sent.reverse();
        sent.truncate(3);
        sent
    });
    assert_eq!(recvd, bufs_copy);
}

#[test]
fn client_walks_through_the_session_phases() {
    let mut client = TcpClient::new(vec![vec![5]]);
    let mut server = TcpServer::new();
    let syn = client.open();
    let syn_ack = server.accept(syn);
    let ack = client.on_syn_ack(syn_ack);
    server.confirm(ack);
    let acks = server.receive(&client.packets());
    assert_eq!(acks, vec![0]);
    assert!(client.acknowledge(&acks));
    let (ack, fin) = server.close();
    let last = client.on_close(ack, fin);
    assert_eq!(server.finish(last), vec![vec![5]]);
    let _ = ClientPhase::Closed;
}
