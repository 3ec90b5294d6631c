use echo::echo::{Echo, EchoOp};
use echo::epoll::EpollFd;
use echo::future::Poll;
use echo::runtime::{Scheduler, Waker};
use echo::socket::{Socket, Unbound};
use echo::sys::{
    sockaddr_to_socketaddr, socketaddr_to_sockaddr, AcceptOutcome, AddrError, EpollEventKind,
    OsError, SocketAddrV4, AF_INET, AF_INET6,
};
use echo::tcp::TcpListener;

#[test]
fn test_parse_ipv4_sockaddr() {
    // Port 8080 and address 192.0.2.1, both in network order.
    let data: Vec<u8> = vec![0x1F, 0x90, 192, 0, 2, 1, 0, 0, 0, 0, 0, 0, 0, 0];
    let addr = sockaddr_to_socketaddr(AF_INET, &data).unwrap();
    assert_eq!(8080, addr.port);
    assert_eq!(0xC0000201, addr.ip);
}

#[test]
fn test_parse_rejects_ipv6() {
    let data: Vec<u8> = vec![0; 14];
    assert_eq!(Err(AddrError::Ipv6Unsupported), sockaddr_to_socketaddr(AF_INET6, &data));
}

#[test]
fn test_parse_rejects_unknown_family() {
    let data: Vec<u8> = vec![0; 14];
    assert_eq!(Err(AddrError::UnknownFamily), sockaddr_to_socketaddr(5, &data));
}

#[test]
fn test_sockaddr_round_trip() {
    let addr = SocketAddrV4 { ip: 0x7F000001, port: 54321 };
    let (family, data) = socketaddr_to_sockaddr(&addr);
    assert_eq!(AF_INET, family);
    assert_eq!(14, data.len());
    assert_eq!(Ok(addr), sockaddr_to_socketaddr(family, &data));
}

#[test]
fn test_epoll_event_kind_matches_linux() {
    assert_eq!(libc::EPOLLIN, EpollEventKind::Readable.bits());
    assert_eq!(libc::EPOLLOUT, EpollEventKind::Writable.bits());
}

#[test]
fn test_accept_future_registers_one_waker() {
    let mut s: Scheduler<i32> = Scheduler::new();
    let listener = TcpListener::from_fd(11);
    s.register_interest(listener.as_raw_fd());
    let fut = listener.accept();
    let w = Waker::new(3);
    // No pending connection: the poll parks exactly one waker for the fd.
    match fut.poll(AcceptOutcome::WouldBlock, &mut s, w) {
        Poll::Pending => {}
        Poll::Ready(_) => panic!("nothing to accept yet"),
    }
    assert_eq!(Some(3), s.waker_for(11).map(|wk| wk.task_id));
    assert_eq!(0, s.ready_len());
    // The OS reports the fd ready: dispatching wakes that task, once.
    s.wake_ready(&vec![11]);
    assert_eq!(1, s.ready_len());
    // The next poll accepts the connection and reports the peer.
    let peer = SocketAddrV4 { ip: 0x7F000001, port: 40000 };
    match fut.poll(AcceptOutcome::Accepted(12, peer), &mut s, w) {
        Poll::Ready(Ok((fd, addr))) => {
            assert_eq!(12, fd);
            assert_eq!(peer, addr);
        }
        _ => panic!("the connection was there to accept"),
    }
}

#[test]
fn test_accept_future_propagates_errors() {
    let mut s: Scheduler<i32> = Scheduler::new();
    let fut = TcpListener::from_fd(4).accept();
    match fut.poll(AcceptOutcome::Failed(OsError { code: -1 }), &mut s, Waker::new(0)) {
        Poll::Ready(Err(e)) => assert_eq!(-1, e.code),
        _ => panic!("the error must surface at once"),
    }
}

#[test]
fn test_wake_ready_skips_unregistered_fds() {
    let mut s: Scheduler<i32> = Scheduler::new();
    s.register_interest(5);
    s.wake_ready(&vec![5, 6]);
    // fd 5 is watched but has no waker parked; fd 6 is unknown.
    assert_eq!(0, s.ready_len());
    s.register_wake(5, Waker::new(2));
    s.wake_ready(&vec![5, 6]);
    assert_eq!(1, s.ready_len());
    s.unregister_interest(5);
    s.wake_ready(&vec![5]);
    assert_eq!(1, s.ready_len());
}

#[test]
fn test_socket_lifecycle() {
    let sock = Socket::<Unbound>::new(3).unwrap();
    let sock = sock.bind(0).unwrap();
    let sock = sock.listen(0).unwrap();
    let peer = sock.accept(7).unwrap();
    assert_eq!(7, peer.inner());
    assert_eq!(3, sock.into_inner().inner());
}

#[test]
fn test_socket_failures_carry_the_code() {
    match Socket::<Unbound>::new(-1) {
        Err(e) => assert_eq!(-1, e.code),
        Ok(_) => panic!("a failed creation yields no socket"),
    }
    let sock = Socket::<Unbound>::new(3).unwrap();
    match sock.bind(-13) {
        Err(e) => assert_eq!(-13, e.code),
        Ok(_) => panic!("a failed bind cannot advance the socket"),
    }
}

#[test]
fn test_socket_connect_and_recv() {
    let sock = Socket::<Unbound>::new(3).unwrap();
    let conn = sock.connect(0).unwrap();
    assert_eq!(Ok(10), conn.recv(10));
    assert_eq!(Err(OsError { code: -1 }), conn.recv(-1));
}

#[test]
fn test_epoll_fd_wrapping() {
    let ep = EpollFd::new(9).unwrap();
    assert_eq!(9, ep.as_raw());
    match EpollFd::new(-1) {
        Err(e) => assert_eq!(-1, e.code),
        Ok(_) => panic!("a failed creation yields no descriptor"),
    }
}

#[test]
fn test_echo_copies_whole_chunks() {
    let mut e = Echo::new(8);
    assert_eq!(EchoOp::Read, e.next_op());
    e.on_read(vec![1, 2, 3]);
    assert_eq!(EchoOp::Write { from: 0, to: 3 }, e.next_op());
    assert_eq!(&vec![1, 2, 3], e.buffer());
    e.on_write(2);
    assert_eq!(EchoOp::Write { from: 2, to: 3 }, e.next_op());
    e.on_write(1);
    assert_eq!(EchoOp::Read, e.next_op());
}

#[test]
fn test_echo_empty_read_reads_again() {
    let mut e = Echo::new(4);
    e.on_read(Vec::new());
    assert_eq!(EchoOp::Read, e.next_op());
}
