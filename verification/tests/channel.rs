use echo::channel::{oneshot, Error};
use echo::future::Poll;
use echo::runtime::{Scheduler, Waker};

fn recv_now(s: &mut Scheduler<usize>, rx: &echo::channel::Receiver) -> Result<usize, Error> {
    match rx.poll(s, Waker::new(0)) {
        Poll::Ready(r) => r,
        Poll::Pending => panic!("receiver is still pending"),
    }
}

#[test]
fn test_send() {
    let mut s: Scheduler<usize> = Scheduler::new();
    let (tx, rx) = oneshot(&mut s);
    tx.send(&mut s, 42).unwrap();
    assert_eq!(42, recv_now(&mut s, &rx).unwrap());
}

#[test]
fn test_duplicate_send() {
    let mut s: Scheduler<usize> = Scheduler::new();
    let (tx, rx) = oneshot(&mut s);
    tx.send(&mut s, 42).unwrap();
    assert_eq!(42, recv_now(&mut s, &rx).unwrap());
}

#[test]
fn test_channel_closed_after_recv() {
    let mut s: Scheduler<usize> = Scheduler::new();
    let (tx, rx) = oneshot(&mut s);
    tx.send(&mut s, 42).unwrap();
    assert_eq!(42, recv_now(&mut s, &rx).unwrap());
}

#[test]
fn test_channel_closed_after_drop_tx() {
    let mut s: Scheduler<usize> = Scheduler::new();
    let (tx, rx) = oneshot(&mut s);
    tx.close(&mut s);
    assert_eq!(Err(Error::ChannelClosed), recv_now(&mut s, &rx));
}

#[test]
fn test_channel_closed_after_drop_rx() {
    let mut s: Scheduler<usize> = Scheduler::new();
    let (tx, rx) = oneshot(&mut s);
    rx.close(&mut s);
    assert_eq!(Err(Error::ChannelClosed), tx.send(&mut s, 42));
}

#[test]
fn test_double_drop() {
    let mut s: Scheduler<usize> = Scheduler::new();
    let (tx, rx) = oneshot(&mut s);
    rx.close(&mut s);
    tx.close(&mut s);
}

#[test]
fn test_send_drop_recv() {
    let mut s: Scheduler<usize> = Scheduler::new();
    let (tx, rx) = oneshot(&mut s);
    tx.send(&mut s, 42).unwrap();
    tx.close(&mut s);
    assert_eq!(42, recv_now(&mut s, &rx).unwrap());
}

#[test]
fn test_duplicate_send_rejected() {
    let mut s: Scheduler<usize> = Scheduler::new();
    let (tx, rx) = oneshot(&mut s);
    tx.send(&mut s, 1).unwrap();
    assert_eq!(Err(Error::DuplicateSend), tx.send(&mut s, 2));
    assert_eq!(1, recv_now(&mut s, &rx).unwrap());
    assert_eq!(Err(Error::ChannelClosed), tx.send(&mut s, 3));
}

#[test]
fn test_try_recv_takes_once() {
    let mut s: Scheduler<usize> = Scheduler::new();
    let (tx, rx) = oneshot(&mut s);
    assert_eq!(None, rx.try_recv(&mut s));
    tx.send(&mut s, 7).unwrap();
    assert_eq!(Some(7), rx.try_recv(&mut s));
    assert_eq!(None, rx.try_recv(&mut s));
    assert_eq!(Err(Error::ChannelClosed), recv_now(&mut s, &rx));
}

#[test]
fn test_send_wakes_parked_receiver() {
    let mut s: Scheduler<usize> = Scheduler::new();
    let (tx, rx) = oneshot(&mut s);
    match rx.poll(&mut s, Waker::new(9)) {
        Poll::Pending => {}
        Poll::Ready(_) => panic!("nothing was sent yet"),
    }
    let before = s.ready_len();
    tx.send(&mut s, 5).unwrap();
    assert_eq!(before + 1, s.ready_len());
    assert_eq!(5, recv_now(&mut s, &rx).unwrap());
}
