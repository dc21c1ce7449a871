use live_coding_channel::Channel;

fn is_send(_: impl Send) {}

fn is_sync(_: impl Sync) {}

#[test]
fn chan_is_send() {
    is_send(Channel::<i32>::new(1));
}

#[test]
fn chan_is_sync() {
    is_sync(Channel::<i32>::new(1));
}

#[test]
fn channel_send_recv() {
    let chan = Channel::new(1);
    chan.try_send(1).unwrap();
    assert_eq!(chan.try_recv(), Some(1));
}

#[test]
fn channel_clone_receives_data() {
    let chan1 = Channel::new(1);
    let chan2 = chan1.clone();

    chan1.try_send('a').unwrap();
    assert_eq!(chan2.try_recv(), Some('a'));
}

#[test]
fn mpmc() {
    let chan1 = Channel::new(2);
    let chan2 = chan1.clone();

    let chan3 = chan1.clone();
    let chan4 = chan1.clone();

    chan1.try_send("1->3").unwrap();
    chan2.try_send("2->4").unwrap();
    assert_eq!(chan3.try_recv(), Some("1->3"));
    assert_eq!(chan4.try_recv(), Some("2->4"));
}

#[test]
fn round_trip_for_several_capacities() {
    for cap in [1usize, 2, 5, 64] {
        let chan = Channel::new(cap);
        assert_eq!(chan.try_send(String::from("v")), Ok(()));
        assert_eq!(chan.try_recv(), Some(String::from("v")));
        assert_eq!(chan.try_recv(), None);
    }
}

#[test]
fn overflow_hands_back_the_refused_value() {
    let chan = Channel::new(3);
    for v in 0..3 {
        assert_eq!(chan.try_send(v), Ok(()));
    }
    assert_eq!(chan.try_send(99), Err(99));
    assert_eq!(chan.try_recv(), Some(0));
    assert_eq!(chan.try_recv(), Some(1));
    assert_eq!(chan.try_recv(), Some(2));
    assert_eq!(chan.try_recv(), None);
}

#[test]
fn underflow_on_a_fresh_channel() {
    let chan: Channel<u64> = Channel::new(4);
    assert_eq!(chan.try_recv(), None);
}

#[test]
fn wraparound_reuses_slots() {
    let chan = Channel::new(2);
    assert_eq!(chan.try_send(1), Ok(()));
    assert_eq!(chan.try_recv(), Some(1));
    assert_eq!(chan.try_send(2), Ok(()));
    assert_eq!(chan.try_send(3), Ok(()));
    assert_eq!(chan.try_recv(), Some(2));
    assert_eq!(chan.try_recv(), Some(3));
}

#[test]
fn zero_capacity_channel_refuses_everything() {
    let chan = Channel::new(0);
    assert_eq!(chan.try_send('z'), Err('z'));
    assert_eq!(chan.try_recv(), None);
}

#[test]
fn clones_share_one_store_and_each_value_leaves_once() {
    let a = Channel::new(4);
    let b = a.clone();
    let c = b.clone();
    a.try_send(1).unwrap();
    b.try_send(2).unwrap();
    c.try_send(3).unwrap();
    a.try_send(4).unwrap();
    assert_eq!(c.try_send(5), Err(5));
    assert_eq!(b.try_recv(), Some(1));
    assert_eq!(a.try_recv(), Some(2));
    assert_eq!(c.try_recv(), Some(3));
    assert_eq!(b.try_recv(), Some(4));
    assert_eq!(a.try_recv(), None);
    assert_eq!(c.try_recv(), None);
}

#[test]
fn dropping_a_clone_keeps_the_store_alive() {
    let a = Channel::new(2);
    let b = a.clone();
    a.try_send(vec![1, 2]).unwrap();
    drop(a);
    assert_eq!(b.try_recv(), Some(vec![1, 2]));
}

#[test]
fn interleaved_attempts_conserve_values() {
    let handles = [Channel::new(3), Channel::new(1), Channel::new(7)];
    for chan in handles {
        let other = chan.clone();
        let mut sent: Vec<u32> = Vec::new();
        let mut received: Vec<u32> = Vec::new();
        for i in 0..200u32 {
            if i % 3 != 2 {
                let h = if i % 2 == 0 { &chan } else { &other };
                if h.try_send(i).is_ok() {
                    sent.push(i);
                }
            } else {
                let h = if i % 5 == 0 { &chan } else { &other };
                if let Some(v) = h.try_recv() {
                    received.push(v);
                }
            }
        }
        while let Some(v) = other.try_recv() {
            received.push(v);
        }
        assert_eq!(sent, received);
    }
}
