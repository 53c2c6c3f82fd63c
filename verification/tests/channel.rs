use optopodi::channel::{Idle, Refused, RowChannel};

fn row(fields: &[&str]) -> Vec<String> {
    fields.iter().map(|f| String::from(*f)).collect()
}

#[test]
fn second_send_waits_until_first_is_received() {
    let mut channel = RowChannel::new(1);
    assert!(channel.try_send(row(&["1"])).is_ok());
    match channel.try_send(row(&["2"])) {
        Err(Refused::Full(back)) => assert_eq!(back, row(&["2"])),
        other => panic!("expected a full channel, got {:?}", other),
    }
    assert_eq!(channel.len(), 1);
    assert!(channel.is_full());
    assert_eq!(channel.try_recv(), Ok(row(&["1"])));
    assert!(!channel.is_full());
    assert!(channel.try_send(row(&["2"])).is_ok());
    match channel.try_send(row(&["3"])) {
        Err(Refused::Full(back)) => assert_eq!(back, row(&["3"])),
        other => panic!("expected a full channel, got {:?}", other),
    }
    assert_eq!(channel.try_recv(), Ok(row(&["2"])));
    assert!(channel.try_send(row(&["3"])).is_ok());
    assert_eq!(channel.try_recv(), Ok(row(&["3"])));
    assert_eq!(channel.try_recv(), Err(Idle::Empty));
}

#[test]
fn rows_are_received_in_the_order_sent() {
    let mut channel = RowChannel::new(4);
    for i in 0..4 {
        assert!(channel.try_send(row(&[&i.to_string(), "x"])).is_ok());
    }
    assert_eq!(channel.len(), 4);
    for i in 0..4 {
        assert_eq!(channel.try_recv(), Ok(row(&[&i.to_string(), "x"])));
    }
    assert_eq!(channel.len(), 0);
}

#[test]
fn closed_sender_lets_the_queue_drain() {
    let mut channel = RowChannel::new(2);
    assert!(channel.try_send(row(&["a"])).is_ok());
    channel.close_sender();
    assert!(!channel.sender_open());
    assert!(matches!(channel.try_send(row(&["b"])), Err(Refused::Closed(_))));
    assert_eq!(channel.try_recv(), Ok(row(&["a"])));
    assert_eq!(channel.try_recv(), Err(Idle::Disconnected));
}

#[test]
fn closed_receiver_refuses_and_drops() {
    let mut channel = RowChannel::new(2);
    assert!(channel.try_send(row(&["a"])).is_ok());
    channel.close_receiver();
    assert!(!channel.receiver_open());
    assert_eq!(channel.len(), 0);
    match channel.try_send(row(&["b"])) {
        Err(Refused::Closed(back)) => assert_eq!(back, row(&["b"])),
        other => panic!("expected a closed channel, got {:?}", other),
    }
    assert_eq!(channel.try_recv(), Err(Idle::Disconnected));
}

#[test]
fn capacity_is_kept() {
    let channel = RowChannel::new(7);
    assert_eq!(channel.capacity(), 7);
    assert!(channel.sender_open());
    assert!(channel.receiver_open());
    assert_eq!(channel.len(), 0);
}
