use local_forwarder::registry::{ChanneledChannel, SendError};

#[test]
fn send_to_unregistered_port_gives_item_back() {
    let reg: ChanneledChannel<u32> = ChanneledChannel::new();
    match reg.send(80, 7) {
        Err(SendError::NoSuchPort(v)) => assert_eq!(v, 7),
        _ => panic!("expected NoSuchPort"),
    }
    assert!(reg.get_sender(80).is_none());
    assert!(reg.get_receiver(80).is_none());
    assert_eq!(reg.mailbox_id(80), None);
}

#[test]
fn mailbox_is_fifo() {
    let mut reg: ChanneledChannel<u32> = ChanneledChannel::new();
    reg.create_channel(80).unwrap();
    let rx = reg.get_receiver(80).cloned().unwrap();
    for v in [1u32, 2, 3] {
        assert!(reg.send(80, v).is_ok());
    }
    let tx = reg.get_sender(80).unwrap();
    tx.try_send(4).unwrap();
    assert_eq!(rx.try_recv().unwrap(), 1);
    assert_eq!(rx.try_recv().unwrap(), 2);
    assert_eq!(rx.try_recv().unwrap(), 3);
    assert_eq!(rx.try_recv().unwrap(), 4);
    assert!(rx.try_recv().is_err());
}

#[test]
fn no_cross_port_delivery() {
    let mut reg: ChanneledChannel<u32> = ChanneledChannel::new();
    reg.create_channel(80).unwrap();
    reg.create_channel(81).unwrap();
    assert_ne!(reg.mailbox_id(80), reg.mailbox_id(81));
    let rx80 = reg.get_receiver(80).cloned().unwrap();
    let rx81 = reg.get_receiver(81).cloned().unwrap();
    reg.send(81, 5).unwrap();
    assert!(rx80.try_recv().is_err());
    assert_eq!(rx81.try_recv().unwrap(), 5);
}

#[test]
fn receivers_of_one_port_share_its_mailbox() {
    let mut reg: ChanneledChannel<u32> = ChanneledChannel::new();
    reg.create_channel(80).unwrap();
    let a = reg.get_receiver(80).cloned().unwrap();
    let b = reg.get_receiver(80).cloned().unwrap();
    reg.send(80, 1).unwrap();
    reg.send(80, 2).unwrap();
    assert_eq!(b.try_recv().unwrap(), 1);
    assert_eq!(a.try_recv().unwrap(), 2);
}

#[test]
fn remove_drops_the_mailbox() {
    let mut reg: ChanneledChannel<u32> = ChanneledChannel::new();
    reg.create_channel(80).unwrap();
    reg.create_channel(81).unwrap();
    reg.remove_channel(80);
    assert!(matches!(reg.send(80, 1), Err(SendError::NoSuchPort(1))));
    assert!(reg.send(81, 1).is_ok());
    reg.remove_all_channels();
    assert!(matches!(reg.send(81, 2), Err(SendError::NoSuchPort(2))));
}

#[test]
fn recreated_mailbox_is_new() {
    let mut reg: ChanneledChannel<u32> = ChanneledChannel::new();
    reg.create_channel(80).unwrap();
    let first = reg.mailbox_id(80).unwrap();
    let old_rx = reg.get_receiver(80).cloned().unwrap();
    reg.send(80, 1).unwrap();
    reg.create_channel(80).unwrap();
    let second = reg.mailbox_id(80).unwrap();
    assert!(second > first);
    let new_rx = reg.get_receiver(80).cloned().unwrap();
    assert!(new_rx.try_recv().is_err());
    assert_eq!(old_rx.try_recv().unwrap(), 1);
}

#[test]
fn removed_mailbox_is_closed() {
    let mut reg: ChanneledChannel<u32> = ChanneledChannel::new();
    reg.create_channel(80).unwrap();
    reg.create_channel(81).unwrap();
    let rx80 = reg.get_receiver(80).cloned().unwrap();
    let rx81 = reg.get_receiver(81).cloned().unwrap();
    reg.remove_channel(80);
    assert!(rx80.is_closed());
    assert!(!rx81.is_closed());
    reg.remove_all_channels();
    assert!(rx81.is_closed());
}

#[test]
fn replaced_mailbox_is_closed() {
    let mut reg: ChanneledChannel<u32> = ChanneledChannel::new();
    reg.create_channel(80).unwrap();
    let old_rx = reg.get_receiver(80).cloned().unwrap();
    reg.create_channel(80).unwrap();
    assert!(old_rx.is_closed());
    assert!(!reg.get_receiver(80).unwrap().is_closed());
}

#[test]
fn sender_and_receiver_of_a_port_are_one_queue() {
    let mut reg: ChanneledChannel<u32> = ChanneledChannel::new();
    reg.create_channel(80).unwrap();
    reg.get_sender(80).unwrap().try_send(11).unwrap();
    assert_eq!(reg.get_receiver(80).unwrap().try_recv().unwrap(), 11);
}
