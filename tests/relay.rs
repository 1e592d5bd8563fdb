use std::cell::RefCell;

use relay::config::Config;
use relay::coordinator::{Coordinator, Report};
use relay::event::Event;
use relay::peer::PeerId;
use relay::reader::{Phase, Reader, READ_BUFFER_SIZE};
use relay::registry::Registry;

fn peer(port: u16) -> PeerId {
    PeerId::new(0xffff_7f00_0001, port)
}

/// A write function over handles that are plain labels: it records each write
/// and fails for the labels in `failing`.
struct Wire {
    log: RefCell<Vec<(u32, Vec<u8>)>>,
    failing: Vec<u32>,
}

impl Wire {
    fn new(failing: Vec<u32>) -> Wire {
        Wire { log: RefCell::new(Vec::new()), failing }
    }

    fn write(&self, h: &u32, bytes: &Vec<u8>) -> bool {
        if self.failing.contains(h) {
            return false;
        }
        self.log.borrow_mut().push((*h, bytes.clone()));
        true
    }

    fn received(&self, h: u32) -> Vec<u8> {
        let mut out = Vec::new();
        for (to, bytes) in self.log.borrow().iter() {
            if *to == h {
                out.extend_from_slice(bytes);
            }
        }
        out
    }
}

fn targets(r: &Report) -> Vec<PeerId> {
    match r {
        Report::Relayed { to, .. } => to.clone(),
        other => panic!("not a relay: {:?}", other),
    }
}

/// Processes `e` and makes the writes its report asks for: one write of the
/// payload to each target's handle, going on after a failure. Returns the
/// report and whether each write succeeded.
fn step(c: &mut Coordinator<u32>, e: Event<u32>, wire: &Wire) -> (Report, Vec<bool>) {
    let r = c.process(e);
    let mut written = Vec::new();
    if let Report::Relayed { to, payload, .. } = &r {
        for q in to {
            let h = c.registry().get(q).expect("a target is registered");
            written.push(wire.write(h, payload));
        }
    }
    (r, written)
}

#[test]
fn peer_ids_compare_by_address() {
    assert!(peer(1).same_as(&peer(1)));
    assert!(!peer(1).same_as(&peer(2)));
    assert!(!PeerId::new(1, 5).same_as(&PeerId::new(2, 5)));
}

#[test]
fn registry_insert_get_remove() {
    let mut r: Registry<u32> = Registry::new();
    assert_eq!(r.len(), 0);
    assert!(!r.insert(peer(1), 10));
    assert!(!r.insert(peer(2), 20));
    assert_eq!(r.len(), 2);
    assert!(r.contains(&peer(1)));
    assert_eq!(r.get(&peer(2)), Some(&20));
    assert_eq!(r.get(&peer(3)), None);
    assert_eq!(r.remove(&peer(1)), Some(10));
    assert_eq!(r.len(), 1);
    assert!(!r.contains(&peer(1)));
    assert_eq!(r.get(&peer(2)), Some(&20));
}

#[test]
fn registry_insert_same_identity_overwrites() {
    let mut r: Registry<u32> = Registry::new();
    assert!(!r.insert(peer(1), 10));
    assert!(r.insert(peer(1), 11));
    assert_eq!(r.len(), 1);
    assert_eq!(r.get(&peer(1)), Some(&11));
}

#[test]
fn registry_others_skips_sender() {
    let mut r: Registry<u32> = Registry::new();
    r.insert(peer(1), 1);
    r.insert(peer(2), 2);
    r.insert(peer(3), 3);
    assert_eq!(r.others(&peer(2)), vec![peer(1), peer(3)]);
    assert_eq!(r.others(&peer(9)), vec![peer(1), peer(2), peer(3)]);
}

#[test]
fn registry_count_tracks_connects_minus_disconnects() {
    let wire = Wire::new(vec![]);
    let mut c: Coordinator<u32> = Coordinator::new();
    for i in 0..5u16 {
        step(&mut c, Event::Connected(peer(i), i as u32), &wire);
        assert_eq!(c.len(), (i + 1) as usize);
    }
    step(&mut c, Event::Disconnected(peer(3)), &wire);
    step(&mut c, Event::Message(peer(0), vec![1]), &wire);
    step(&mut c, Event::Disconnected(peer(0)), &wire);
    assert_eq!(c.len(), 3);
    step(&mut c, Event::Connected(peer(3), 33), &wire);
    assert_eq!(c.len(), 4);
    assert_eq!(c.registry().get(&peer(3)), Some(&33));
}

#[test]
fn message_reaches_every_other_peer_exactly_once() {
    let wire = Wire::new(vec![]);
    let mut c: Coordinator<u32> = Coordinator::new();
    for i in 1..=4u16 {
        step(&mut c, Event::Connected(peer(i), i as u32), &wire);
    }
    let r = step(&mut c, Event::Message(peer(3), vec![5, 6, 7]), &wire).0;
    assert_eq!(targets(&r), vec![peer(1), peer(2), peer(4)]);
    for q in [1u32, 2, 4] {
        assert_eq!(wire.received(q), vec![5, 6, 7]);
    }
    assert_eq!(wire.received(3), Vec::<u8>::new());
    assert_eq!(wire.log.borrow().len(), 3);
}

#[test]
fn sender_alone_receives_nothing() {
    let wire = Wire::new(vec![]);
    let mut c: Coordinator<u32> = Coordinator::new();
    step(&mut c, Event::Connected(peer(1), 1), &wire);
    let r = step(&mut c, Event::Message(peer(1), vec![1, 2]), &wire).0;
    assert_eq!(r, Report::Relayed { from: peer(1), to: vec![], payload: vec![1, 2] });
    assert!(wire.log.borrow().is_empty());
}

#[test]
fn message_from_unregistered_peer_reaches_all() {
    let wire = Wire::new(vec![]);
    let mut c: Coordinator<u32> = Coordinator::new();
    step(&mut c, Event::Connected(peer(1), 1), &wire);
    step(&mut c, Event::Connected(peer(2), 2), &wire);
    let r = step(&mut c, Event::Message(peer(7), vec![4]), &wire).0;
    assert_eq!(targets(&r), vec![peer(1), peer(2)]);
}

#[test]
fn disconnect_of_unknown_peer_is_noop() {
    let wire = Wire::new(vec![]);
    let mut c: Coordinator<u32> = Coordinator::new();
    step(&mut c, Event::Connected(peer(1), 1), &wire);
    step(&mut c, Event::Connected(peer(2), 2), &wire);
    let (r, written) = step(&mut c, Event::Disconnected(peer(9)), &wire);
    assert!(written.is_empty());
    assert!(wire.log.borrow().is_empty());
    assert_eq!(r, Report::Left { peer: peer(9), was_registered: false });
    assert_eq!(c.len(), 2);
    assert_eq!(c.registry().get(&peer(1)), Some(&1));
    assert_eq!(c.registry().get(&peer(2)), Some(&2));
    let r = step(&mut c, Event::Disconnected(peer(2)), &wire).0;
    assert_eq!(r, Report::Left { peer: peer(2), was_registered: true });
    let r = step(&mut c, Event::Disconnected(peer(2)), &wire).0;
    assert_eq!(r, Report::Left { peer: peer(2), was_registered: false });
    assert_eq!(c.len(), 1);
}

#[test]
fn duplicate_connect_overwrites() {
    let wire = Wire::new(vec![]);
    let mut c: Coordinator<u32> = Coordinator::new();
    let r = step(&mut c, Event::Connected(peer(1), 1), &wire).0;
    assert_eq!(r, Report::Joined { peer: peer(1), replaced: false });
    let r = step(&mut c, Event::Connected(peer(1), 11), &wire).0;
    assert_eq!(r, Report::Joined { peer: peer(1), replaced: true });
    assert_eq!(c.len(), 1);
    assert_eq!(c.registry().get(&peer(1)), Some(&11));
}

#[test]
fn failed_write_does_not_stop_others_or_unregister() {
    let wire = Wire::new(vec![2]);
    let mut c: Coordinator<u32> = Coordinator::new();
    for i in 1..=3u16 {
        step(&mut c, Event::Connected(peer(i), i as u32), &wire);
    }
    let (r, written) = step(&mut c, Event::Message(peer(1), vec![42]), &wire);
    assert_eq!(targets(&r), vec![peer(2), peer(3)]);
    assert_eq!(written, vec![false, true]);
    assert_eq!(wire.received(3), vec![42]);
    assert_eq!(c.len(), 3);
    assert!(c.registry().contains(&peer(2)));
}

#[test]
fn two_peers_relay_one_way() {
    let wire = Wire::new(vec![]);
    let mut c: Coordinator<u32> = Coordinator::new();
    let mut a = Reader::new(peer(1));
    let mut b = Reader::new(peer(2));
    step(&mut c, a.start(1u32), &wire);
    step(&mut c, b.start(2u32), &wire);
    let mut buffer = vec![0u8; READ_BUFFER_SIZE];
    buffer[..3].copy_from_slice(&[1, 2, 3]);
    let e: Event<u32> = a.on_read(Some(3), &buffer);
    step(&mut c, e, &wire);
    assert_eq!(wire.received(2), vec![1, 2, 3]);
    assert_eq!(wire.received(1), Vec::<u8>::new());
}

#[test]
fn dropped_peer_is_no_longer_relayed_to() {
    let wire = Wire::new(vec![]);
    let mut c: Coordinator<u32> = Coordinator::new();
    let mut a = Reader::new(peer(1));
    let mut b = Reader::new(peer(2));
    step(&mut c, a.start(1u32), &wire);
    step(&mut c, b.start(2u32), &wire);
    let buffer = vec![7u8; READ_BUFFER_SIZE];
    let e: Event<u32> = a.on_read(Some(2), &buffer);
    step(&mut c, e, &wire);
    assert_eq!(wire.received(2), vec![7, 7]);
    let e: Event<u32> = a.on_read(None, &buffer);
    assert!(matches!(e, Event::Disconnected(p) if p == peer(1)));
    assert!(a.is_terminated());
    let r = step(&mut c, e, &wire).0;
    assert_eq!(r, Report::Left { peer: peer(1), was_registered: true });
    let r = step(&mut c, b.on_read(Some(1), &buffer), &wire).0;
    assert_eq!(targets(&r), vec![]);
    assert_eq!(wire.received(1), Vec::<u8>::new());
    assert_eq!(wire.received(2), vec![7, 7]);
    assert_eq!(wire.log.borrow().len(), 1);
}

#[test]
fn reader_phases() {
    let mut r = Reader::new(peer(4));
    assert_eq!(r.phase(), Phase::Starting);
    assert_eq!(r.peer(), peer(4));
    let e = r.start(0u8);
    assert!(matches!(e, Event::Connected(p, 0) if p == peer(4)));
    assert_eq!(r.phase(), Phase::Relaying);
    let buffer: Vec<u8> = (0..64).collect();
    let e: Event<u8> = r.on_read(Some(64), &buffer);
    match e {
        Event::Message(p, bytes) => {
            assert_eq!(p, peer(4));
            assert_eq!(bytes, buffer);
        }
        other => panic!("unexpected {:?}", other),
    }
    let e: Event<u8> = r.on_read(Some(5), &buffer);
    assert!(matches!(e, Event::Message(_, ref b) if *b == vec![0, 1, 2, 3, 4]));
    assert!(!r.is_terminated());
}

#[test]
fn end_of_stream_ends_reader() {
    let mut r = Reader::new(peer(4));
    let _ = r.start(());
    let e: Event<()> = r.on_read(Some(0), &vec![0u8; 8]);
    assert!(matches!(e, Event::Disconnected(p) if p == peer(4)));
    assert_eq!(r.phase(), Phase::Terminated);
}

#[test]
fn listen_port_range() {
    assert_eq!(Config { port: 8080 }.listen_port(), Some(8080));
    assert_eq!(Config { port: 0 }.listen_port(), Some(0));
    assert_eq!(Config { port: 65535 }.listen_port(), Some(65535));
    assert_eq!(Config { port: 65536 }.listen_port(), None);
    assert_eq!(Config { port: -1 }.listen_port(), None);
}
