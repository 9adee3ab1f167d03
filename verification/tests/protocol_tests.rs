use ringchain::{Addr, Block, BlockService, Context, Event, GossipNode, Message, position, FANOUT};

fn addr(port: u16) -> Addr {
    Addr::V4 { ip: 0x7f00_0001, port }
}

fn ring(n: u16) -> Vec<Addr> {
    (0..n).map(|i| addr(3000 + i)).collect()
}

fn node(me: Addr, peers: Vec<Addr>) -> Context {
    let mut c = Context::new(me, peers);
    c.register_event_handler(BlockService::new());
    c
}

fn drain(c: &mut Context) -> Vec<(Event, Addr)> {
    let mut out = Vec::new();
    while let Some(m) = c.send_next() {
        out.push(m);
    }
    out
}

#[test]
fn position_finds_first_occurrence() {
    let p = vec![addr(1), addr(2), addr(1)];
    assert_eq!(position(&p, addr(1)), Some(0));
    assert_eq!(position(&p, addr(2)), Some(1));
    assert_eq!(position(&p, addr(3)), None);
}

#[test]
fn propagate_goes_to_next_peer_of_ring() {
    let peers = ring(3);
    let mut c = Context::new(peers[1], peers.clone());
    c.propagate(&Event::ValidateBlock(Block::new(vec![]).hash()));
    let out = drain(&mut c);
    assert_eq!(out.len(), 1);
    assert_eq!(out[0].1, peers[2]);
    let mut last = Context::new(peers[2], peers.clone());
    last.propagate(&Event::ValidateBlock(Block::new(vec![]).hash()));
    assert_eq!(drain(&mut last)[0].1, peers[0]);
}

#[test]
fn send_next_takes_last_queued_first() {
    let peers = ring(2);
    let mut c = Context::new(peers[0], peers.clone());
    let id = Block::new(vec![]).hash();
    c.send(&Event::AckBlock(id.clone()), &peers[1]);
    c.send(&Event::ValidateBlock(id.clone()), &peers[0]);
    match c.send_next() {
        Some((Event::ValidateBlock(_), to)) => assert_eq!(to, peers[0]),
        _ => panic!("expected the validation first"),
    }
    match c.send_next() {
        Some((Event::AckBlock(_), to)) => assert_eq!(to, peers[1]),
        _ => panic!("expected the acknowledgement next"),
    }
    assert!(c.send_next().is_none());
}

#[test]
fn request_proposes_to_next_peer_with_own_ack() {
    let peers = ring(3);
    let mut c = node(peers[0], peers.clone());
    c.handle_message(Message::Request(vec![1, 2, 3]), addr(9));
    let out = drain(&mut c);
    assert_eq!(out.len(), 1);
    match &out[0] {
        (Event::ProposeBlock(b, p), to) => {
            assert_eq!(*p, peers[0]);
            assert_eq!(*to, peers[1]);
            assert_eq!(b.get_data(), &vec![1, 2, 3]);
            assert_eq!(b.get_acks(), vec![0]);
            assert!(b.get_seed() == Block::new(vec![]).next(vec![]).get_seed());
        }
        _ => panic!("expected a proposal"),
    }
}

#[test]
fn proposal_is_passed_on_and_acknowledged() {
    let peers = ring(3);
    let mut a = node(peers[0], peers.clone());
    a.handle_request(vec![1]);
    let (evt, _) = drain(&mut a).pop().unwrap();
    let mut b = node(peers[1], peers.clone());
    b.handle_event(&evt, peers[0]);
    let out = drain(&mut b);
    assert_eq!(out.len(), 2);
    // The acknowledgement was queued last, so it is sent first.
    match &out[0] {
        (Event::AckBlock(_), to) => assert_eq!(*to, peers[0]),
        _ => panic!("expected an acknowledgement"),
    }
    match &out[1] {
        (Event::ProposeBlock(_, p), to) => {
            assert_eq!(*p, peers[0]);
            assert_eq!(*to, peers[2]);
        }
        _ => panic!("expected the proposal to be passed on"),
    }
}

#[test]
fn own_proposal_coming_back_is_dropped() {
    let peers = ring(2);
    let mut a = node(peers[0], peers.clone());
    a.handle_request(vec![1]);
    let (evt, _) = drain(&mut a).pop().unwrap();
    a.handle_event(&evt, peers[1]);
    assert!(a.send_next().is_none());
}

#[test]
fn early_proposal_waits_without_reply() {
    let peers = ring(2);
    let mut b = node(peers[1], peers.clone());
    let early = Block::new(vec![]).next(vec![]).next(vec![4]);
    b.handle_event(&Event::ProposeBlock(early, peers[0]), peers[0]);
    assert!(b.send_next().is_none());
    assert!(b.take_announced().is_empty());
}

#[test]
fn validation_of_unknown_block_changes_nothing() {
    let peers = ring(3);
    let mut b = node(peers[1], peers.clone());
    b.handle_event(&Event::ValidateBlock(Block::new(vec![42]).hash()), peers[0]);
    assert!(b.send_next().is_none());
    assert!(b.take_announced().is_empty());
}

#[test]
fn ack_from_every_peer_triggers_validation() {
    let peers = ring(3);
    let mut a = node(peers[0], peers.clone());
    a.handle_request(vec![1]);
    let (evt, _) = drain(&mut a).pop().unwrap();
    let id = match &evt {
        Event::ProposeBlock(b, _) => b.hash(),
        _ => panic!("expected a proposal"),
    };
    a.handle_event(&Event::AckBlock(id.clone()), peers[1]);
    assert!(a.send_next().is_none());
    // An acknowledgement counted twice does not count again.
    a.handle_event(&Event::AckBlock(id.clone()), peers[1]);
    assert!(a.send_next().is_none());
    a.handle_event(&Event::AckBlock(id.clone()), peers[2]);
    match a.send_next() {
        Some((Event::ValidateBlock(v), to)) => {
            assert!(v == id);
            assert_eq!(to, peers[1]);
        }
        _ => panic!("expected a validation"),
    }
}

#[test]
fn ready_for_checks_ring_membership() {
    let peers = ring(2);
    let c = node(peers[0], peers.clone());
    let id = Block::new(vec![]).hash();
    assert!(c.ready_for(&Message::Request(vec![1]), &addr(9)));
    assert!(!c.ready_for(&Message::Event(Event::AckBlock(id.clone())), &addr(9)));
    assert!(c.ready_for(&Message::Event(Event::AckBlock(id)), &peers[1]));
    let outsider = node(addr(9), peers.clone());
    assert!(!outsider.ready_for(&Message::Request(vec![1]), &peers[0]));
}

#[test]
fn unmatched_validation_outside_the_ring_is_handled() {
    let peers = ring(2);
    let mut outsider = node(addr(9), peers.clone());
    let msg = Message::Event(Event::ValidateBlock(Block::new(vec![42]).hash()));
    assert!(outsider.try_handle_message(msg, peers[0]));
    assert!(outsider.send_next().is_none());
    assert!(outsider.take_announced().is_empty());
}

#[test]
fn validation_in_an_empty_ring_is_refused() {
    let mut lonely = node(addr(9), vec![]);
    let msg = Message::Event(Event::ValidateBlock(Block::new(vec![42]).hash()));
    assert!(!lonely.try_handle_message(msg, addr(1)));
}

#[test]
fn validation_from_leader_accepts_the_leaders_block() {
    let peers = ring(2);
    let mut a = node(peers[0], peers.clone());
    a.handle_request(vec![3]);
    let (evt, _) = drain(&mut a).pop().unwrap();
    let (b, p) = match evt {
        Event::ProposeBlock(b, p) => (b, p),
        _ => panic!("expected a proposal"),
    };
    let mut svc = BlockService::new();
    let mut ctx = Context::new(peers[1], peers.clone());
    svc.process_propose_block(&mut ctx, &b, &p);
    drain(&mut ctx);
    // Another leader: nothing happens.
    svc.process_validate_from_leader(&mut ctx, &b.hash(), &peers[1]);
    assert!(ctx.send_next().is_none());
    assert!(!svc.has_block(&b.hash()));
    svc.process_validate_from_leader(&mut ctx, &b.hash(), &peers[0]);
    assert!(svc.has_block(&b.hash()));
    let announced = ctx.take_announced();
    assert_eq!(announced.len(), 1);
    assert_eq!(announced[0].get_data(), &vec![3]);
}

#[test]
fn leader_is_the_same_for_equal_chains() {
    let peers = ring(5);
    let s1 = BlockService::new();
    let s2 = BlockService::new();
    let l = s1.get_leader(&peers);
    assert!(l.is_some());
    assert_eq!(l, s2.get_leader(&peers));
    assert_eq!(l, s1.get_leader(&peers));
    assert!(s1.get_leader(&vec![]).is_none());
}

/// Runs the ring protocol among `n` peers that each receive the same
/// request, delivering queued events one by one, and returns what each peer
/// announced.
fn run_ring(n: u16, steps: usize) -> Vec<Vec<Block>> {
    run_ring_nodes(n, steps).1
}

fn run_ring_nodes(n: u16, steps: usize) -> (Vec<Context>, Vec<Vec<Block>>) {
    let peers = ring(n);
    let mut nodes: Vec<Context> = peers.iter().map(|p| node(*p, peers.clone())).collect();
    let mut announced: Vec<Vec<Block>> = vec![Vec::new(); n as usize];
    for c in nodes.iter_mut() {
        c.handle_message(Message::Request(vec![1, 2, 3]), addr(9));
    }
    let mut delivered = 0;
    while delivered < steps {
        let mut progress = false;
        for i in 0..nodes.len() {
            if let Some((evt, to)) = nodes[i].send_next() {
                let from = peers[i];
                let j = peers.iter().position(|p| *p == to).unwrap();
                nodes[j].handle_message(Message::Event(evt), from);
                delivered += 1;
                progress = true;
            }
        }
        for (i, c) in nodes.iter_mut().enumerate() {
            announced[i].extend(c.take_announced());
        }
        if !progress {
            break;
        }
    }
    (nodes, announced)
}

#[test]
fn all_peers_announce_the_leaders_block() {
    let announced = run_ring(3, 300);
    let first = announced[0][0].hash();
    for a in &announced {
        assert!(!a.is_empty());
        assert!(a[0].hash() == first);
        assert_eq!(a[0].get_data(), &vec![1, 2, 3]);
    }
}

/// Alone in its ring, a peer's proposal comes back to it unacknowledged by
/// anyone else, and no acknowledgement ever triggers a validation.
#[test]
fn single_peer_never_validates() {
    let announced = run_ring(1, 50);
    assert!(announced[0].is_empty());
}

#[test]
fn gossip_request_goes_to_last_peer() {
    let peers = ring(3);
    let mut g = GossipNode::new(peers[0], peers.clone());
    g.handle_request(vec![5]);
    let out = g.take_outbox();
    assert_eq!(out.len(), 1);
    assert_eq!(out[0].1, peers[2]);
    match &out[0].0 {
        Event::ProposeBlock(b, p) => {
            assert_eq!(*p, peers[0]);
            assert_eq!(b.get_data(), &vec![5]);
        }
        _ => panic!("expected a proposal"),
    }
}

#[test]
fn gossip_proposal_is_spread_and_acknowledged() {
    let peers = ring(5);
    let mut g = GossipNode::new(peers[1], peers.clone());
    let b = Block::new(vec![]).next(vec![1]);
    let id = b.hash();
    g.handle_event(&Event::ProposeBlock(b, peers[0]), &peers[0]);
    let out = g.take_outbox();
    assert_eq!(out.len(), FANOUT + 1);
    for (evt, to) in &out[..FANOUT] {
        assert!(matches!(evt, Event::ProposeBlock(_, _)));
        assert!(peers.contains(to));
    }
    match &out[FANOUT] {
        (Event::AckBlock(a), to) => {
            assert!(*a == id);
            assert_eq!(*to, peers[0]);
        }
        _ => panic!("expected an acknowledgement last"),
    }
}

#[test]
fn gossip_proposal_closes_after_all_acks() {
    let peers = ring(2);
    let mut g = GossipNode::new(peers[0], peers.clone());
    g.handle_request(vec![5]);
    let out = g.take_outbox();
    let id = match &out[0].0 {
        Event::ProposeBlock(b, _) => b.hash(),
        _ => panic!("expected a proposal"),
    };
    let targets = vec![peers[1]];
    g.handle_event_to(&Event::AckBlock(id.clone()), &peers[1], &targets);
    assert!(g.take_outbox().is_empty());
    g.handle_event_to(&Event::AckBlock(id.clone()), &peers[1], &targets);
    let out = g.take_outbox();
    assert_eq!(out.len(), 1);
    assert!(matches!(out[0].0, Event::ValidateBlock(_)));
    assert_eq!(out[0].1, peers[1]);
    // The proposal is closed: more acknowledgements change nothing.
    g.handle_event_to(&Event::AckBlock(id), &peers[1], &targets);
    assert!(g.take_outbox().is_empty());
}

#[test]
fn gossip_validation_announces_leaders_block() {
    let peers = ring(1);
    let mut g = GossipNode::new(peers[0], peers.clone());
    g.handle_request(vec![8]);
    let out = g.take_outbox();
    let id = match &out[0].0 {
        Event::ProposeBlock(b, _) => b.hash(),
        _ => panic!("expected a proposal"),
    };
    g.handle_event(&Event::ValidateBlock(id), &peers[0]);
    let a = g.take_announced();
    assert_eq!(a.len(), 1);
    assert_eq!(a[0].get_data(), &vec![8]);
}

#[test]
fn second_validation_changes_nothing() {
    let peers = ring(3);
    let (mut nodes, announced) = run_ring_nodes(3, 300);
    let id = announced[1][0].hash();
    for c in nodes.iter_mut() {
        drain(c);
        c.take_announced();
    }
    nodes[1].handle_event(&Event::ValidateBlock(id.clone()), peers[0]);
    assert!(nodes[1].send_next().is_none());
    assert!(nodes[1].take_announced().is_empty());
}

#[test]
fn proposal_travels_the_whole_ring_and_stops() {
    let peers = ring(4);
    let mut nodes: Vec<Context> = peers.iter().map(|p| node(*p, peers.clone())).collect();
    nodes[2].handle_request(vec![7]);
    let (mut evt, mut to) = drain(&mut nodes[2]).pop().unwrap();
    let mut from = peers[2];
    let mut visited = vec![];
    loop {
        let j = peers.iter().position(|p| *p == to).unwrap();
        visited.push(j);
        nodes[j].handle_event(&evt, from);
        let out = drain(&mut nodes[j]);
        match out.iter().find(|(e, _)| matches!(e, Event::ProposeBlock(_, _))) {
            Some((e, t)) => {
                evt = e.clone();
                to = *t;
                from = peers[j];
            }
            None => break,
        }
    }
    assert_eq!(visited, vec![3, 0, 1, 2]);
}

#[test]
fn gossip_targets_are_distinct() {
    let peers = ring(6);
    let mut g = GossipNode::new(peers[1], peers.clone());
    let b = Block::new(vec![]).next(vec![1]);
    g.handle_event(&Event::ProposeBlock(b, peers[0]), &peers[0]);
    let out = g.take_outbox();
    let mut targets: Vec<Addr> = out[..FANOUT].iter().map(|(_, t)| *t).collect();
    targets.sort_by_key(|a| format!("{:?}", a));
    targets.dedup();
    assert_eq!(targets.len(), FANOUT);
}

#[test]
fn gossip_message_dispatch_and_guards() {
    let mut lonely = GossipNode::new(addr(9), vec![]);
    assert!(!lonely.can_handle(&Message::Request(vec![1])));
    let id = Block::new(vec![]).hash();
    assert!(!lonely.can_handle(&Message::Event(Event::ValidateBlock(id.clone()))));
    assert!(lonely.can_handle(&Message::Event(Event::AckBlock(id))));
    let peers = ring(2);
    let mut g = GossipNode::new(peers[0], peers.clone());
    assert!(g.can_handle(&Message::Request(vec![1])));
    g.handle_message(Message::Request(vec![1]), &addr(9));
    assert_eq!(g.take_outbox().len(), 1);
    lonely.handle_message(Message::Event(Event::AckBlock(Block::new(vec![]).hash())), &addr(1));
    assert!(lonely.take_outbox().is_empty());
}
