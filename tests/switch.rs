use ethsim::devices::{Device, Module, WireMsg};
use ethsim::ethernet::{EthernetFrame, FrameProtocol, MacAddress};
use ethsim::links::{create_link, Inbox, LinkError, SimpleLink};
use ethsim::protocols::ParseError;
use ethsim::switch::{Layer2Switch, SwitchEvent};

fn addr(b: u8) -> MacAddress {
    MacAddress::new([b; 6])
}

fn frame(source: MacAddress, destin: MacAddress, text: &str) -> Vec<u8> {
    EthernetFrame {
        source,
        destin,
        protocol: FrameProtocol::Ipv4,
        data: text.as_bytes().to_vec(),
    }
    .to_bytes()
}

/// A switch in slot 0 with three interfaces; hosts in slots 1, 2, 3 with one each,
/// host `k` wired to switch interface `k - 1`.
fn star() -> (Layer2Switch, Vec<Module>, Vec<SimpleLink>) {
    let mut links: Vec<SimpleLink> = Vec::new();
    let mut switch = Layer2Switch::new(addr(0x11), 3);
    let mut hosts = Vec::new();
    for i in 0..3u32 {
        let (e1, e2) = create_link(&mut links);
        switch
            .get_module()
            .attach_link(i, e1, &mut links, 0)
            .unwrap();
        let mut host = Module::new(1);
        host.attach_link(0, e2, &mut links, i as usize + 1).unwrap();
        hosts.push(host);
    }
    (switch, hosts, links)
}

#[test]
fn learns_floods_then_unicasts() {
    let (mut switch, hosts, links) = star();
    let a = addr(0xA);
    let b = addr(0xB);

    // A sends to B: the frame reaches the switch on interface 0
    let sent = hosts[0]
        .get_interface(0)
        .unwrap()
        .send(&links, &frame(a, b, "hello"))
        .unwrap();
    assert_eq!(sent.to, Inbox::new(0, 0));
    switch.get_module().push_msg(WireMsg {
        data: sent.data,
        interface_id: sent.to.interface_id,
    });
    let msg = switch.get_module().wait_for_msg().unwrap();
    let sends = switch.handle(&msg, &links);

    assert_eq!(switch.learned_interface(&a), Some(0));
    assert_eq!(switch.learned_interface(&b), None);
    let out: Vec<u32> = sends.iter().map(|s| s.0).collect();
    assert_eq!(out, vec![1, 2]);
    assert_eq!(sends[0].1.as_ref().unwrap().to, Inbox::new(2, 0));
    assert_eq!(sends[1].1.as_ref().unwrap().to, Inbox::new(3, 0));
    assert_eq!(sends[0].1.as_ref().unwrap().data, msg.data);
    assert_eq!(switch.events().last(), Some(&SwitchEvent::Flooded { ingress: 0 }));

    // B replies to A: the frame reaches the switch on interface 1
    let reply = WireMsg {
        data: frame(b, a, "Hi"),
        interface_id: 1,
    };
    let sends = switch.handle(&reply, &links);
    assert_eq!(switch.learned_interface(&b), Some(1));
    assert_eq!(sends.len(), 1);
    assert_eq!(sends[0].0, 0);
    assert_eq!(sends[0].1.as_ref().unwrap().to, Inbox::new(1, 0));
    assert_eq!(
        switch.events().last(),
        Some(&SwitchEvent::Unicast { interface_id: 0 })
    );
}

#[test]
fn same_interface_destination_is_dropped() {
    let (mut switch, _hosts, links) = star();
    let a = addr(0xA);
    let b = addr(0xB);
    switch.learn_address(&b, 0);

    let msg = WireMsg {
        data: frame(a, b, "loop"),
        interface_id: 0,
    };
    let sends = switch.handle(&msg, &links);
    assert!(sends.is_empty());
    assert_eq!(
        switch.events().last(),
        Some(&SwitchEvent::Dropped { interface_id: 0 })
    );
    assert_eq!(switch.learned_interface(&a), Some(0));
}

#[test]
fn malformed_frame_is_recorded_and_dropped() {
    let (mut switch, _hosts, links) = star();
    let msg = WireMsg {
        data: vec![1, 2, 3],
        interface_id: 2,
    };
    let sends = switch.handle(&msg, &links);
    assert!(sends.is_empty());
    assert_eq!(
        switch.events().last(),
        Some(&SwitchEvent::Malformed {
            interface_id: 2,
            error: ParseError::MissingBytes
        })
    );
}

#[test]
fn broadcast_source_is_not_learned() {
    let (mut switch, _hosts, links) = star();
    let msg = WireMsg {
        data: frame(MacAddress::broadcast(), addr(0xC), "x"),
        interface_id: 1,
    };
    let sends = switch.handle(&msg, &links);
    assert_eq!(switch.learned_interface(&MacAddress::broadcast()), None);
    let out: Vec<u32> = sends.iter().map(|s| s.0).collect();
    assert_eq!(out, vec![0, 2]);
}

#[test]
fn latest_sighting_wins() {
    let (mut switch, _hosts, links) = star();
    let a = addr(0xA);
    for ingress in [0u32, 2, 1] {
        let msg = WireMsg {
            data: frame(a, addr(0xB), "x"),
            interface_id: ingress,
        };
        switch.handle(&msg, &links);
        assert_eq!(switch.learned_interface(&a), Some(ingress));
    }
}

#[test]
fn flood_skips_down_interfaces() {
    let mut links: Vec<SimpleLink> = Vec::new();
    let mut switch = Layer2Switch::new(addr(0x11), 3);
    let (e1, _e2) = create_link(&mut links);
    switch.get_module().attach_link(2, e1, &mut links, 0).unwrap();
    let msg = WireMsg {
        data: frame(addr(0xA), addr(0xB), "x"),
        interface_id: 0,
    };
    let sends = switch.handle(&msg, &links);
    // only interface 2 is up, and its far end has no receiver yet
    assert_eq!(sends.len(), 1);
    assert_eq!(sends[0].0, 2);
    assert_eq!(sends[0].1, Err(LinkError::LinkIsDown));
}

#[test]
fn run_drains_the_queue() {
    let (mut switch, _hosts, links) = star();
    switch.get_module().push_msg(WireMsg {
        data: frame(addr(0xA), addr(0xB), "one"),
        interface_id: 0,
    });
    switch.get_module().push_msg(WireMsg {
        data: frame(addr(0xB), addr(0xA), "two"),
        interface_id: 1,
    });
    let sent = switch.run(&links);
    assert_eq!(switch.module_ref().pending(), 0);
    let to: Vec<Inbox> = sent.iter().map(|d| d.to).collect();
    assert_eq!(to, vec![Inbox::new(2, 0), Inbox::new(3, 0), Inbox::new(1, 0)]);
    let events = switch.take_events();
    assert_eq!(
        events,
        vec![
            SwitchEvent::Flooded { ingress: 0 },
            SwitchEvent::Unicast { interface_id: 0 }
        ]
    );
    assert!(switch.events().is_empty());
}

#[test]
fn module_basics() {
    let mut m = Module::new(2);
    assert_eq!(m.get_interface_nr(), 2);
    assert!(m.get_interface(2).is_none());
    assert!(!m.get_interface(1).unwrap().is_up());
    assert_eq!(m.interfaces().len(), 2);
    assert_eq!(m.wait_for_msg(), None);
    m.push_msg(WireMsg { data: vec![1], interface_id: 0 });
    m.push_msg(WireMsg { data: vec![2], interface_id: 1 });
    assert_eq!(m.pending(), 2);
    assert_eq!(m.wait_for_msg().unwrap().data, vec![1]);
    assert_eq!(m.wait_for_msg().unwrap().data, vec![2]);
    assert_eq!(
        m.get_interface(0).unwrap().send(&Vec::new(), &[1]),
        Err(LinkError::LinkIsDown)
    );
}

#[test]
fn attaching_an_end_that_has_a_receiver_fails() {
    let mut links: Vec<SimpleLink> = Vec::new();
    let (e1, _e2) = create_link(&mut links);
    let mut m1 = Module::new(1);
    let mut m2 = Module::new(1);
    assert_eq!(m1.attach_link(0, e1, &mut links, 0), Ok(()));
    assert_eq!(
        m2.attach_link(0, e1, &mut links, 1),
        Err(LinkError::ReceiverAlreadyAttached)
    );
    assert!(!m2.get_interface(0).unwrap().is_up());
    assert!(m1.get_interface(0).unwrap().is_up());
}

#[test]
fn run_drops_frame_for_the_ingress_interface() {
    let (mut switch, _hosts, links) = star();
    let a = addr(0xA);
    let b = addr(0xB);
    switch.learn_address(&b, 0);
    switch.get_module().push_msg(WireMsg {
        data: frame(a, b, "loop"),
        interface_id: 0,
    });
    let sent = switch.run(&links);
    assert!(sent.is_empty());
    assert_eq!(
        switch.take_events(),
        vec![SwitchEvent::Dropped { interface_id: 0 }]
    );
    assert_eq!(switch.learned_interface(&a), Some(0));
    assert_eq!(switch.learned_interface(&b), Some(0));
}

#[test]
fn run_records_unknown_interfaces_and_failed_sends() {
    let mut links: Vec<SimpleLink> = Vec::new();
    let mut switch = Layer2Switch::new(addr(0x11), 2);
    let (e1, _e2) = create_link(&mut links);
    switch.get_module().attach_link(1, e1, &mut links, 0).unwrap();
    switch.get_module().push_msg(WireMsg {
        data: frame(addr(0xA), addr(0xB), "x"),
        interface_id: 7,
    });
    switch.get_module().push_msg(WireMsg {
        data: frame(addr(0xA), addr(0xB), "x"),
        interface_id: 0,
    });
    let sent = switch.run(&links);
    assert!(sent.is_empty());
    assert_eq!(
        switch.take_events(),
        vec![
            SwitchEvent::UnknownInterface { interface_id: 7 },
            SwitchEvent::Flooded { ingress: 0 },
            SwitchEvent::SendFailed {
                interface_id: 1,
                error: LinkError::LinkIsDown
            }
        ]
    );
}

#[test]
fn new_switch_reports_its_address() {
    let switch = Layer2Switch::new(addr(0x42), 4);
    assert_eq!(switch.get_mac_address(), addr(0x42));
    assert_eq!(switch.module_ref().get_interface_nr(), 4);
    assert!(switch.module_ref().interfaces().iter().all(|i| !i.is_up()));
    assert_eq!(switch.learned_interface(&addr(1)), None);
}
