use ethsim::devices::{Device, WireMsg};
use ethsim::ethernet::{EthernetFrame, FrameProtocol, MacAddress};
use ethsim::host::{Host, Node};
use ethsim::simulator::{InterfaceSpec, Simulator};
use ethsim::switch::{Layer2Switch, SwitchEvent};

fn addr(b: u8) -> MacAddress {
    MacAddress::new([b; 6])
}

#[test]
fn duplicate_address_is_detected() {
    let mut sim: Simulator<Layer2Switch> = Simulator::new();
    assert_eq!(sim.find_device(&addr(1)), None);
    sim.add_device(Layer2Switch::new(addr(1), 2));
    // a second device with address 1 may not be registered
    assert_eq!(sim.find_device(&addr(1)), Some(0));
    assert_eq!(sim.find_device(&addr(2)), None);
    sim.add_device(Layer2Switch::new(addr(2), 3));
    assert_eq!(sim.device_count(), 2);
    assert_eq!(sim.find_device(&addr(2)), Some(1));
    assert_eq!(sim.find_device(&addr(3)), None);
}

#[test]
fn wiring_a_missing_interface_fails() {
    let mut sim: Simulator<Layer2Switch> = Simulator::new();
    sim.add_device(Layer2Switch::new(addr(1), 2));
    sim.add_device(Layer2Switch::new(addr(2), 1));
    sim.add_link(InterfaceSpec::new(addr(1), 0), InterfaceSpec::new(addr(2), 5));
    assert!(!sim.wiring_ok());
    assert!(!sim.interface_free(&InterfaceSpec::new(addr(2), 5)));
    assert!(sim.interface_free(&InterfaceSpec::new(addr(2), 0)));
}

#[test]
fn wiring_a_missing_device_fails() {
    let mut sim: Simulator<Layer2Switch> = Simulator::new();
    sim.add_device(Layer2Switch::new(addr(1), 2));
    sim.add_link(InterfaceSpec::new(addr(1), 0), InterfaceSpec::new(addr(9), 0));
    assert!(!sim.wiring_ok());
}

#[test]
fn wiring_a_connected_interface_twice_fails() {
    let mut sim: Simulator<Layer2Switch> = Simulator::new();
    sim.add_device(Layer2Switch::new(addr(1), 2));
    sim.add_device(Layer2Switch::new(addr(2), 1));
    sim.add_link(InterfaceSpec::new(addr(1), 0), InterfaceSpec::new(addr(2), 0));
    assert!(sim.wiring_ok());
    sim.add_link(InterfaceSpec::new(addr(1), 1), InterfaceSpec::new(addr(2), 0));
    assert!(!sim.wiring_ok());
}

#[test]
fn wiring_an_interface_already_connected_fails() {
    let mut sim: Simulator<Layer2Switch> = Simulator::new();
    sim.add_device(Layer2Switch::new(addr(1), 2));
    sim.add_device(Layer2Switch::new(addr(2), 1));
    sim.add_link(InterfaceSpec::new(addr(1), 0), InterfaceSpec::new(addr(2), 0));
    assert!(sim.wiring_ok());
    sim.create_network();
    // the same records again name interfaces that now have connections
    assert!(!sim.wiring_ok());
}

#[test]
fn frames_cross_the_network() {
    let mut sim: Simulator<Layer2Switch> = Simulator::new();
    sim.add_device(Layer2Switch::new(addr(0x11), 3));
    for (i, b) in [0xA, 0xB, 0xC].into_iter().enumerate() {
        sim.add_device(Layer2Switch::new(addr(b), 1));
        sim.add_link(
            InterfaceSpec::new(addr(0x11), i as u32),
            InterfaceSpec::new(addr(b), 0),
        );
    }
    assert!(sim.wiring_ok());
    sim.create_network();

    let bytes = EthernetFrame {
        source: addr(0xA),
        destin: addr(0xB),
        protocol: FrameProtocol::Ipv4,
        data: b"Hello, world".to_vec(),
    }
    .to_bytes();
    assert_eq!(sim.send(1, 0, &bytes), Ok(()));
    assert_eq!(sim.device(0).module_ref().pending(), 1);
    assert_eq!(sim.step(0), 2);
    assert_eq!(sim.device(0).module_ref().pending(), 0);
    assert_eq!(sim.device(1).module_ref().pending(), 0);
    assert_eq!(sim.device(2).module_ref().pending(), 1);
    assert_eq!(sim.device(3).module_ref().pending(), 1);
    assert_eq!(
        sim.device(0).events(),
        &vec![SwitchEvent::Flooded { ingress: 0 }]
    );
    assert_eq!(sim.device(0).learned_interface(&addr(0xA)), Some(0));
}

fn round<D: Device>(sim: &mut Simulator<D>) -> usize {
    (0..sim.device_count()).map(|i| sim.step(i)).sum()
}

#[test]
fn rounds_run_until_quiet() {
    let mut sim: Simulator<Layer2Switch> = Simulator::new();
    sim.add_device(Layer2Switch::new(addr(0x11), 2));
    sim.add_device(Layer2Switch::new(addr(0xA), 1));
    sim.add_device(Layer2Switch::new(addr(0xB), 1));
    sim.add_link(InterfaceSpec::new(addr(0x11), 0), InterfaceSpec::new(addr(0xA), 0));
    sim.add_link(InterfaceSpec::new(addr(0x11), 1), InterfaceSpec::new(addr(0xB), 0));
    assert!(sim.wiring_ok());
    sim.create_network();
    assert_eq!(sim.pending(), 0);

    let bytes = EthernetFrame {
        source: addr(0xA),
        destin: addr(0xB),
        protocol: FrameProtocol::Apr,
        data: vec![1, 2, 3],
    }
    .to_bytes();
    sim.send(1, 0, &bytes).unwrap();
    assert_eq!(sim.pending(), 1);
    // the central switch floods to B; B's one-port switch has nowhere else to send it
    assert_eq!(round(&mut sim), 1);
    assert_eq!(sim.pending(), 0);
    assert_eq!(round(&mut sim), 0);
    assert_eq!(
        sim.device(2).events(),
        &vec![SwitchEvent::Flooded { ingress: 0 }]
    );
}

#[test]
fn hosts_around_a_switch() {
    let mut sim: Simulator<Node> = Simulator::new();
    sim.add_device(Node::Switch(Layer2Switch::new(addr(0x11), 3)));
    for (i, b) in [0xA, 0xB, 0xC].into_iter().enumerate() {
        sim.add_device(Node::Host(Host::new(addr(b), 1)));
        sim.add_link(
            InterfaceSpec::new(addr(0x11), i as u32),
            InterfaceSpec::new(addr(b), 0),
        );
    }
    assert!(sim.wiring_ok());
    sim.create_network();
    let frame = |s: u8, d: u8| {
        EthernetFrame {
            source: addr(s),
            destin: addr(d),
            protocol: FrameProtocol::Ipv4,
            data: b"payload".to_vec(),
        }
        .to_bytes()
    };
    let received = |sim: &Simulator<Node>, i: usize| match sim.device(i) {
        Node::Host(h) => h.received().iter().map(|m| m.data.clone()).collect::<Vec<_>>(),
        Node::Switch(_) => panic!("not a host"),
    };

    // A to B: flooded to B and C, not back to A
    let p1 = frame(0xA, 0xB);
    sim.send(1, 0, &p1).unwrap();
    assert_eq!(round(&mut sim), 2);
    assert_eq!(received(&sim, 1), Vec::<Vec<u8>>::new());
    assert_eq!(received(&sim, 2), vec![p1.clone()]);
    assert_eq!(received(&sim, 3), vec![p1.clone()]);

    // B to A: unicast to A only
    let p2 = frame(0xB, 0xA);
    sim.send(2, 0, &p2).unwrap();
    assert_eq!(round(&mut sim), 1);
    assert_eq!(received(&sim, 1), vec![p2.clone()]);
    assert_eq!(received(&sim, 2), vec![p1.clone()]);
    assert_eq!(received(&sim, 3), vec![p1]);
    match sim.device(0) {
        Node::Switch(s) => {
            assert_eq!(s.learned_interface(&addr(0xA)), Some(0));
            assert_eq!(s.learned_interface(&addr(0xB)), Some(1));
        }
        Node::Host(_) => panic!("not a switch"),
    }
}

#[test]
fn host_keeps_what_reaches_it() {
    let mut host = Host::new(addr(0xA), 1);
    host.get_module().push_msg(WireMsg { data: vec![1], interface_id: 0 });
    host.get_module().push_msg(WireMsg { data: vec![2], interface_id: 0 });
    let sent = host.run(&Vec::new());
    assert!(sent.is_empty());
    assert_eq!(host.module_ref().pending(), 0);
    let got: Vec<Vec<u8>> = host.take_received().into_iter().map(|m| m.data).collect();
    assert_eq!(got, vec![vec![1], vec![2]]);
    assert!(host.received().is_empty());
}
