use std::collections::HashMap;
use vstd::prelude::*;

use crate::devices::{deliveries_view, send_outcome, sent_as, Device, Interface, Module, WireMsg};
use crate::ethernet::{decode, encode, mac_key, EthernetFrame, FrameValue, MacAddress};
use crate::links::{Delivery, Inbox, LinkError, SimpleLink};
use crate::protocols::ParseError;

verus! {

broadcast use vstd::std_specs::hash::group_hash_axioms;

/// What a switch did with one arrived payload, or with one attempt to send it on.
#[derive(Debug, PartialEq, Eq, Clone, Copy)]
pub enum SwitchEvent {
    /// The payload was not a frame; it was dropped.
    Malformed { interface_id: u32, error: ParseError },
    /// The destination was learned on another interface: sent there only.
    Unicast { interface_id: u32 },
    /// The destination is unknown: sent on every other interface that is up.
    Flooded { ingress: u32 },
    /// The destination was learned on the ingress interface: dropped.
    Dropped { interface_id: u32 },
    /// A payload was queued under an interface the module does not have; it was dropped.
    UnknownInterface { interface_id: u32 },
    /// Sending on an interface failed.
    SendFailed { interface_id: u32, error: LinkError },
}

/// The six bytes of the broadcast address.
pub open spec fn broadcast_bytes() -> Seq<u8> {
    seq![0xFFu8, 0xFF, 0xFF, 0xFF, 0xFF, 0xFF]
}

/// The table after a frame from `source` arrived on `ingress`: the latest sighting of
/// every address but the broadcast one.
pub open spec fn learn(table: Map<u64, u32>, source: Seq<u8>, ingress: u32) -> Map<u64, u32> {
    if source == broadcast_bytes() {
        table
    } else {
        table.insert(mac_key(source), ingress)
    }
}

/// The forwarding decision for a frame to `destin` that arrived on `ingress`.
pub open spec fn decide(table: Map<u64, u32>, ingress: u32, destin: Seq<u8>) -> SwitchEvent {
    if table.contains_key(mac_key(destin)) {
        if table[mac_key(destin)] != ingress {
            SwitchEvent::Unicast { interface_id: table[mac_key(destin)] }
        } else {
            SwitchEvent::Dropped { interface_id: ingress }
        }
    } else {
        SwitchEvent::Flooded { ingress }
    }
}

/// The interfaces among the first `n` that a flood from `ingress` goes out on, in order:
/// every one that is up, but the ingress.
pub open spec fn flood_targets(ports: Seq<Interface>, ingress: u32, n: nat) -> Seq<u32>
    decreases n,
{
    if n == 0 {
        Seq::empty()
    } else {
        let prev = flood_targets(ports, ingress, (n - 1) as nat);
        let i = n - 1;
        if i != ingress && ports[i].link() is Some {
            prev.push(i as u32)
        } else {
            prev
        }
    }
}

/// The interfaces a decision sends on: the learned one when it exists, every one a
/// flood reaches, or none.
pub open spec fn targets(ports: Seq<Interface>, ev: SwitchEvent) -> Seq<u32> {
    match ev {
        SwitchEvent::Unicast { interface_id: o } => if o < ports.len() {
            seq![o]
        } else {
            Seq::empty()
        },
        SwitchEvent::Flooded { ingress } => flood_targets(ports, ingress, ports.len()),
        _ => Seq::empty(),
    }
}

/// The payloads that sending `data` on each of `ts`, in order, hands to a receiver.
pub open spec fn sent_ok(ports: Seq<Interface>, links: Seq<SimpleLink>, ts: Seq<u32>, data: Seq<u8>) -> Seq<
    (Inbox, Seq<u8>),
>
    decreases ts.len(),
{
    if ts.len() == 0 {
        Seq::empty()
    } else {
        let prev = sent_ok(ports, links, ts.drop_last(), data);
        match send_outcome(ports[ts.last() as int], links, data) {
            Ok(d) => prev.push(d),
            Err(_) => prev,
        }
    }
}

/// The failures of sending `data` on each of `ts`, in order.
pub open spec fn send_failures(
    ports: Seq<Interface>,
    links: Seq<SimpleLink>,
    ts: Seq<u32>,
    data: Seq<u8>,
) -> Seq<SwitchEvent>
    decreases ts.len(),
{
    if ts.len() == 0 {
        Seq::empty()
    } else {
        let prev = send_failures(ports, links, ts.drop_last(), data);
        match send_outcome(ports[ts.last() as int], links, data) {
            Ok(_) => prev,
            Err(error) => prev.push(SwitchEvent::SendFailed { interface_id: ts.last(), error }),
        }
    }
}

/// The learn table after handling `data` from `ingress`.
pub open spec fn handled_table(table: Map<u64, u32>, ingress: u32, data: Seq<u8>) -> Map<u64, u32> {
    match decode(data) {
        Err(_) => table,
        Ok(f) => learn(table, f.0, ingress),
    }
}

/// The event recorded for the decision on `data` from `ingress`.
pub open spec fn handled_event(table: Map<u64, u32>, ingress: u32, data: Seq<u8>) -> SwitchEvent {
    match decode(data) {
        Err(e) => SwitchEvent::Malformed { interface_id: ingress, error: e },
        Ok(f) => decide(learn(table, f.0, ingress), ingress, f.1),
    }
}

/// What handling one queued payload does: the new table, the events recorded, and the
/// payloads handed to receivers.
pub open spec fn msg_step(
    ports: Seq<Interface>,
    links: Seq<SimpleLink>,
    table: Map<u64, u32>,
    msg: WireMsg,
) -> (Map<u64, u32>, Seq<SwitchEvent>, Seq<(Inbox, Seq<u8>)>) {
    let ingress = msg.interface_id;
    let data = msg.data@;
    if ingress >= ports.len() {
        (table, seq![SwitchEvent::UnknownInterface { interface_id: ingress }], Seq::empty())
    } else {
        let ts = targets(ports, handled_event(table, ingress, data));
        (
            handled_table(table, ingress, data),
            seq![handled_event(table, ingress, data)] + send_failures(ports, links, ts, data),
            sent_ok(ports, links, ts, data),
        )
    }
}

/// What handling the payloads of `q`, oldest first, does from the table `table`.
pub open spec fn run_effect(
    ports: Seq<Interface>,
    links: Seq<SimpleLink>,
    table: Map<u64, u32>,
    q: Seq<WireMsg>,
) -> (Map<u64, u32>, Seq<SwitchEvent>, Seq<(Inbox, Seq<u8>)>)
    decreases q.len(),
{
    if q.len() == 0 {
        (table, Seq::empty(), Seq::empty())
    } else {
        let prev = run_effect(ports, links, table, q.drop_last());
        let step = msg_step(ports, links, prev.0, q.last());
        (step.0, prev.1 + step.1, prev.2 + step.2)
    }
}

/// A MAC-learning switch.
pub struct Layer2Switch {
    address: MacAddress,
    module: Module,
    learn_table: HashMap<u64, u32>,
    events: Vec<SwitchEvent>,
}

impl Layer2Switch {
    pub closed spec fn addr(&self) -> MacAddress {
        self.address
    }

    pub closed spec fn module_view(&self) -> Module {
        self.module
    }

    /// Learned interface of each address, by `mac_key`.
    pub closed spec fn table(&self) -> Map<u64, u32> {
        self.learn_table@
    }

    /// What the switch has recorded, oldest first.
    pub closed spec fn log(&self) -> Seq<SwitchEvent> {
        self.events@
    }

    /// The module is well formed, every learned interface exists, and the broadcast
    /// address is never learned.
    pub open spec fn wf(&self) -> bool {
        &&& self.module_view().wf()
        &&& table_ok(self.table(), self.module_view().nr() as nat)
    }

    pub fn new(address: MacAddress, interface_nr: u32) -> (r: Layer2Switch)
        requires
            interface_nr > 0,
        ensures
            r.wf(),
            r.addr() == address,
            r.mac_address() == address,
            r.module_spec() == r.module_view(),
            r.inv(),
            r.module_view().nr() == interface_nr,
            forall|i: int| 0 <= i < interface_nr ==> r.module_view().link_of(i) is None,
            r.module_view().queue().len() == 0,
            r.table() == Map::<u64, u32>::empty(),
            r.log().len() == 0,
    {
        Layer2Switch {
            address,
            module: Module::new(interface_nr),
            learn_table: HashMap::new(),
            events: Vec::new(),
        }
    }

    /// The interface on which `address` was last seen as a source.
    pub fn learned_interface(&self, address: &MacAddress) -> (r: Option<u32>)
        ensures
            r == (if self.table().contains_key(mac_key(address@)) {
                Some(self.table()[mac_key(address@)])
            } else {
                None
            }),
    {
        match self.learn_table.get(&address.key()) {
            Some(i) => Some(*i),
            None => None,
        }
    }

    fn module_mut(&mut self) -> (r: &mut Module)
        ensures
            *r == old(self).module,
            final(self).module == *final(r),
            final(self).learn_table@ == old(self).learn_table@,
            final(self).address == old(self).address,
            final(self).events@ == old(self).events@,
            old(self).inv() && final(r).nr() == old(self).module.nr() ==> final(self).inv(),
    {
        &mut self.module
    }

    /// What the network sees of a switch through `Device` is its own state.
    pub proof fn lemma_device_views(&self, links: Seq<SimpleLink>)
        ensures
            self.mac_address() == self.addr(),
            self.module_spec() == self.module_view(),
            self.outbox(links) == run_effect(
                self.module_view().ports(),
                links,
                self.table(),
                self.module_view().queue(),
            ).2,
    {
    }

    /// Records that `address` was last seen on `interface_id`.
    pub fn learn_address(&mut self, address: &MacAddress, interface_id: u32)
        requires
            old(self).wf(),
            interface_id < old(self).module_view().nr(),
            address@ != broadcast_bytes(),
        ensures
            final(self).wf(),
            final(self).table() == old(self).table().insert(mac_key(address@), interface_id),
            final(self).addr() == old(self).addr(),
            final(self).module_view() == old(self).module_view(),
            final(self).log() == old(self).log(),
    {
        let key = address.key();
        self.learn_table.insert(key, interface_id);
        proof {
            if key == mac_key(broadcast_bytes()) {
                crate::ethernet::lemma_mac_key_injective(address@, broadcast_bytes());
            }
            assert forall|k: u64| #[trigger] self.table().contains_key(k) implies self.table()[k]
                < self.module_view().nr() by {
                if k != key {
                    assert(old(self).table().contains_key(k));
                }
            }
        }
    }

    pub fn events(&self) -> (r: &Vec<SwitchEvent>)
        ensures
            r@ == self.log(),
    {
        &self.events
    }

    /// Hands out the recorded events and clears the record.
    pub fn take_events(&mut self) -> (r: Vec<SwitchEvent>)
        ensures
            r@ == old(self).log(),
            final(self).log().len() == 0,
            final(self).table() == old(self).table(),
            final(self).addr() == old(self).addr(),
            final(self).module_view() == old(self).module_view(),
    {
        let mut taken: Vec<SwitchEvent> = Vec::new();
        std::mem::swap(&mut taken, &mut self.events);
        taken
    }
}

} // verus!

verus! {

impl Layer2Switch {
    /// Sends `data` on every interface that is up, but `ingress`, in order.
    fn flood(&self, ingress: u32, links: &Vec<SimpleLink>, data: &[u8]) -> (r: Vec<
        (u32, Result<Delivery, LinkError>),
    >)
        requires
            self.wf(),
            self.module_view().links_in(links@),
        ensures
            r@.len() == flood_targets(
                self.module_view().ports(),
                ingress,
                self.module_view().nr() as nat,
            ).len(),
            forall|k: int|
                0 <= k < r@.len() ==> {
                    let t = flood_targets(
                        self.module_view().ports(),
                        ingress,
                        self.module_view().nr() as nat,
                    )[k];
                    &&& (#[trigger] r@[k]).0 == t
                    &&& sent_as(r@[k].1, self.module_view().ports()[t as int], links@, data@)
                },
    {
        let interfaces = self.module.interfaces();
        let ghost ports = self.module_view().ports();
        let mut out: Vec<(u32, Result<Delivery, LinkError>)> = Vec::new();
        let mut i: usize = 0;
        while i < interfaces.len()
            invariant
                interfaces@ == ports,
                ports == self.module_view().ports(),
                ports.len() == self.module_view().nr(),
                self.wf(),
                self.module_view().links_in(links@),
                i <= ports.len(),
                out@.len() == flood_targets(ports, ingress, i as nat).len(),
                forall|k: int|
                    0 <= k < out@.len() ==> {
                        let t = flood_targets(ports, ingress, i as nat)[k];
                        &&& (#[trigger] out@[k]).0 == t
                        &&& sent_as(out@[k].1, ports[t as int], links@, data@)
                    },
            decreases ports.len() - i,
        {
            let port = &interfaces[i];
            let ghost before = flood_targets(ports, ingress, i as nat);
            assert(port.id() == i);
            if port.get_id() != ingress && port.is_up() {
                let res = port.send(links, data);
                out.push((port.get_id(), res));
            }
            assert(flood_targets(ports, ingress, (i + 1) as nat) == if i != ingress
                && ports[i as int].link() is Some {
                before.push(i as u32)
            } else {
                before
            });
            i = i + 1;
        }
        out
    }

    /// Handles one payload that arrived on `msg.interface_id`: learns its source, then
    /// sends it to the learned interface of its destination (when the module has that
    /// interface), floods it when the destination is unknown, or drops it when the
    /// destination was learned on the interface it came from. Records one event for the
    /// decision and returns each attempt to send, with the interface it was made on.
    pub fn handle(&mut self, msg: &WireMsg, links: &Vec<SimpleLink>) -> (r: Vec<
        (u32, Result<Delivery, LinkError>),
    >)
        requires
            old(self).wf(),
            msg.interface_id < old(self).module_view().nr(),
            old(self).module_view().links_in(links@),
        ensures
            final(self).wf(),
            final(self).addr() == old(self).addr(),
            final(self).module_view() == old(self).module_view(),
            match decode(msg.data@) {
                Err(e) => {
                    &&& final(self).table() == old(self).table()
                    &&& final(self).log() == old(self).log().push(
                        SwitchEvent::Malformed { interface_id: msg.interface_id, error: e },
                    )
                    &&& r@.len() == 0
                },
                Ok(f) => {
                    let t = learn(old(self).table(), f.0, msg.interface_id);
                    let ev = decide(t, msg.interface_id, f.1);
                    let ports = old(self).module_view().ports();
                    let ts = targets(ports, ev);
                    &&& final(self).table() == t
                    &&& final(self).log() == old(self).log().push(ev)
                    &&& r@.len() == ts.len()
                    &&& forall|k: int|
                        0 <= k < r@.len() ==> (#[trigger] r@[k]).0 == ts[k] && sent_as(
                            r@[k].1,
                            ports[ts[k] as int],
                            links@,
                            msg.data@,
                        )
                },
            },
    {
        let ingress = msg.interface_id;
        let frame = match EthernetFrame::from_raw_bytes(msg.data.as_slice()) {
            Ok(frame) => frame,
            Err(error) => {
                self.events.push(SwitchEvent::Malformed { interface_id: ingress, error });
                return Vec::new();
            },
        };
        let ghost f = frame@;

        if !(frame.source == MacAddress::broadcast()) {
            self.learn_address(&frame.source, ingress);
        }
        assert(self.table() == learn(old(self).table(), f.0, ingress));

        match self.learned_interface(&frame.destin) {
            Some(out) => {
                if out != ingress {
                    self.events.push(SwitchEvent::Unicast { interface_id: out });
                    match self.module.get_interface(out) {
                        Some(port) => {
                            let res = port.send(links, msg.data.as_slice());
                            let mut sends: Vec<(u32, Result<Delivery, LinkError>)> = Vec::new();
                            sends.push((out, res));
                            sends
                        },
                        None => Vec::new(),
                    }
                } else {
                    self.events.push(SwitchEvent::Dropped { interface_id: ingress });
                    Vec::new()
                }
            },
            None => {
                self.events.push(SwitchEvent::Flooded { ingress });
                self.flood(ingress, links, msg.data.as_slice())
            },
        }
    }
}

impl Device for Layer2Switch {
    closed spec fn mac_address(&self) -> MacAddress {
        self.address
    }

    closed spec fn module_spec(&self) -> Module {
        self.module
    }

    fn get_mac_address(&self) -> (r: MacAddress) {
        self.address
    }

    fn module_ref(&self) -> (r: &Module) {
        &self.module
    }

    fn get_module(&mut self) -> (r: &mut Module) {
        self.module_mut()
    }

    closed spec fn inv(&self) -> bool {
        table_ok(self.learn_table@, self.module.nr() as nat)
    }

    closed spec fn outbox(&self, links: Seq<SimpleLink>) -> Seq<(Inbox, Seq<u8>)> {
        run_effect(self.module.ports(), links, self.learn_table@, self.module.queue()).2
    }

    /// Handles every queued payload, oldest first, as `handle` does; a payload queued
    /// under an interface the module lacks is recorded and dropped, and each failed send
    /// is recorded after the decision it belongs to.
    fn run(&mut self, links: &Vec<SimpleLink>) -> (r: Vec<Delivery>)
        ensures
            ({
                let e = run_effect(
                    old(self).module_view().ports(),
                    links@,
                    old(self).table(),
                    old(self).module_view().queue(),
                );
                &&& final(self).table() == e.0
                &&& final(self).log() == old(self).log() + e.1
                &&& deliveries_view(r@) == e.2
            }),
    {
        let mut sent: Vec<Delivery> = Vec::new();
        let ghost ports = self.module.ports();
        let ghost nr = self.module.nr();
        let ghost q0 = self.module.queue();
        let ghost t0 = self.table();
        let ghost log0 = self.log();
        let ghost mut n: int = 0;
        loop
            invariant
                self.wf(),
                self.module.ports() == ports,
                self.module.nr() == nr,
                ports.len() == nr,
                self.address == old(self).address,
                self.module_view().links_in(links@),
                0 <= n <= q0.len(),
                self.module.queue() == q0.skip(n),
                q0 == old(self).module.queue(),
                t0 == old(self).table(),
                log0 == old(self).log(),
                ports == old(self).module.ports(),
                self.table() == run_effect(ports, links@, t0, q0.take(n)).0,
                self.log() == log0 + run_effect(ports, links@, t0, q0.take(n)).1,
                deliveries_view(sent@) == run_effect(ports, links@, t0, q0.take(n)).2,
            ensures
                self.module.queue().len() == 0,
                n == q0.len(),
            decreases self.module.queue().len(),
        {
            let msg = match self.module.wait_for_msg() {
                Some(msg) => msg,
                None => { break; },
            };
            let ghost prev = run_effect(ports, links@, t0, q0.take(n));
            let ghost step = msg_step(ports, links@, prev.0, msg);
            proof {
                assert(msg == q0[n]);
                assert(q0.take(n + 1).drop_last() =~= q0.take(n));
                assert(q0.take(n + 1).last() == q0[n]);
                assert(self.module.queue() =~= q0.skip(n + 1));
            }
            if msg.interface_id >= self.module.get_interface_nr() {
                self.events.push(SwitchEvent::UnknownInterface { interface_id: msg.interface_id });
                proof {
                    assert(self.log() =~= log0 + (prev.1 + step.1));
                    assert(deliveries_view(sent@) =~= prev.2 + step.2);
                    n = n + 1;
                }
                continue;
            }
            let ghost ev = handled_event(prev.0, msg.interface_id, msg.data@);
            let ghost ts = targets(ports, ev);
            let ghost sent0 = deliveries_view(sent@);
            let mut sends = self.handle(&msg, links);
            let ghost s0 = sends@;
            let ghost queue = self.module.queue();
            assert(s0.len() == ts.len());
            assert(self.log() == log0 + prev.1 + seq![ev]);
            let total = sends.len();
            let mut k: usize = 0;
            while sends.len() > 0
                invariant
                    s0.len() == total,
                    self.wf(),
                    self.module.ports() == ports,
                    self.module.nr() == nr,
                    self.address == old(self).address,
                    self.module_view().links_in(links@),
                    self.module.queue() == queue,
                    self.table() == step.0,
                    k <= s0.len(),
                    s0.len() == ts.len(),
                    sends@ == s0.skip(k as int),
                    forall|j: int|
                        0 <= j < s0.len() ==> (#[trigger] s0[j]).0 == ts[j] && sent_as(
                            s0[j].1,
                            ports[ts[j] as int],
                            links@,
                            msg.data@,
                        ),
                    self.log() == log0 + prev.1 + seq![ev] + send_failures(ports, links@, ts.take(k as int), msg.data@),
                    deliveries_view(sent@) == sent0 + sent_ok(ports, links@, ts.take(k as int), msg.data@),
                decreases sends@.len(),
            {
                let (interface_id, outcome) = sends.remove(0);
                proof {
                    assert(s0[k as int] == (interface_id, outcome));
                    assert(ts.take(k + 1).drop_last() =~= ts.take(k as int));
                    assert(ts.take(k + 1).last() == ts[k as int]);
                }
                match outcome {
                    Ok(d) => {
                        let ghost before = sent@;
                        let ghost dv = (d.to, d.data@);
                        assert(send_outcome(ports[ts[k as int] as int], links@, msg.data@) == Ok::<(Inbox, Seq<u8>), LinkError>(dv));
                        assert(sent_ok(ports, links@, ts.take(k + 1), msg.data@) == sent_ok(ports, links@, ts.take(k as int), msg.data@).push(dv));
                        sent.push(d);
                        proof {
                            assert(deliveries_view(sent@) =~= deliveries_view(before).push(dv));
                            assert(deliveries_view(sent@) =~= sent0 + sent_ok(ports, links@, ts.take(k + 1), msg.data@));
                        }
                    },
                    Err(error) => {
                        self.events.push(SwitchEvent::SendFailed { interface_id, error });
                        proof {
                            assert(self.log() =~= log0 + prev.1 + seq![ev] + send_failures(ports, links@, ts.take(k + 1), msg.data@));
                        }
                    },
                }
                proof {
                    assert(sends@ =~= s0.skip(k + 1));
                }
                k = k + 1;
            }
            proof {
                assert(ts.take(k as int) =~= ts);
                assert(self.log() =~= log0 + (prev.1 + step.1));
                assert(deliveries_view(sent@) =~= prev.2 + step.2);
                n = n + 1;
            }
        }
        proof {
            assert(q0.take(n) =~= q0);
        }
        sent
    }
}

} // verus!

verus! {

/// Every learned interface exists, and the broadcast address is never learned.
pub open spec fn table_ok(table: Map<u64, u32>, nr: nat) -> bool {
    &&& forall|k: u64| #[trigger] table.contains_key(k) ==> table[k] < nr
    &&& !table.contains_key(mac_key(broadcast_bytes()))
}

/// Handling a queue keeps the learn table to interfaces that exist and never learns the
/// broadcast address.
pub proof fn lemma_run_keeps_table_ok(
    ports: Seq<Interface>,
    links: Seq<SimpleLink>,
    table: Map<u64, u32>,
    q: Seq<WireMsg>,
)
    requires
        table_ok(table, ports.len()),
    ensures
        table_ok(run_effect(ports, links, table, q).0, ports.len()),
    decreases q.len(),
{
    if q.len() > 0 {
        lemma_run_keeps_table_ok(ports, links, table, q.drop_last());
        let prev = run_effect(ports, links, table, q.drop_last()).0;
        let m = q.last();
        if m.interface_id < ports.len() {
            match decode(m.data@) {
                Ok(f) => {
                    if f.0 != broadcast_bytes() {
                        if mac_key(f.0) == mac_key(broadcast_bytes()) {
                            crate::ethernet::lemma_mac_key_injective(f.0, broadcast_bytes());
                        }
                    }
                },
                Err(_) => {},
            }
        }
    }
}

} // verus!

verus! {

/// A switch with three connected interfaces and an empty table gets a frame from `a` to
/// `b` on interface 0: it learns `a` on 0 and floods the payload, unchanged, to the
/// receivers of interfaces 1 and 2 only. When `b` then answers on interface 1, it learns
/// `b` on 1 and sends the answer to the receiver of interface 0 only.
pub proof fn lemma_three_port_scenario(
    ports: Seq<Interface>,
    links: Seq<SimpleLink>,
    inboxes: Seq<Inbox>,
    a: Seq<u8>,
    b: Seq<u8>,
    first: WireMsg,
    f1: FrameValue,
    reply: WireMsg,
    f2: FrameValue,
)
    requires
        ports.len() == 3,
        inboxes.len() == 3,
        forall|i: int, d: Seq<u8>|
            0 <= i < 3 ==> #[trigger] send_outcome(ports[i], links, d) == Ok::<(Inbox, Seq<u8>), LinkError>(
                (inboxes[i], d),
            ),
        a.len() == 6,
        b.len() == 6,
        a != b,
        a != broadcast_bytes(),
        b != broadcast_bytes(),
        f1.0 == a && f1.1 == b,
        f2.0 == b && f2.1 == a,
        first.data@ == encode(f1),
        first.interface_id == 0,
        reply.data@ == encode(f2),
        reply.interface_id == 1,
    ensures
        ({
            let e1 = run_effect(ports, links, Map::empty(), seq![first]);
            let t1 = Map::<u64, u32>::empty().insert(mac_key(a), 0);
            let e2 = run_effect(ports, links, e1.0, seq![reply]);
            &&& e1.0 == t1
            &&& e1.1 == seq![SwitchEvent::Flooded { ingress: 0 }]
            &&& e1.2 == seq![(inboxes[1], first.data@), (inboxes[2], first.data@)]
            &&& e2.0 == t1.insert(mac_key(b), 1)
            &&& e2.1 == seq![SwitchEvent::Unicast { interface_id: 0 }]
            &&& e2.2 == seq![(inboxes[0], reply.data@)]
        }),
{
    crate::ethernet::lemma_frame_round_trip(f1);
    crate::ethernet::lemma_frame_round_trip(f2);
    if mac_key(a) == mac_key(b) {
        crate::ethernet::lemma_mac_key_injective(a, b);
    }
    let d1 = first.data@;
    let d2 = reply.data@;
    assert(send_outcome(ports[0], links, d1) == Ok::<(Inbox, Seq<u8>), LinkError>((inboxes[0], d1)));
    assert(send_outcome(ports[1], links, d1) == Ok::<(Inbox, Seq<u8>), LinkError>((inboxes[1], d1)));
    assert(send_outcome(ports[2], links, d1) == Ok::<(Inbox, Seq<u8>), LinkError>((inboxes[2], d1)));
    assert(send_outcome(ports[0], links, d2) == Ok::<(Inbox, Seq<u8>), LinkError>((inboxes[0], d2)));
    assert(ports[0].link() is Some && ports[1].link() is Some && ports[2].link() is Some);
    let t1 = Map::<u64, u32>::empty().insert(mac_key(a), 0);
    assert(seq![first].drop_last() =~= Seq::<WireMsg>::empty());
    assert(seq![reply].drop_last() =~= Seq::<WireMsg>::empty());
    assert(!t1.contains_key(mac_key(b)));
    let ts = flood_targets(ports, 0, 3);
    assert(flood_targets(ports, 0, 0) == Seq::<u32>::empty());
    assert(flood_targets(ports, 0, 1) == Seq::<u32>::empty());
    assert(flood_targets(ports, 0, 2) == seq![1u32]);
    assert(ts == seq![1u32, 2]);
    assert(ts.drop_last() =~= seq![1u32]);
    assert(seq![1u32].drop_last() =~= Seq::<u32>::empty());
    assert(seq![1u32].last() == 1);
    assert(sent_ok(ports, links, Seq::<u32>::empty(), d1) == Seq::<(Inbox, Seq<u8>)>::empty());
    assert(sent_ok(ports, links, seq![1u32], d1) =~= seq![(inboxes[1], d1)]);
    assert(sent_ok(ports, links, ts, d1) =~= seq![(inboxes[1], d1), (inboxes[2], d1)]);
    assert(send_failures(ports, links, Seq::<u32>::empty(), d1) == Seq::<SwitchEvent>::empty());
    assert(send_failures(ports, links, seq![1u32], d1) =~= Seq::<SwitchEvent>::empty());
    assert(send_failures(ports, links, ts, d1) =~= Seq::<SwitchEvent>::empty());
    assert(decode(d1) == Ok::<FrameValue, ParseError>(f1));
    assert(decode(d2) == Ok::<FrameValue, ParseError>(f2));
    assert(seq![first].last() == first);
    assert(seq![reply].last() == reply);
    assert(learn(Map::empty(), a, 0) == t1);
    let e0 = run_effect(ports, links, Map::empty(), Seq::<WireMsg>::empty());
    assert(e0.0 == Map::<u64, u32>::empty() && e0.1 == Seq::<SwitchEvent>::empty() && e0.2 == Seq::<(Inbox, Seq<u8>)>::empty());
    assert(handled_table(Map::empty(), 0, d1) == t1);
    assert(handled_event(Map::empty(), 0, d1) == SwitchEvent::Flooded { ingress: 0 });
    let e1 = run_effect(ports, links, Map::empty(), seq![first]);
    assert(e1.0 == t1);
    assert(e1.1 =~= seq![SwitchEvent::Flooded { ingress: 0 }]);
    assert(e1.2 =~= seq![(inboxes[1], d1), (inboxes[2], d1)]);
    let t2 = t1.insert(mac_key(b), 1);
    assert(t2.contains_key(mac_key(a)) && t2[mac_key(a)] == 0);
    assert(seq![0u32].drop_last() =~= Seq::<u32>::empty());
    assert(seq![0u32].last() == 0);
    assert(sent_ok(ports, links, Seq::<u32>::empty(), d2) == Seq::<(Inbox, Seq<u8>)>::empty());
    assert(sent_ok(ports, links, seq![0u32], d2) =~= seq![(inboxes[0], d2)]);
    assert(send_failures(ports, links, Seq::<u32>::empty(), d2) == Seq::<SwitchEvent>::empty());
    assert(send_failures(ports, links, seq![0u32], d2) =~= Seq::<SwitchEvent>::empty());
    let e0b = run_effect(ports, links, t1, Seq::<WireMsg>::empty());
    assert(e0b.0 == t1 && e0b.1 == Seq::<SwitchEvent>::empty() && e0b.2 == Seq::<(Inbox, Seq<u8>)>::empty());
    assert(learn(t1, b, 1) == t2);
    assert(handled_table(t1, 1, d2) == t2);
    assert(handled_event(t1, 1, d2) == SwitchEvent::Unicast { interface_id: 0 });
    let e2 = run_effect(ports, links, e1.0, seq![reply]);
    assert(e2.0 == t2);
    assert(e2.1 =~= seq![SwitchEvent::Unicast { interface_id: 0 }]);
    assert(e2.2 =~= seq![(inboxes[0], d2)]);
}

} // verus!
