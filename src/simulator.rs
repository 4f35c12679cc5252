use vstd::prelude::*;

use crate::devices::{deliveries_view, queue_view, send_outcome, sent_as, Device, WireMsg};
use crate::ethernet::MacAddress;
use crate::links::{create_link, Delivery, Inbox, LinkEnd, LinkEndId, LinkError, SimpleLink};

verus! {

/// An interface of a device, named by the device's address.
#[derive(Clone, Copy, Debug, PartialEq, Eq)]
pub struct InterfaceSpec {
    pub mac_address: MacAddress,
    pub interface_id: u32,
}

impl InterfaceSpec {
    pub fn new(mac_address: MacAddress, interface_id: u32) -> (r: InterfaceSpec)
        ensures
            r.mac_address == mac_address,
            r.interface_id == interface_id,
    {
        InterfaceSpec { mac_address, interface_id }
    }
}

/// The payloads of `ob` addressed to slot `i`, in order, as queue entries.
pub open spec fn arrivals(ob: Seq<(Inbox, Seq<u8>)>, i: int) -> Seq<(u32, Seq<u8>)>
    decreases ob.len(),
{
    if ob.len() == 0 {
        Seq::empty()
    } else {
        let prev = arrivals(ob.drop_last(), i);
        if ob.last().0.device == i {
            prev.push((ob.last().0.interface_id, ob.last().1))
        } else {
            prev
        }
    }
}

/// Devices registered by address, the links wished between their interfaces, and the
/// link table that wiring fills.
pub struct Simulator<D: Device> {
    devices: Vec<D>,
    links: Vec<(InterfaceSpec, InterfaceSpec)>,
    wires: Vec<SimpleLink>,
}

impl<D: Device> Simulator<D> {
    pub closed spec fn nodes(&self) -> Seq<D> {
        self.devices@
    }

    pub closed spec fn wiring(&self) -> Seq<(InterfaceSpec, InterfaceSpec)> {
        self.links@
    }

    pub closed spec fn table(&self) -> Seq<SimpleLink> {
        self.wires@
    }

    /// Some device has the address `a`.
    pub open spec fn has_address(&self, a: Seq<u8>) -> bool {
        exists|i: int| 0 <= i < self.nodes().len() && (#[trigger] self.nodes()[i]).mac_address()@ == a
    }

    /// No two devices share an address.
    pub open spec fn unique_addresses(&self) -> bool {
        forall|i: int, j: int|
            0 <= i < j < self.nodes().len() ==> (#[trigger] self.nodes()[i]).mac_address()@
                != (#[trigger] self.nodes()[j]).mac_address()@
    }

    /// Every device keeps its invariant, every module is well formed, its link ends name
    /// links of the table, and no two devices share an address.
    pub open spec fn wf(&self) -> bool {
        &&& forall|i: int|
            0 <= i < self.nodes().len() ==> (#[trigger] self.nodes()[i]).module_spec().wf()
                && self.nodes()[i].module_spec().links_in(self.table()) && self.nodes()[i].inv()
        &&& self.unique_addresses()
    }

    pub fn new() -> (r: Simulator<D>)
        ensures
            r.wf(),
            r.nodes().len() == 0,
            r.wiring().len() == 0,
            r.table().len() == 0,
    {
        Simulator { devices: Vec::new(), links: Vec::new(), wires: Vec::new() }
    }

    /// The slot of the device with address `address`, if any.
    pub fn find_device(&self, address: &MacAddress) -> (r: Option<usize>)
        ensures
            r matches Some(i) ==> i < self.nodes().len() && self.nodes()[i as int].mac_address()@
                == address@,
            r is None <==> !self.has_address(address@),
    {
        let mut i: usize = 0;
        while i < self.devices.len()
            invariant
                i <= self.nodes().len(),
                forall|k: int| 0 <= k < i ==> (#[trigger] self.nodes()[k]).mac_address()@ != address@,
            decreases self.nodes().len() - i,
        {
            if self.devices[i].get_mac_address() == *address {
                return Some(i);
            }
            i = i + 1;
        }
        None
    }

    /// Registers `device`, whose address no registered device may have.
    pub fn add_device(&mut self, device: D)
        requires
            old(self).wf(),
            !old(self).has_address(device.mac_address()@),
            device.inv(),
            device.module_spec().wf(),
            device.module_spec().links_in(old(self).table()),
        ensures
            final(self).wf(),
            final(self).wiring() == old(self).wiring(),
            final(self).table() == old(self).table(),
            final(self).nodes() == old(self).nodes().push(device),
    {
        self.devices.push(device);
        assert forall|i: int| 0 <= i < self.nodes().len() implies (#[trigger] self.nodes()[i]).module_spec().wf()
            && self.nodes()[i].module_spec().links_in(self.table()) by {
            if i < old(self).nodes().len() {
                assert(old(self).nodes()[i] == self.nodes()[i]);
            }
        }
        assert forall|i: int, j: int|
            0 <= i < j < self.nodes().len() implies (#[trigger] self.nodes()[i]).mac_address()@
                != (#[trigger] self.nodes()[j]).mac_address()@ by {
            assert(self.nodes()[i] == old(self).nodes()[i]);
            if j < old(self).nodes().len() {
                assert(self.nodes()[j] == old(self).nodes()[j]);
            } else {
                assert(!(0 <= i < old(self).nodes().len() && old(self).nodes()[i].mac_address()@ == device.mac_address()@));
            }
        }
    }

    /// Records a link to make between two interfaces; nothing is checked before wiring.
    pub fn add_link(&mut self, source: InterfaceSpec, destin: InterfaceSpec)
        ensures
            final(self).wiring() == old(self).wiring().push((source, destin)),
            final(self).nodes() == old(self).nodes(),
            final(self).table() == old(self).table(),
    {
        self.links.push((source, destin));
    }

    pub fn device(&self, index: usize) -> (r: &D)
        requires
            index < self.nodes().len(),
        ensures
            *r == self.nodes()[index as int],
    {
        &self.devices[index]
    }

    pub fn device_count(&self) -> (r: usize)
        ensures
            r == self.nodes().len(),
    {
        self.devices.len()
    }
}

} // verus!

verus! {

impl<D: Device> Simulator<D> {
    /// The interface named by `s` exists and has a connection.
    pub open spec fn is_wired(&self, s: InterfaceSpec) -> bool {
        exists|i: int|
            0 <= i < self.nodes().len() && (#[trigger] self.nodes()[i]).mac_address()@
                == s.mac_address@ && s.interface_id < self.nodes()[i].module_spec().nr()
                && self.nodes()[i].module_spec().link_of(s.interface_id as int) is Some
    }

    /// The interface `s` names holds end `end_id` of link `link`, whose receiver is that
    /// interface's queue.
    pub open spec fn holds_end(&self, s: InterfaceSpec, link: int, end_id: LinkEndId) -> bool {
        exists|i: int|
            0 <= i < self.nodes().len() && (#[trigger] self.nodes()[i]).mac_address()@
                == s.mac_address@ && s.interface_id < self.nodes()[i].module_spec().nr()
                && self.nodes()[i].module_spec().link_of(s.interface_id as int) == Some(
                LinkEnd { link: link as usize, end_id },
            ) && 0 <= link < self.table().len() && self.table()[link].receiver(end_id) == Some(
                Inbox { device: i as usize, interface_id: s.interface_id },
            )
    }

    proof fn lemma_still_holds(a: &Self, b: &Self, s: InterfaceSpec, link: int, end_id: LinkEndId)
        requires
            b.grows_from(a),
            a.holds_end(s, link, end_id),
            b.table().len() >= a.table().len(),
            0 <= link < a.table().len() ==> b.table()[link].receiver(end_id) == a.table()[link].receiver(
                end_id,
            ),
        ensures
            b.holds_end(s, link, end_id),
    {
        let i = choose|i: int|
            0 <= i < a.nodes().len() && (#[trigger] a.nodes()[i]).mac_address()@
                == s.mac_address@ && s.interface_id < a.nodes()[i].module_spec().nr()
                && a.nodes()[i].module_spec().link_of(s.interface_id as int) == Some(
                LinkEnd { link: link as usize, end_id },
            ) && 0 <= link < a.table().len() && a.table()[link].receiver(end_id) == Some(
                Inbox { device: i as usize, interface_id: s.interface_id },
            );
        assert(b.nodes()[i].mac_address() == a.nodes()[i].mac_address());
        assert(b.nodes()[i].module_spec().link_of(s.interface_id as int) == a.nodes()[i].module_spec().link_of(s.interface_id as int));
    }

    /// Devices keep their addresses and interface counts, and every connection stays.
    pub open spec fn grows_from(&self, before: &Self) -> bool {
        &&& self.nodes().len() == before.nodes().len()
        &&& forall|i: int|
            0 <= i < self.nodes().len() ==> (#[trigger] self.nodes()[i]).mac_address()
                == before.nodes()[i].mac_address() && self.nodes()[i].module_spec().nr()
                == before.nodes()[i].module_spec().nr()
        &&& forall|i: int, j: int|
            0 <= i < self.nodes().len() && 0 <= j < before.nodes()[i].module_spec().nr()
                && (#[trigger] before.nodes()[i].module_spec().link_of(j)) is Some
                ==> self.nodes()[i].module_spec().link_of(j) == before.nodes()[i].module_spec().link_of(j)
    }

    proof fn lemma_grows_trans(a: &Self, b: &Self, c: &Self)
        requires
            b.grows_from(a),
            c.grows_from(b),
        ensures
            c.grows_from(a),
    {
        assert forall|i: int, j: int|
            0 <= i < c.nodes().len() && 0 <= j < a.nodes()[i].module_spec().nr()
                && (#[trigger] a.nodes()[i].module_spec().link_of(j)) is Some implies c.nodes()[i].module_spec().link_of(j) == a.nodes()[i].module_spec().link_of(j) by {
            assert(b.nodes()[i].module_spec().link_of(j) is Some);
        }
    }

    proof fn lemma_still_wired(a: &Self, b: &Self, s: InterfaceSpec)
        requires
            b.grows_from(a),
            a.is_wired(s),
        ensures
            b.is_wired(s),
    {
        let i = choose|i: int|
            0 <= i < a.nodes().len() && (#[trigger] a.nodes()[i]).mac_address()@
                == s.mac_address@ && s.interface_id < a.nodes()[i].module_spec().nr()
                && a.nodes()[i].module_spec().link_of(s.interface_id as int) is Some;
        assert(b.nodes()[i].module_spec().link_of(s.interface_id as int) is Some);
        assert(b.nodes()[i].mac_address() == a.nodes()[i].mac_address());
    }

    /// The interface named by `s` exists and has no connection.
    pub open spec fn is_free(&self, s: InterfaceSpec) -> bool {
        exists|i: int|
            0 <= i < self.nodes().len() && (#[trigger] self.nodes()[i]).mac_address()@
                == s.mac_address@ && s.interface_id < self.nodes()[i].module_spec().nr()
                && self.nodes()[i].module_spec().link_of(s.interface_id as int) is None
    }

    /// The interface at position `e` of the recorded links, two per record.
    pub open spec fn endpoint(&self, e: int) -> InterfaceSpec {
        if e % 2 == 0 {
            self.wiring()[e / 2].0
        } else {
            self.wiring()[e / 2].1
        }
    }

    /// Every interface that the recorded links name exists, has no connection yet, and
    /// is named once.
    pub open spec fn can_wire(&self) -> bool {
        &&& forall|e: int| 0 <= e < 2 * self.wiring().len() ==> self.is_free(#[trigger] self.endpoint(e))
        &&& forall|a: int, b: int|
            0 <= a < b < 2 * self.wiring().len() ==> (#[trigger] self.endpoint(a)).mac_address@
                != (#[trigger] self.endpoint(b)).mac_address@ || self.endpoint(a).interface_id
                != self.endpoint(b).interface_id
    }

    /// No connection changed from `before`, but possibly that of the interface `t` names.
    pub open spec fn keeps_links_but(&self, before: &Self, t: InterfaceSpec) -> bool {
        forall|i: int, j: int|
            0 <= i < before.nodes().len() && 0 <= j < before.nodes()[i].module_spec().nr()
                && !(before.nodes()[i].mac_address()@ == t.mac_address@ && j == t.interface_id)
                ==> #[trigger] self.nodes()[i].module_spec().link_of(j)
                == before.nodes()[i].module_spec().link_of(j)
    }

    proof fn lemma_unique_kept(a: &Self, b: &Self)
        requires
            b.grows_from(a),
            a.unique_addresses(),
        ensures
            b.unique_addresses(),
    {
        assert forall|i: int, j: int| 0 <= i < j < b.nodes().len() implies (#[trigger] b.nodes()[i]).mac_address()@
            != (#[trigger] b.nodes()[j]).mac_address()@ by {
            assert(b.nodes()[i].mac_address() == a.nodes()[i].mac_address());
            assert(b.nodes()[j].mac_address() == a.nodes()[j].mac_address());
        }
    }

    proof fn lemma_still_free(a: &Self, b: &Self, s: InterfaceSpec, t: InterfaceSpec)
        requires
            b.grows_from(a),
            b.keeps_links_but(a, t),
            a.is_free(s),
            s.mac_address@ != t.mac_address@ || s.interface_id != t.interface_id,
        ensures
            b.is_free(s),
    {
        let i = choose|i: int|
            0 <= i < a.nodes().len() && (#[trigger] a.nodes()[i]).mac_address()@
                == s.mac_address@ && s.interface_id < a.nodes()[i].module_spec().nr()
                && a.nodes()[i].module_spec().link_of(s.interface_id as int) is None;
        assert(b.nodes()[i].mac_address() == a.nodes()[i].mac_address());
        assert(b.nodes()[i].module_spec().link_of(s.interface_id as int) == a.nodes()[i].module_spec().link_of(s.interface_id as int));
    }

    /// Binds `end` to the free interface named by `spec`, with that device's queue as
    /// receiver.
    fn attach(&mut self, spec: &InterfaceSpec, end: LinkEnd)
        requires
            old(self).wf(),
            old(self).is_free(*spec),
            end.link < old(self).table().len(),
            old(self).table()[end.link as int].receiver(end.end_id) is None,
        ensures
            final(self).wf(),
            final(self).grows_from(old(self)),
            final(self).wiring() == old(self).wiring(),
            final(self).table().len() == old(self).table().len(),
            final(self).table()[end.link as int].receiver(end.end_id.other()) == old(
                self,
            ).table()[end.link as int].receiver(end.end_id.other()),
            forall|k: int|
                0 <= k < old(self).table().len() && k != end.link ==> #[trigger] final(self).table()[k]
                    == old(self).table()[k],
            final(self).keeps_links_but(old(self), *spec),
            final(self).is_wired(*spec),
            final(self).holds_end(*spec, end.link as int, end.end_id),
    {
        let ghost w = choose|w: int|
            0 <= w < self.nodes().len() && (#[trigger] self.nodes()[w]).mac_address()@
                == spec.mac_address@ && spec.interface_id < self.nodes()[w].module_spec().nr()
                && self.nodes()[w].module_spec().link_of(spec.interface_id as int) is None;
        let i = match self.find_device(&spec.mac_address) {
            Some(i) => i,
            None => {
                proof {
                    assert(self.has_address(spec.mac_address@));
                }
                return;
            },
        };
        assert(i == w);
        let module = self.devices[i].get_module();
        let r = module.attach_link(spec.interface_id, end, &mut self.wires, i);
        assert(r is Ok);
        proof {
            assert forall|j: int| 0 <= j < self.nodes().len() implies (#[trigger] self.nodes()[j]).module_spec().wf()
                && self.nodes()[j].module_spec().links_in(self.table()) by {
                if j == i {
                    let m = self.nodes()[j].module_spec();
                    let m0 = old(self).nodes()[j].module_spec();
                    assert forall|p: int| 0 <= p < m.ports().len() implies ((#[trigger] m.ports()[p]).link() matches Some(e)
                        ==> e.link < self.table().len()) by {
                        if p != spec.interface_id {
                            assert(m.link_of(p) == m0.link_of(p));
                            assert(m0.ports()[p].link() matches Some(e) ==> e.link < old(self).table().len());
                        }
                    }
                } else {
                    assert(self.nodes()[j] == old(self).nodes()[j]);
                }
            }
            assert forall|k: int, j: int|
                0 <= k < old(self).nodes().len() && 0 <= j < old(self).nodes()[k].module_spec().nr()
                    && !(old(self).nodes()[k].mac_address()@ == spec.mac_address@ && j == spec.interface_id)
                    implies #[trigger] self.nodes()[k].module_spec().link_of(j)
                    == old(self).nodes()[k].module_spec().link_of(j) by {
                if k != i {
                    assert(self.nodes()[k] == old(self).nodes()[k]);
                }
            }
            assert(self.grows_from(old(self)));
            Self::lemma_unique_kept(old(self), self);
        }
    }
}

} // verus!

verus! {

impl<D: Device> Simulator<D> {
    /// Makes every recorded link, in order: a new link per record, one end bound to each
    /// named interface, with that device's queue as its receiver. Every named interface
    /// must exist, have no connection and be named once (see `wiring_ok`).
    pub fn create_network(&mut self)
        requires
            old(self).wf(),
            old(self).can_wire(),
        ensures
            final(self).wf(),
            final(self).grows_from(old(self)),
            final(self).wiring() == old(self).wiring(),
            forall|k: int|
                0 <= k < old(self).wiring().len() ==> final(self).is_wired(
                    (#[trigger] old(self).wiring()[k]).0,
                ) && final(self).is_wired(old(self).wiring()[k].1),
            final(self).table().len() == old(self).table().len() + old(self).wiring().len(),
            forall|k: int|
                0 <= k < old(self).wiring().len() ==> final(self).holds_end(
                    (#[trigger] old(self).wiring()[k]).0,
                    old(self).table().len() + k,
                    LinkEndId::First,
                ) && final(self).holds_end(
                    old(self).wiring()[k].1,
                    old(self).table().len() + k,
                    LinkEndId::Second,
                ),
    {
        let mut k: usize = 0;
        while k < self.links.len()
            invariant
                self.wf(),
                self.grows_from(old(self)),
                self.wiring() == old(self).wiring(),
                k <= self.wiring().len(),
                old(self).can_wire(),
                self.table().len() == old(self).table().len() + k,
                forall|j: int|
                    0 <= j < k ==> self.holds_end(
                        (#[trigger] self.wiring()[j]).0,
                        old(self).table().len() + j,
                        LinkEndId::First,
                    ) && self.holds_end(self.wiring()[j].1, old(self).table().len() + j, LinkEndId::Second),
                forall|e: int|
                    2 * k <= e < 2 * self.wiring().len() ==> self.is_free(
                        #[trigger] old(self).endpoint(e),
                    ),
                forall|j: int|
                    0 <= j < k ==> self.is_wired((#[trigger] self.wiring()[j]).0) && self.is_wired(
                        self.wiring()[j].1,
                    ),
            decreases self.wiring().len() - k,
        {
            let (src, dst) = self.links[k];
            let ghost s0 = *self;
            let (end_1, end_2) = create_link(&mut self.wires);
            assert(self.table()[end_1.link as int] == self.table().last());
            assert(self.grows_from(&s0));
            let ghost s1 = *self;
            assert(s1.nodes() == s0.nodes());
            assert(old(self).endpoint(2 * k as int) == src);
            assert(old(self).endpoint(2 * k as int + 1) == dst);
            self.attach(&src, end_1);
            proof {
                Self::lemma_grows_trans(&s0, &s1, self);
                Self::lemma_grows_trans(old(self), &s0, self);
                {
                    assert forall|e: int| 2 * k + 1 <= e < 2 * self.wiring().len() implies self.is_free(
                        #[trigger] old(self).endpoint(e),
                    ) by {
                        assert(s1.is_free(old(self).endpoint(e)));
                        assert(old(self).endpoint(2 * k as int).mac_address@ != old(self).endpoint(e).mac_address@
                            || old(self).endpoint(2 * k as int).interface_id != old(self).endpoint(e).interface_id);
                        Self::lemma_still_free(&s1, self, old(self).endpoint(e), src);
                    }
                }
            }
            let ghost s2 = *self;
            assert(end_1.end_id.other() == end_2.end_id);
            self.attach(&dst, end_2);
            proof {
                Self::lemma_grows_trans(old(self), &s2, self);
                Self::lemma_still_wired(&s2, self, src);
                {
                    assert forall|e: int| 2 * (k + 1) <= e < 2 * self.wiring().len() implies self.is_free(
                        #[trigger] old(self).endpoint(e),
                    ) by {
                        assert(s2.is_free(old(self).endpoint(e)));
                        assert(old(self).endpoint(2 * k as int + 1).mac_address@ != old(self).endpoint(e).mac_address@
                            || old(self).endpoint(2 * k as int + 1).interface_id != old(self).endpoint(e).interface_id);
                        Self::lemma_still_free(&s2, self, old(self).endpoint(e), dst);
                    }
                }
            }
            proof {
                let base = old(self).table().len();
                assert(end_1.end_id.other() == LinkEndId::Second);
                Self::lemma_still_holds(&s2, self, src, base + k, LinkEndId::First);
                assert forall|j: int|
                    0 <= j < k + 1 implies self.holds_end(
                        (#[trigger] self.wiring()[j]).0,
                        base + j,
                        LinkEndId::First,
                    ) && self.holds_end(self.wiring()[j].1, base + j, LinkEndId::Second) by {
                    if j < k {
                        assert(s1.table()[base + j] == s0.table()[base + j]);
                        Self::lemma_grows_trans(&s0, &s2, self);
                        Self::lemma_still_holds(&s0, self, self.wiring()[j].0, base + j, LinkEndId::First);
                        Self::lemma_still_holds(&s0, self, self.wiring()[j].1, base + j, LinkEndId::Second);
                    }
                }
                assert forall|j: int|
                    0 <= j < k + 1 implies self.is_wired((#[trigger] self.wiring()[j]).0) && self.is_wired(
                        self.wiring()[j].1,
                    ) by {
                    if j < k {
                        Self::lemma_still_wired(&s0, self, self.wiring()[j].0);
                        Self::lemma_still_wired(&s0, self, self.wiring()[j].1);
                    }
                }
            }
            k = k + 1;
        }
    }
}

} // verus!

verus! {

impl<D: Device> Simulator<D> {
    /// Puts a delivered payload on the queue of the device it is addressed to; false,
    /// changing nothing, when no device has that slot.
    pub fn deliver(&mut self, d: Delivery) -> (r: bool)
        requires
            old(self).wf(),
        ensures
            final(self).wf(),
            final(self).grows_from(old(self)),
            final(self).wiring() == old(self).wiring(),
            final(self).table() == old(self).table(),
            r == (d.to.device < old(self).nodes().len()),
            r ==> final(self).nodes()[d.to.device as int].module_spec().queue()
                == old(self).nodes()[d.to.device as int].module_spec().queue().push(
                WireMsg { data: d.data, interface_id: d.to.interface_id },
            ),
            forall|i: int|
                0 <= i < old(self).nodes().len() && i != d.to.device
                    ==> #[trigger] final(self).nodes()[i] == old(self).nodes()[i],
    {
        let i = d.to.device;
        if i >= self.devices.len() {
            return false;
        }
        let module = self.devices[i].get_module();
        module.push_msg(WireMsg { data: d.data, interface_id: d.to.interface_id });
        proof {
            assert forall|j: int| 0 <= j < self.nodes().len() implies (#[trigger] self.nodes()[j]).module_spec().wf()
                && self.nodes()[j].module_spec().links_in(self.table()) by {
                if j != i {
                    assert(self.nodes()[j] == old(self).nodes()[j]);
                }
            }
        }
        true
    }

    /// Sends `data` from interface `interface_id` of the device in slot `device` and puts
    /// it on the queue of the receiving device.
    pub fn send(&mut self, device: usize, interface_id: u32, data: &[u8]) -> (r: Result<(), LinkError>)
        requires
            old(self).wf(),
            device < old(self).nodes().len(),
            interface_id < old(self).nodes()[device as int].module_spec().nr(),
        ensures
            final(self).wf(),
            final(self).grows_from(old(self)),
            final(self).wiring() == old(self).wiring(),
            final(self).table() == old(self).table(),
            ({
                let m = old(self).nodes()[device as int].module_spec();
                let out = send_outcome(m.ports()[interface_id as int], old(self).table(), data@);
                match out {
                    Err(e) => r == Err::<(), LinkError>(e) && final(self).nodes() == old(self).nodes(),
                    Ok((to, bytes)) => {
                        &&& r is Ok
                        &&& to.device < old(self).nodes().len() ==> queue_view(
                            final(self).nodes()[to.device as int].module_spec().queue(),
                        ) == queue_view(old(self).nodes()[to.device as int].module_spec().queue()).push(
                            (to.interface_id, bytes),
                        )
                        &&& forall|i: int|
                            0 <= i < old(self).nodes().len() && i != to.device
                                ==> #[trigger] final(self).nodes()[i] == old(self).nodes()[i]
                    },
                }
            }),
    {
        let module = self.devices[device].module_ref();
        let sent = match module.get_interface(interface_id) {
            Some(port) => port.send(&self.wires, data),
            None => Err(LinkError::LinkIsDown),
        };
        match sent {
            Ok(d) => {
                let ghost i = d.to.device as int;
                let ghost q = queue_view(old(self).nodes()[i].module_spec().queue());
                let ghost item = (d.to.interface_id, d.data@);
                self.deliver(d);
                proof {
                    if i < old(self).nodes().len() {
                        assert(queue_view(self.nodes()[i].module_spec().queue()) =~= q.push(item));
                    }
                }
                Ok(())
            },
            Err(e) => Err(e),
        }
    }

    /// Lets the device in slot `device` handle what waits on its queue, and puts what it
    /// sent, in order, on the queues of the receiving devices. Returns how many payloads
    /// it sent.
    pub fn step(&mut self, device: usize) -> (r: usize)
        requires
            old(self).wf(),
            device < old(self).nodes().len(),
        ensures
            final(self).wf(),
            final(self).grows_from(old(self)),
            final(self).wiring() == old(self).wiring(),
            final(self).table() == old(self).table(),
            ({
                let ob = old(self).nodes()[device as int].outbox(old(self).table());
                &&& r == ob.len()
                &&& forall|i: int|
                    0 <= i < old(self).nodes().len() ==> queue_view(
                        (#[trigger] final(self).nodes()[i]).module_spec().queue(),
                    ) == (if i == device {
                        Seq::empty()
                    } else {
                        queue_view(old(self).nodes()[i].module_spec().queue())
                    }) + arrivals(ob, i)
            }),
    {
        let ghost ob = old(self).nodes()[device as int].outbox(old(self).table());
        let mut deliveries = self.devices[device].run(&self.wires);
        let ghost d0 = deliveries@;
        let ghost s0 = *self;
        assert(self.grows_from(old(self))) by {
            assert forall|i: int| 0 <= i < self.nodes().len() && i != device implies #[trigger] self.nodes()[i] == old(self).nodes()[i] by {}
        }
        assert(self.wf()) by {
            assert forall|j: int| 0 <= j < self.nodes().len() implies (#[trigger] self.nodes()[j]).module_spec().wf()
                && self.nodes()[j].module_spec().links_in(self.table()) by {
                if j != device {
                    assert(self.nodes()[j] == old(self).nodes()[j]);
                }
            }
        }
        let count = deliveries.len();
        let mut k: usize = 0;
        assert forall|i: int| 0 <= i < self.nodes().len() implies queue_view(
            (#[trigger] self.nodes()[i]).module_spec().queue(),
        ) == (if i == device {
            Seq::empty()
        } else {
            queue_view(old(self).nodes()[i].module_spec().queue())
        }) + arrivals(ob.take(0), i) by {
            if i != device {
                assert(self.nodes()[i] == old(self).nodes()[i]);
            }
            assert(ob.take(0) =~= Seq::<(Inbox, Seq<u8>)>::empty());
            assert(queue_view(self.nodes()[i].module_spec().queue()) =~= (if i == device {
                Seq::empty()
            } else {
                queue_view(old(self).nodes()[i].module_spec().queue())
            }) + Seq::<(u32, Seq<u8>)>::empty());
        }
        while deliveries.len() > 0
            invariant
                self.wf(),
                self.grows_from(old(self)),
                self.wiring() == old(self).wiring(),
                self.table() == old(self).table(),
                deliveries_view(d0) == ob,
                d0.len() == count,
                k <= count,
                deliveries@ == d0.skip(k as int),
                forall|i: int|
                    0 <= i < self.nodes().len() ==> queue_view(
                        (#[trigger] self.nodes()[i]).module_spec().queue(),
                    ) == (if i == device {
                        Seq::empty()
                    } else {
                        queue_view(old(self).nodes()[i].module_spec().queue())
                    }) + arrivals(ob.take(k as int), i),
            decreases deliveries@.len(),
        {
            let d = deliveries.remove(0);
            let ghost before = *self;
            let ghost item = (d.to, d.data@);
            proof {
                assert(d0[k as int] == d);
                assert(ob[k as int] == item);
                assert(ob.take(k + 1).drop_last() =~= ob.take(k as int));
                assert(ob.take(k + 1).last() == item);
            }
            self.deliver(d);
            proof {
                Self::lemma_grows_trans(old(self), &before, self);
                assert forall|i: int| 0 <= i < self.nodes().len() implies queue_view(
                    (#[trigger] self.nodes()[i]).module_spec().queue(),
                ) == (if i == device {
                    Seq::empty()
                } else {
                    queue_view(old(self).nodes()[i].module_spec().queue())
                }) + arrivals(ob.take(k + 1), i) by {
                    let base = if i == device {
                        Seq::empty()
                    } else {
                        queue_view(old(self).nodes()[i].module_spec().queue())
                    };
                    if i == item.0.device {
                        assert(queue_view(self.nodes()[i].module_spec().queue()) =~= queue_view(
                            before.nodes()[i].module_spec().queue(),
                        ).push((item.0.interface_id, item.1)));
                        assert(base + arrivals(ob.take(k + 1), i) =~= (base + arrivals(ob.take(k as int), i)).push(
                            (item.0.interface_id, item.1),
                        ));
                    } else {
                        assert(self.nodes()[i] == before.nodes()[i]);
                    }
                }
                assert(deliveries@ =~= d0.skip(k + 1));
            }
            k = k + 1;
        }
        proof {
            assert(ob.take(k as int) =~= ob);
        }
        count
    }
}

} // verus!

verus! {

impl<D: Device> Simulator<D> {
    /// Whether the interface `s` names exists and has no connection.
    pub fn interface_free(&self, s: &InterfaceSpec) -> (r: bool)
        requires
            self.wf(),
        ensures
            r == self.is_free(*s),
    {
        match self.find_device(&s.mac_address) {
            None => false,
            Some(i) => {
                let module = self.devices[i].module_ref();
                let r = match module.get_interface(s.interface_id) {
                    Some(port) => !port.is_up(),
                    None => false,
                };
                proof {
                    if self.is_free(*s) {
                        let w = choose|w: int|
                            0 <= w < self.nodes().len() && (#[trigger] self.nodes()[w]).mac_address()@
                                == s.mac_address@ && s.interface_id < self.nodes()[w].module_spec().nr()
                                && self.nodes()[w].module_spec().link_of(s.interface_id as int) is None;
                        assert(w == i);
                    }
                }
                r
            },
        }
    }

    /// Whether `a` and `b` name the same interface.
    fn same_interface(a: &InterfaceSpec, b: &InterfaceSpec) -> (r: bool)
        ensures
            r == (a.mac_address@ == b.mac_address@ && a.interface_id == b.interface_id),
    {
        a.mac_address == b.mac_address && a.interface_id == b.interface_id
    }

    /// Whether every interface the recorded links name exists, has no connection yet,
    /// and is named once: what wiring the network needs.
    pub fn wiring_ok(&self) -> (r: bool)
        requires
            self.wf(),
        ensures
            r == (self.unique_addresses() && self.can_wire()),
    {
        let n = self.links.len();
        let mut k1: usize = 0;
        while k1 < n
            invariant
                self.wf(),
                n == self.wiring().len(),
                k1 <= n,
                forall|e: int| 0 <= e < 2 * k1 ==> self.is_free(#[trigger] self.endpoint(e)),
                forall|a: int, b: int|
                    0 <= a < 2 * k1 && a < b < 2 * n ==> (#[trigger] self.endpoint(a)).mac_address@
                        != (#[trigger] self.endpoint(b)).mac_address@ || self.endpoint(a).interface_id
                        != self.endpoint(b).interface_id,
            decreases n - k1,
        {
            let (p, q) = self.links[k1];
            assert(self.endpoint(2 * k1 as int) == p);
            assert(self.endpoint(2 * k1 as int + 1) == q);
            if !self.interface_free(&p) || !self.interface_free(&q) || Self::same_interface(&p, &q) {
                return false;
            }
            let mut k2: usize = k1 + 1;
            while k2 < n
                invariant
                    n == self.wiring().len(),
                    k1 < k2 <= n,
                    self.wiring()[k1 as int] == (p, q),
                    forall|b: int|
                        2 * k1 + 1 < b < 2 * k2 ==> (p.mac_address@ != (#[trigger] self.endpoint(b)).mac_address@
                            || p.interface_id != self.endpoint(b).interface_id) && (q.mac_address@
                            != self.endpoint(b).mac_address@ || q.interface_id != self.endpoint(b).interface_id),
                decreases n - k2,
            {
                let (x, y) = self.links[k2];
                assert(self.endpoint(2 * k2 as int) == x);
                assert(self.endpoint(2 * k2 as int + 1) == y);
                if Self::same_interface(&p, &x) || Self::same_interface(&p, &y) || Self::same_interface(&q, &x)
                    || Self::same_interface(&q, &y) {
                    assert(!self.can_wire()) by {
                        assert(self.endpoint(2 * k1 as int) == p);
                        assert(self.endpoint(2 * k1 as int + 1) == q);
                    }
                    return false;
                }
                proof {
                    assert forall|b: int|
                        2 * k1 + 1 < b < 2 * (k2 + 1) implies (p.mac_address@ != (#[trigger] self.endpoint(b)).mac_address@
                            || p.interface_id != self.endpoint(b).interface_id) && (q.mac_address@
                            != self.endpoint(b).mac_address@ || q.interface_id != self.endpoint(b).interface_id) by {
                        if b >= 2 * k2 {
                            assert(b == 2 * k2 || b == 2 * k2 + 1);
                        }
                    }
                }
                k2 = k2 + 1;
            }
            proof {
                assert forall|e: int| 0 <= e < 2 * (k1 + 1) implies self.is_free(#[trigger] self.endpoint(e)) by {
                    if e >= 2 * k1 {
                        assert(e == 2 * k1 || e == 2 * k1 + 1);
                    }
                }
                assert forall|a: int, b: int|
                    0 <= a < 2 * (k1 + 1) && a < b < 2 * n implies (#[trigger] self.endpoint(a)).mac_address@
                        != (#[trigger] self.endpoint(b)).mac_address@ || self.endpoint(a).interface_id
                        != self.endpoint(b).interface_id by {
                    if a >= 2 * k1 {
                        assert(a == 2 * k1 || a == 2 * k1 + 1);
                        if a == 2 * k1 && b == 2 * k1 + 1 {
                        } else {
                            assert(2 * k1 + 1 < b);
                        }
                    }
                }
            }
            k1 = k1 + 1;
        }
        true
    }

    /// How many payloads wait on the queues of all devices, saturating at `usize::MAX`.
    pub fn pending(&self) -> (r: usize)
        ensures
            r == 0 <==> forall|i: int|
                0 <= i < self.nodes().len() ==> (#[trigger] self.nodes()[i]).module_spec().queue().len()
                    == 0,
    {
        let mut total: usize = 0;
        let mut i: usize = 0;
        while i < self.devices.len()
            invariant
                i <= self.nodes().len(),
                total == 0 <==> forall|k: int|
                    0 <= k < i ==> (#[trigger] self.nodes()[k]).module_spec().queue().len() == 0,
            decreases self.nodes().len() - i,
        {
            let n = self.devices[i].module_ref().pending();
            total = total.saturating_add(n);
            i = i + 1;
        }
        total
    }
}

} // verus!
