use std::collections::VecDeque;
use vstd::prelude::*;

use crate::ethernet::MacAddress;
use crate::links::{Delivery, Inbox, LinkData, LinkEnd, LinkError, SimpleLink};

verus! {

/// A payload that arrived on an interface of a device.
#[derive(Debug, PartialEq, Eq, Clone)]
pub struct WireMsg {
    pub data: LinkData,
    pub interface_id: u32,
}

/// What sending `data` through `port` gives over the link table `links`: `LinkIsDown`
/// when the port is down or the far end has no receiver, else the payload addressed to
/// the far end's receiver.
pub open spec fn send_outcome(port: Interface, links: Seq<SimpleLink>, data: Seq<u8>) -> Result<
    (Inbox, Seq<u8>),
    LinkError,
> {
    match port.link() {
        None => Err(LinkError::LinkIsDown),
        Some(e) => match links[e.link as int].receiver(e.end_id.other()) {
            Some(to) => Ok((to, data)),
            None => Err(LinkError::LinkIsDown),
        },
    }
}

/// `r` is the outcome of sending `data` through `port` over `links`.
pub open spec fn sent_as(
    r: Result<Delivery, LinkError>,
    port: Interface,
    links: Seq<SimpleLink>,
    data: Seq<u8>,
) -> bool {
    match r {
        Ok(d) => send_outcome(port, links, data) == Ok::<(Inbox, Seq<u8>), LinkError>((d.to, d.data@)),
        Err(e) => send_outcome(port, links, data) == Err::<(Inbox, Seq<u8>), LinkError>(e),
    }
}

/// Queued payloads as values: receiving interface and bytes.
pub open spec fn queue_view(q: Seq<WireMsg>) -> Seq<(u32, Seq<u8>)> {
    q.map_values(|m: WireMsg| (m.interface_id, m.data@))
}

/// Deliveries as values: receiver and payload.
pub open spec fn deliveries_view(s: Seq<Delivery>) -> Seq<(Inbox, Seq<u8>)> {
    s.map_values(|d: Delivery| (d.to, d.data@))
}

/// An attachment point of a device: up when a link end is bound to it.
#[derive(Clone, Copy, Debug)]
pub struct Interface {
    interface_id: u32,
    connection: Option<LinkEnd>,
}

impl Interface {
    pub closed spec fn id(&self) -> u32 {
        self.interface_id
    }

    pub closed spec fn link(&self) -> Option<LinkEnd> {
        self.connection
    }

    pub fn get_id(&self) -> (r: u32)
        ensures
            r == self.id(),
    {
        self.interface_id
    }

    pub fn get_connection(&self) -> (r: Option<LinkEnd>)
        ensures
            r == self.link(),
    {
        self.connection
    }

    /// True when a link end is attached; the far end may still have no receiver.
    pub fn is_up(&self) -> (r: bool)
        ensures
            r == self.link() is Some,
    {
        self.connection.is_some()
    }

    /// Sends `data` through the attached link end; a down interface reports `LinkIsDown`.
    pub fn send(&self, links: &Vec<SimpleLink>, data: &[u8]) -> (r: Result<Delivery, LinkError>)
        requires
            self.link() matches Some(e) ==> e.link < links@.len(),
        ensures
            sent_as(r, *self, links@, data@),
    {
        match &self.connection {
            Some(end) => end.send(links, data),
            None => Err(LinkError::LinkIsDown),
        }
    }
}

/// A device's interfaces and its queue of arrived payloads.
#[derive(Clone, Debug)]
pub struct Module {
    interfaces: Vec<Interface>,
    interface_nr: u32,
    msg_buffer: VecDeque<WireMsg>,
}

impl Module {
    pub closed spec fn nr(&self) -> u32 {
        self.interface_nr
    }

    pub closed spec fn ports(&self) -> Seq<Interface> {
        self.interfaces@
    }

    /// The payloads waiting, oldest first.
    pub closed spec fn queue(&self) -> Seq<WireMsg> {
        self.msg_buffer@
    }

    /// Every bound link end names a link of `links`.
    pub open spec fn links_in(&self, links: Seq<SimpleLink>) -> bool {
        forall|i: int|
            0 <= i < self.ports().len() ==> ((#[trigger] self.ports()[i]).link() matches Some(e)
                ==> e.link < links.len())
    }

    /// At least one interface, numbered from zero in order.
    pub open spec fn wf(&self) -> bool {
        &&& self.nr() > 0
        &&& self.ports().len() == self.nr()
        &&& forall|i: int| 0 <= i < self.ports().len() ==> (#[trigger] self.ports()[i]).id() == i
    }

    /// The link end bound to interface `i`, if any.
    pub open spec fn link_of(&self, i: int) -> Option<LinkEnd> {
        self.ports()[i].link()
    }

    pub fn new(interface_nr: u32) -> (r: Module)
        requires
            interface_nr > 0,
        ensures
            r.wf(),
            r.nr() == interface_nr,
            forall|i: int| 0 <= i < interface_nr ==> r.link_of(i) is None,
            r.queue() == Seq::<WireMsg>::empty(),
    {
        let mut interfaces: Vec<Interface> = Vec::new();
        let mut interface_id: u32 = 0;
        while interface_id < interface_nr
            invariant
                interface_id <= interface_nr,
                interfaces@.len() == interface_id,
                forall|i: int|
                    0 <= i < interface_id ==> (#[trigger] interfaces@[i]).id() == i
                        && interfaces@[i].link() is None,
            decreases interface_nr - interface_id,
        {
            interfaces.push(Interface { interface_id, connection: None });
            interface_id = interface_id + 1;
        }
        Module { interfaces, interface_nr, msg_buffer: VecDeque::new() }
    }

    pub fn get_interface_nr(&self) -> (r: u32)
        ensures
            r == self.nr(),
    {
        self.interface_nr
    }

    /// The interface numbered `interface_id`, or `None` when there is no such interface.
    pub fn get_interface(&self, interface_id: u32) -> (r: Option<&Interface>)
        requires
            self.wf(),
        ensures
            interface_id < self.nr() ==> r == Some(&self.ports()[interface_id as int]),
            interface_id >= self.nr() ==> r is None,
    {
        if interface_id < self.interface_nr {
            Some(&self.interfaces[interface_id as usize])
        } else {
            None
        }
    }

    /// Binds `link_end` to a down interface and registers this module's queue, tagged
    /// with `interface_id`, as the receiver of that end. `device` is the slot of this
    /// module's device in the network. Fails, changing nothing, when the end already
    /// has a receiver.
    pub fn attach_link(
        &mut self,
        interface_id: u32,
        link_end: LinkEnd,
        links: &mut Vec<SimpleLink>,
        device: usize,
    ) -> (r: Result<(), LinkError>)
        requires
            old(self).wf(),
            interface_id < old(self).nr(),
            old(self).link_of(interface_id as int) is None,
            link_end.link < old(links)@.len(),
        ensures
            final(self).wf(),
            final(self).nr() == old(self).nr(),
            final(self).queue() == old(self).queue(),
            final(links)@.len() == old(links)@.len(),
            forall|k: int|
                0 <= k < old(links)@.len() && k != link_end.link ==> #[trigger] final(links)@[k]
                    == old(links)@[k],
            old(links)@[link_end.link as int].receiver(link_end.end_id) is Some ==> {
                &&& r == Err::<(), LinkError>(LinkError::ReceiverAlreadyAttached)
                &&& final(links)@ == old(links)@
                &&& final(self).ports() == old(self).ports()
            },
            old(links)@[link_end.link as int].receiver(link_end.end_id) is None ==> {
                &&& r is Ok
                &&& final(links)@[link_end.link as int].receiver(link_end.end_id) == Some(
                    Inbox { device, interface_id },
                )
                &&& final(links)@[link_end.link as int].receiver(link_end.end_id.other())
                    == old(links)@[link_end.link as int].receiver(link_end.end_id.other())
                &&& final(self).link_of(interface_id as int) == Some(link_end)
                &&& forall|i: int|
                    0 <= i < old(self).nr() && i != interface_id ==> #[trigger] final(self).link_of(i)
                        == old(self).link_of(i)
            },
    {
        let r = link_end.attach_receiver(links, Inbox::new(device, interface_id));
        if r.is_ok() {
            self.interfaces[interface_id as usize] = Interface { interface_id, connection: Some(link_end) };
        }
        r
    }

    pub fn interfaces(&self) -> (r: &Vec<Interface>)
        ensures
            r@ == self.ports(),
    {
        &self.interfaces
    }

    /// How many payloads wait on the queue.
    pub fn pending(&self) -> (r: usize)
        ensures
            r == self.queue().len(),
    {
        self.msg_buffer.len()
    }

    /// Appends an arrived payload to the queue.
    pub fn push_msg(&mut self, msg: WireMsg)
        ensures
            final(self).queue() == old(self).queue().push(msg),
            final(self).ports() == old(self).ports(),
            final(self).nr() == old(self).nr(),
    {
        self.msg_buffer.push_back(msg);
    }

    /// Takes the oldest waiting payload, or `None` when nothing waits.
    pub fn wait_for_msg(&mut self) -> (r: Option<WireMsg>)
        ensures
            old(self).queue().len() == 0 ==> r is None && final(self).queue() == old(self).queue(),
            old(self).queue().len() > 0 ==> r == Some(old(self).queue()[0]) && final(self).queue()
                == old(self).queue().skip(1),
            final(self).ports() == old(self).ports(),
            final(self).nr() == old(self).nr(),
    {
        let r = self.msg_buffer.pop_front();
        proof {
            if old(self).queue().len() > 0 {
                assert(old(self).queue().skip(1) =~= old(self).queue().subrange(1, old(self).queue().len() as int));
            }
        }
        r
    }
}

} // verus!

verus! {

/// What the network runs: a device with an address, a module, and a behaviour.
pub trait Device {
    spec fn mac_address(&self) -> MacAddress;

    spec fn module_spec(&self) -> Module;

    /// What the device keeps true of its own state while its interface count stays.
    spec fn inv(&self) -> bool;

    /// The payloads that `run` hands to receivers over `links`, in order.
    spec fn outbox(&self, links: Seq<SimpleLink>) -> Seq<(Inbox, Seq<u8>)>;

    fn get_mac_address(&self) -> (r: MacAddress)
        ensures
            r == self.mac_address(),
    ;

    fn module_ref(&self) -> (r: &Module)
        ensures
            *r == self.module_spec(),
    ;

    fn get_module(&mut self) -> (r: &mut Module)
        ensures
            *r == old(self).module_spec(),
            final(self).module_spec() == *final(r),
            final(self).mac_address() == old(self).mac_address(),
            old(self).inv() && final(r).nr() == old(self).module_spec().nr() ==> final(self).inv(),
    ;

    /// Handles every payload waiting in the module's queue and returns the payloads it
    /// sent, each on its way to the receiver of a link end.
    fn run(&mut self, links: &Vec<SimpleLink>) -> (r: Vec<Delivery>)
        requires
            old(self).inv(),
            old(self).module_spec().wf(),
            old(self).module_spec().links_in(links@),
        ensures
            final(self).inv(),
            final(self).module_spec().wf(),
            final(self).module_spec().queue().len() == 0,
            deliveries_view(r@) == old(self).outbox(links@),
            final(self).module_spec().ports() == old(self).module_spec().ports(),
            final(self).module_spec().nr() == old(self).module_spec().nr(),
            final(self).mac_address() == old(self).mac_address(),
    ;
}

} // verus!
