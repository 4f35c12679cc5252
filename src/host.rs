use vstd::prelude::*;

use crate::devices::{deliveries_view, Device, Module, WireMsg};
use crate::ethernet::MacAddress;
use crate::links::{Delivery, Inbox, SimpleLink};
use crate::switch::Layer2Switch;

verus! {

/// An end host: keeps every payload that reaches it and sends only when told to.
pub struct Host {
    address: MacAddress,
    module: Module,
    received: Vec<WireMsg>,
}

impl Host {
    /// The payloads taken off the queue so far, oldest first.
    pub closed spec fn inbox(&self) -> Seq<WireMsg> {
        self.received@
    }

    pub fn new(address: MacAddress, interface_nr: u32) -> (r: Host)
        requires
            interface_nr > 0,
        ensures
            r.mac_address() == address,
            r.inv(),
            r.module_spec().wf(),
            r.module_spec().nr() == interface_nr,
            forall|i: int| 0 <= i < interface_nr ==> r.module_spec().link_of(i) is None,
            r.module_spec().queue().len() == 0,
            r.inbox().len() == 0,
    {
        Host { address, module: Module::new(interface_nr), received: Vec::new() }
    }

    pub fn received(&self) -> (r: &Vec<WireMsg>)
        ensures
            r@ == self.inbox(),
    {
        &self.received
    }

    /// Hands out the kept payloads and forgets them.
    pub fn take_received(&mut self) -> (r: Vec<WireMsg>)
        ensures
            r@ == old(self).inbox(),
            final(self).inbox().len() == 0,
            final(self).mac_address() == old(self).mac_address(),
            final(self).module_spec() == old(self).module_spec(),
    {
        let mut taken: Vec<WireMsg> = Vec::new();
        std::mem::swap(&mut taken, &mut self.received);
        taken
    }
}

impl Device for Host {
    closed spec fn mac_address(&self) -> MacAddress {
        self.address
    }

    closed spec fn module_spec(&self) -> Module {
        self.module
    }

    closed spec fn inv(&self) -> bool {
        true
    }

    closed spec fn outbox(&self, links: Seq<SimpleLink>) -> Seq<(Inbox, Seq<u8>)> {
        Seq::empty()
    }

    fn get_mac_address(&self) -> (r: MacAddress) {
        self.address
    }

    fn module_ref(&self) -> (r: &Module) {
        &self.module
    }

    fn get_module(&mut self) -> (r: &mut Module) {
        &mut self.module
    }

    /// Moves every queued payload, oldest first, to the kept ones; sends nothing.
    fn run(&mut self, links: &Vec<SimpleLink>) -> (r: Vec<Delivery>)
        ensures
            final(self).inbox() == old(self).inbox() + old(self).module_spec().queue(),
    {
        let ghost q0 = self.module.queue();
        let ghost mut n: int = 0;
        loop
            invariant
                self.module.wf(),
                self.module.ports() == old(self).module.ports(),
                self.module.nr() == old(self).module.nr(),
                self.address == old(self).address,
                q0 == old(self).module.queue(),
                0 <= n <= q0.len(),
                self.module.queue() == q0.skip(n),
                self.received@ == old(self).received@ + q0.take(n),
            ensures
                self.module.queue().len() == 0,
                n == q0.len(),
            decreases self.module.queue().len(),
        {
            match self.module.wait_for_msg() {
                Some(msg) => {
                    proof {
                        assert(msg == q0[n]);
                        assert(self.module.queue() =~= q0.skip(n + 1));
                    }
                    self.received.push(msg);
                    proof {
                        assert(self.received@ =~= old(self).received@ + q0.take(n + 1));
                        n = n + 1;
                    }
                },
                None => {
                    break;
                },
            }
        }
        proof {
            assert(q0.take(n) =~= q0);
        }
        let sent: Vec<Delivery> = Vec::new();
        assert(deliveries_view(sent@) =~= Seq::<(Inbox, Seq<u8>)>::empty());
        sent
    }
}

/// The devices a network of switches and hosts is made of.
pub enum Node {
    Switch(Layer2Switch),
    Host(Host),
}

impl Device for Node {
    open spec fn mac_address(&self) -> MacAddress {
        match self {
            Node::Switch(s) => s.mac_address(),
            Node::Host(h) => h.mac_address(),
        }
    }

    open spec fn module_spec(&self) -> Module {
        match self {
            Node::Switch(s) => s.module_spec(),
            Node::Host(h) => h.module_spec(),
        }
    }

    open spec fn inv(&self) -> bool {
        match self {
            Node::Switch(s) => s.inv(),
            Node::Host(h) => h.inv(),
        }
    }

    open spec fn outbox(&self, links: Seq<SimpleLink>) -> Seq<(Inbox, Seq<u8>)> {
        match self {
            Node::Switch(s) => s.outbox(links),
            Node::Host(h) => h.outbox(links),
        }
    }

    fn get_mac_address(&self) -> (r: MacAddress) {
        match self {
            Node::Switch(s) => s.get_mac_address(),
            Node::Host(h) => h.get_mac_address(),
        }
    }

    fn module_ref(&self) -> (r: &Module) {
        match self {
            Node::Switch(s) => s.module_ref(),
            Node::Host(h) => h.module_ref(),
        }
    }

    fn get_module(&mut self) -> (r: &mut Module) {
        match self {
            Node::Switch(s) => s.get_module(),
            Node::Host(h) => h.get_module(),
        }
    }

    fn run(&mut self, links: &Vec<SimpleLink>) -> (r: Vec<Delivery>) {
        match self {
            Node::Switch(s) => s.run(links),
            Node::Host(h) => h.run(links),
        }
    }
}

} // verus!
