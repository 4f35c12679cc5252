use vstd::prelude::*;

verus! {

/// Errors reported by a link.
#[derive(PartialEq, Eq, Debug, Clone, Copy, Structural)]
pub enum LinkError {
    ReceiverAlreadyAttached,
    LinkIsDown,
}

/// One of the two ends of a link.
#[derive(Clone, Copy, PartialEq, Eq, Debug, Structural)]
pub enum LinkEndId {
    First,
    Second,
}

impl LinkEndId {
    /// The end opposite to `self`.
    pub open spec fn other(self) -> LinkEndId {
        match self {
            LinkEndId::First => LinkEndId::Second,
            LinkEndId::Second => LinkEndId::First,
        }
    }

    pub fn get_other_end(self) -> (r: LinkEndId)
        ensures
            r == self.other(),
            r != self,
    {
        match self {
            LinkEndId::First => LinkEndId::Second,
            LinkEndId::Second => LinkEndId::First,
        }
    }
}

} // verus!

verus! {

/// Bytes carried by a link.
pub type LinkData = Vec<u8>;

/// The inbound queue that a link end delivers into: the queue of the device in slot
/// `device` of the network, tagged with the interface that received the payload.
#[derive(Clone, Copy, PartialEq, Eq, Debug, Structural)]
pub struct Inbox {
    pub device: usize,
    pub interface_id: u32,
}

impl Inbox {
    pub fn new(device: usize, interface_id: u32) -> (r: Inbox)
        ensures
            r.device == device,
            r.interface_id == interface_id,
    {
        Inbox { device, interface_id }
    }
}

/// A payload on its way to the inbound queue it was sent to.
#[derive(Debug, PartialEq, Eq, Clone)]
pub struct Delivery {
    pub to: Inbox,
    pub data: LinkData,
}

/// The table of a two-ended link: at most one receiver per end.
#[derive(Clone, Copy, Debug)]
pub struct SimpleLink {
    first: Option<Inbox>,
    second: Option<Inbox>,
}

impl SimpleLink {
    /// The receiver registered on `end`, if any.
    pub closed spec fn receiver(&self, end: LinkEndId) -> Option<Inbox> {
        match end {
            LinkEndId::First => self.first,
            LinkEndId::Second => self.second,
        }
    }

    pub fn new() -> (r: SimpleLink)
        ensures
            r.receiver(LinkEndId::First) is None,
            r.receiver(LinkEndId::Second) is None,
    {
        SimpleLink { first: None, second: None }
    }

    pub fn receiver_of(&self, end: LinkEndId) -> (r: Option<Inbox>)
        ensures
            r == self.receiver(end),
    {
        match end {
            LinkEndId::First => self.first,
            LinkEndId::Second => self.second,
        }
    }

    /// Hands `data` to the receiver of the end opposite to `from`.
    pub fn send(&self, from: LinkEndId, data: &[u8]) -> (r: Result<Delivery, LinkError>)
        ensures
            match self.receiver(from.other()) {
                Some(to) => r matches Ok(d) && d.to == to && d.data@ == data@,
                None => r == Err::<Delivery, LinkError>(LinkError::LinkIsDown),
            },
    {
        let to = from.get_other_end();
        match self.receiver_of(to) {
            Some(inbox) => {
                let mut copy: Vec<u8> = Vec::new();
                crate::protocols::write_bytes(&mut copy, data);
                assert(copy@ =~= data@);
                Ok(Delivery { to: inbox, data: copy })
            },
            None => Err(LinkError::LinkIsDown),
        }
    }

    /// Registers the receiver of `link_end`; an end takes one receiver only.
    pub fn attach_receiver(&mut self, link_end: LinkEndId, handler: Inbox) -> (r: Result<(), LinkError>)
        ensures
            old(self).receiver(link_end) is Some ==> r == Err::<(), LinkError>(
                LinkError::ReceiverAlreadyAttached,
            ) && *final(self) == *old(self),
            old(self).receiver(link_end) is None ==> r is Ok && final(self).receiver(link_end)
                == Some(handler) && final(self).receiver(link_end.other()) == old(self).receiver(
                link_end.other(),
            ),
    {
        match link_end {
            LinkEndId::First => {
                if self.first.is_some() {
                    return Err(LinkError::ReceiverAlreadyAttached);
                }
                self.first = Some(handler);
            },
            LinkEndId::Second => {
                if self.second.is_some() {
                    return Err(LinkError::ReceiverAlreadyAttached);
                }
                self.second = Some(handler);
            },
        }
        Ok(())
    }
}

/// One end of a link of a link table: the link's index and the end's side.
#[derive(Clone, Copy, PartialEq, Eq, Debug, Structural)]
pub struct LinkEnd {
    pub link: usize,
    pub end_id: LinkEndId,
}

impl LinkEnd {
    fn new(end_id: LinkEndId, link: usize) -> (r: LinkEnd)
        ensures
            r.end_id == end_id,
            r.link == link,
    {
        LinkEnd { link, end_id }
    }

    pub fn get_link_id(&self) -> (r: LinkEndId)
        ensures
            r == self.end_id,
    {
        self.end_id
    }

    /// Sends `data` to the receiver of the opposite end of this end's link.
    pub fn send(&self, links: &Vec<SimpleLink>, data: &[u8]) -> (r: Result<Delivery, LinkError>)
        requires
            self.link < links@.len(),
        ensures
            match links@[self.link as int].receiver(self.end_id.other()) {
                Some(to) => r matches Ok(d) && d.to == to && d.data@ == data@,
                None => r == Err::<Delivery, LinkError>(LinkError::LinkIsDown),
            },
    {
        links[self.link].send(self.end_id, data)
    }

    /// Registers the receiver of this end.
    pub fn attach_receiver(&self, links: &mut Vec<SimpleLink>, handler: Inbox) -> (r: Result<
        (),
        LinkError,
    >)
        requires
            self.link < old(links)@.len(),
        ensures
            final(links)@.len() == old(links)@.len(),
            forall|k: int|
                0 <= k < old(links)@.len() && k != self.link ==> #[trigger] final(links)@[k]
                    == old(links)@[k],
            old(links)@[self.link as int].receiver(self.end_id) is Some ==> r == Err::<
                (),
                LinkError,
            >(LinkError::ReceiverAlreadyAttached) && final(links)@ == old(links)@,
            old(links)@[self.link as int].receiver(self.end_id) is None ==> r is Ok
                && final(links)@[self.link as int].receiver(self.end_id) == Some(handler)
                && final(links)@[self.link as int].receiver(self.end_id.other()) == old(
                links,
            )@[self.link as int].receiver(self.end_id.other()),
    {
        let mut link = links[self.link];
        let r = link.attach_receiver(self.end_id, handler);
        if r.is_ok() {
            links[self.link] = link;
        }
        r
    }
}

/// Adds a link without receivers to `links` and returns its two ends.
pub fn create_link(links: &mut Vec<SimpleLink>) -> (r: (LinkEnd, LinkEnd))
    ensures
        final(links)@.len() == old(links)@.len() + 1,
        final(links)@.subrange(0, old(links)@.len() as int) == old(links)@,
        final(links)@.last().receiver(LinkEndId::First) is None,
        final(links)@.last().receiver(LinkEndId::Second) is None,
        r.0.link == old(links)@.len(),
        r.0.end_id == LinkEndId::First,
        r.1.link == old(links)@.len(),
        r.1.end_id == LinkEndId::Second,
{
    let link = links.len();
    links.push(SimpleLink::new());
    assert(links@.subrange(0, old(links)@.len() as int) =~= old(links)@);
    (LinkEnd::new(LinkEndId::First, link), LinkEnd::new(LinkEndId::Second, link))
}

} // verus!

verus! {

/// Once receivers `a` and `b` are attached to the first and the second end of a link
/// that had none, a payload sent from either end goes to the receiver of the other end
/// only, and neither end takes another receiver.
pub proof fn lemma_attached_link_delivers_across(
    l0: SimpleLink,
    l1: SimpleLink,
    l2: SimpleLink,
    a: Inbox,
    b: Inbox,
)
    requires
        l0.receiver(LinkEndId::First) is None,
        l0.receiver(LinkEndId::Second) is None,
        l1.receiver(LinkEndId::First) == Some(a),
        l1.receiver(LinkEndId::Second) == l0.receiver(LinkEndId::Second),
        l2.receiver(LinkEndId::Second) == Some(b),
        l2.receiver(LinkEndId::First) == l1.receiver(LinkEndId::First),
    ensures
        l2.receiver(LinkEndId::First.other()) == Some(b),
        l2.receiver(LinkEndId::Second.other()) == Some(a),
        l2.receiver(LinkEndId::First) is Some,
        l2.receiver(LinkEndId::Second) is Some,
{
}

} // verus!
