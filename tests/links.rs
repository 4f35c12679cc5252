use ethsim::links::{create_link, Inbox, LinkEndId, LinkError, SimpleLink};

fn received_value(data: &[u8]) -> u32 {
    u32::from_ne_bytes(data.try_into().expect("Failed to parse bytes as u32"))
}

#[test]
fn creation_and_attachment() {
    let mut links: Vec<SimpleLink> = Vec::new();
    let (end_1, end_2) = create_link(&mut links);

    assert_ne!(end_1.get_link_id(), end_2.get_link_id());

    assert_eq!(Ok(()), end_1.attach_receiver(&mut links, Inbox::new(0, 0)));
    assert_eq!(Ok(()), end_2.attach_receiver(&mut links, Inbox::new(1, 0)));

    assert_eq!(
        Err(LinkError::ReceiverAlreadyAttached),
        end_1.attach_receiver(&mut links, Inbox::new(2, 0))
    );
    assert_eq!(
        Err(LinkError::ReceiverAlreadyAttached),
        end_2.attach_receiver(&mut links, Inbox::new(3, 0))
    );
}

#[test]
fn send_and_receive() {
    let mut links: Vec<SimpleLink> = Vec::new();
    let (end_1, end_2) = create_link(&mut links);

    assert_eq!(
        Err(LinkError::LinkIsDown),
        end_1.send(&links, &0u32.to_ne_bytes())
    );
    assert_eq!(
        Err(LinkError::LinkIsDown),
        end_2.send(&links, &0u32.to_ne_bytes())
    );

    let v1 = Inbox::new(1, 0);
    let v2 = Inbox::new(2, 0);
    end_1.attach_receiver(&mut links, v1).expect("Failed to attach receiver");
    end_2.attach_receiver(&mut links, v2).expect("Failed to attach receiver");

    let to_2 = end_1.send(&links, &10u32.to_ne_bytes()).unwrap();
    assert_eq!(to_2.to, v2);
    assert_eq!(received_value(&to_2.data), 10);

    let to_1 = end_2.send(&links, &11u32.to_ne_bytes()).unwrap();
    assert_eq!(to_1.to, v1);
    assert_eq!(received_value(&to_1.data), 11);
}

#[test]
fn send_before_far_end_attached_is_link_down() {
    let mut links: Vec<SimpleLink> = Vec::new();
    let (end_1, end_2) = create_link(&mut links);
    end_1.attach_receiver(&mut links, Inbox::new(1, 0)).unwrap();
    // end_1 has a receiver, so sending from end_1 still has nobody on the far side
    assert_eq!(Err(LinkError::LinkIsDown), end_1.send(&links, &[1, 2, 3]));
    let d = end_2.send(&links, &[1, 2, 3]).unwrap();
    assert_eq!(d.to, Inbox::new(1, 0));
    assert_eq!(d.data, vec![1, 2, 3]);
}

#[test]
fn other_end() {
    assert_eq!(LinkEndId::First.get_other_end(), LinkEndId::Second);
    assert_eq!(LinkEndId::Second.get_other_end(), LinkEndId::First);
}

#[test]
fn links_are_independent() {
    let mut links: Vec<SimpleLink> = Vec::new();
    let (a_1, _a_2) = create_link(&mut links);
    let (b_1, b_2) = create_link(&mut links);
    assert_eq!(links.len(), 2);
    b_2.attach_receiver(&mut links, Inbox::new(7, 3)).unwrap();
    assert_eq!(Err(LinkError::LinkIsDown), a_1.send(&links, &[9]));
    let d = b_1.send(&links, &[9]).unwrap();
    assert_eq!(d.to, Inbox::new(7, 3));
    assert_eq!(links[1].receiver_of(LinkEndId::Second), Some(Inbox::new(7, 3)));
    assert_eq!(links[0].receiver_of(LinkEndId::Second), None);
}
