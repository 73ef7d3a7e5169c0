use minix_ipc::utils::message::Message;
use minix_ipc::utils::message_queue::MessageQueue;

fn message(m_type: u32) -> Message {
    Message { source: 0, m_type, payload: [0; 14] }
}

#[test]
fn new_queue_is_empty() {
    let mut queue = MessageQueue::new();
    assert_eq!(queue.peek(|_| true), None);
    assert_eq!(queue.get(|_| true), None);
}

#[test]
fn queue_serves_senders_in_order() {
    let mut queue = MessageQueue::new();
    queue.insert(41, message(1));
    queue.insert(43, message(2));
    queue.insert(41, message(3));
    assert_eq!(queue.get(|sender| sender == 43), Some((43, message(2))));
    assert_eq!(queue.get(|_| true), Some((41, message(1))));
    assert_eq!(queue.get(|sender| sender == 43), None);
    assert_eq!(queue.get(|_| true), Some((41, message(3))));
    assert_eq!(queue.get(|_| true), None);
}

#[test]
fn peek_leaves_the_entry() {
    let mut queue = MessageQueue::new();
    queue.insert(7, message(10));
    queue.insert(8, message(11));
    assert_eq!(queue.peek(|sender| sender == 8), Some((8, message(11))));
    assert_eq!(queue.peek(|sender| sender == 8), Some((8, message(11))));
    assert_eq!(queue.get(|sender| sender == 8), Some((8, message(11))));
    assert_eq!(queue.peek(|sender| sender == 8), None);
    assert_eq!(queue.peek(|_| true), Some((7, message(10))));
}

#[test]
fn entries_taken_from_the_middle_leave_the_order() {
    let mut queue = MessageQueue::new();
    for sender in 0..20 {
        queue.insert(sender, message(sender as u32));
    }
    for sender in [5, 6, 7, 8, 9, 10, 11, 12, 13, 14, 15, 16] {
        assert_eq!(
            queue.get(|s| s == sender),
            Some((sender, message(sender as u32)))
        );
    }
    queue.insert(99, message(99));
    for sender in [0, 1, 2, 3, 4, 17, 18, 19, 99] {
        assert_eq!(queue.get(|_| true), Some((sender, message(sender as u32))));
    }
    assert_eq!(queue.get(|_| true), None);
}

#[test]
fn predicate_sees_only_senders_that_are_held() {
    let mut queue = MessageQueue::new();
    queue.insert(1, message(1));
    queue.insert(2, message(2));
    queue.insert(3, message(3));
    assert_eq!(queue.get(|s| s == 2), Some((2, message(2))));
    let seen = std::cell::RefCell::new(Vec::new());
    assert_eq!(
        queue.get(|s| {
            seen.borrow_mut().push(s);
            false
        }),
        None
    );
    assert_eq!(*seen.borrow(), vec![1, 3]);
}
