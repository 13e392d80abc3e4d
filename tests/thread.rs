use yammer_tools::message::YammerMessage;
use yammer_tools::thread::reconstruct_thread;

fn msg(id: u64, replied_to_id: Option<u64>, thread_id: u64) -> YammerMessage {
    YammerMessage {
        id,
        replied_to_id,
        sender_id: 7,
        sender_name: "7".to_string(),
        network_id: 1,
        group_id: 0,
        group_name: "0".to_string(),
        thread_id,
        privacy: "public".to_string(),
        created_at: "2024-01-01".to_string(),
        body: format!("message {}", id),
        liked_by: 0,
        replies: None,
    }
}

fn replies(m: &YammerMessage) -> &Vec<YammerMessage> {
    m.replies.as_ref().expect("replies")
}

#[test]
fn simple_chain_nests_replies() {
    let messages = vec![msg(3, Some(2), 1), msg(2, Some(1), 1), msg(1, None, 1)];
    let (roots, count) = reconstruct_thread(1, messages);
    assert_eq!(count, 3);
    assert_eq!(roots.len(), 1);
    let (key, root) = &roots[0];
    assert_eq!(*key, 1);
    assert_eq!(root.id, 1);
    let level1 = replies(root);
    assert_eq!(level1.len(), 1);
    assert_eq!(level1[0].id, 2);
    let level2 = replies(&level1[0]);
    assert_eq!(level2.len(), 1);
    assert_eq!(level2[0].id, 3);
    assert!(level2[0].replies.is_none());
}

#[test]
fn message_without_parent_is_filed_under_thread_id() {
    let messages = vec![msg(5, None, 10)];
    let (roots, count) = reconstruct_thread(10, messages);
    assert_eq!(count, 1);
    assert_eq!(roots.len(), 1);
    assert_eq!(roots[0].0, 10);
    assert_eq!(roots[0].1.id, 5);
    assert!(roots[0].1.replies.is_none());
}

#[test]
fn reply_before_parent_stays_stranded() {
    // Taken from the last to the first: id 2 is filed before its parent id 1.
    let messages = vec![msg(1, None, 9), msg(2, Some(1), 9)];
    let (roots, count) = reconstruct_thread(9, messages);
    assert_eq!(count, 2);
    assert_eq!(roots.len(), 2);
    assert_eq!(roots[0].0, 1);
    assert_eq!(roots[0].1.id, 2);
    assert!(roots[0].1.replies.is_none());
    assert_eq!(roots[1].0, 9);
    assert_eq!(roots[1].1.id, 1);
    assert!(roots[1].1.replies.is_none());
}

#[test]
fn reply_before_parent_when_thread_id_is_parent_id() {
    // With the thread id equal to the parent's id, the parent lands under the stranded reply.
    let messages = vec![msg(1, None, 1), msg(2, Some(1), 1)];
    let (roots, _) = reconstruct_thread(1, messages);
    assert_eq!(roots.len(), 1);
    assert_eq!(roots[0].0, 1);
    assert_eq!(roots[0].1.id, 2);
    let below = replies(&roots[0].1);
    assert_eq!(below.len(), 1);
    assert_eq!(below[0].id, 1);
}

#[test]
fn siblings_keep_arrival_order_and_deep_replies_attach() {
    // Processing order: 1, 2 (reply to 1), 3 (reply to 1), 4 (reply to 2), 5 (reply to 4).
    let messages = vec![
        msg(5, Some(4), 1),
        msg(4, Some(2), 1),
        msg(3, Some(1), 1),
        msg(2, Some(1), 1),
        msg(1, None, 1),
    ];
    let (roots, count) = reconstruct_thread(1, messages);
    assert_eq!(count, 5);
    assert_eq!(roots.len(), 1);
    let top = replies(&roots[0].1);
    assert_eq!(top.iter().map(|m| m.id).collect::<Vec<_>>(), vec![2, 3]);
    let under2 = replies(&top[0]);
    assert_eq!(under2[0].id, 4);
    assert_eq!(replies(&under2[0])[0].id, 5);
    assert!(top[1].replies.is_none());
}

#[test]
fn empty_thread_has_no_roots() {
    let (roots, count) = reconstruct_thread(3, Vec::new());
    assert_eq!(count, 0);
    assert!(roots.is_empty());
}
