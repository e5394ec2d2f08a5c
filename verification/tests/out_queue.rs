use socket_collection::out_queue::{is_queue_valid, OutQueue};
use socket_collection::SocketConfig;
use std::collections::VecDeque;

/// A clock reading, in nanoseconds since the queue's epoch, far enough from zero that messages
/// can be dated a few minutes back.
const NOW: u64 = 1_000_000_000_000;

fn secs_ago(secs: u64) -> u64 {
    NOW - secs * 1_000_000_000
}

#[test]
fn it_returns_true_when_queue_priority_is_smaller_than_minimum_drop_priority() {
    let mut conf = SocketConfig::default();
    conf.msg_drop_priority = 2;
    let queue: VecDeque<(u64, Vec<u8>)> = VecDeque::new();

    let retain = is_queue_valid(1, &queue, &conf, NOW);

    assert!(retain);
}

#[test]
fn it_returns_true_when_queue_is_empty() {
    let mut conf = SocketConfig::default();
    conf.msg_drop_priority = 2;
    let queue: VecDeque<(u64, Vec<u8>)> = VecDeque::new();

    let retain = is_queue_valid(2, &queue, &conf, NOW);

    assert!(retain);
}

#[test]
fn it_returns_false_when_first_queue_is_expired() {
    let mut conf = SocketConfig::default();
    conf.msg_drop_priority = 2;
    conf.max_msg_age_secs = 10;
    let mut queue = VecDeque::new();
    queue.push_back((secs_ago(100), vec![1u8, 2, 3]));

    let retain = is_queue_valid(2, &queue, &conf, NOW);

    assert!(!retain);
}

#[test]
fn it_returns_true_when_first_queue_item_is_not_expired() {
    let mut conf = SocketConfig::default();
    conf.msg_drop_priority = 2;
    conf.max_msg_age_secs = 10;
    let mut queue = VecDeque::new();
    queue.push_back((secs_ago(5), vec![1u8, 2, 3]));

    let retain = is_queue_valid(2, &queue, &conf, NOW);

    assert!(retain);
}

#[test]
fn it_returns_list_of_expired_queues() {
    let mut conf = SocketConfig::default();
    conf.msg_drop_priority = 1;
    conf.max_msg_age_secs = 10;

    let mut out_queue = OutQueue::new(conf);

    out_queue.push_at(secs_ago(5), vec![1u8, 2, 3], 1);
    out_queue.push_at(secs_ago(100), vec![1u8, 2, 3], 2);
    out_queue.push_at(secs_ago(200), vec![1u8, 2, 3], 3);

    let expired = out_queue.expired_queues(NOW);

    assert_eq!(expired, vec![2, 3]);
}

#[test]
fn when_first_queue_is_expired_it_wont_check_any_further() {
    let mut conf = SocketConfig::default();
    conf.msg_drop_priority = 1;
    conf.max_msg_age_secs = 10;

    let mut out_queue = OutQueue::new(conf);

    out_queue.push_at(secs_ago(100), vec![1u8, 2, 3], 1);
    out_queue.push_at(secs_ago(5), vec![1u8, 2, 3], 2);
    out_queue.push_at(secs_ago(6), vec![1u8, 2, 3], 3);
    out_queue.push_at(secs_ago(200), vec![1u8, 2, 3], 4);

    let expired = out_queue.expired_queues(NOW);

    assert_eq!(expired, vec![1, 2, 3, 4]);
}

#[test]
fn it_drops_queues_with_expired_messages() {
    let mut conf = SocketConfig::default();
    conf.msg_drop_priority = 1;
    conf.max_msg_age_secs = 10;
    let mut out_queue = OutQueue::new(conf);

    out_queue.push_at(secs_ago(5), vec![1u8, 2, 3], 1);
    out_queue.push_at(secs_ago(100), vec![4u8, 5, 6], 2);
    out_queue.push_at(secs_ago(200), vec![7u8, 8, 9], 3);

    let dropped = out_queue.drop_expired_at(NOW);

    assert_eq!(dropped, 2);
    assert_eq!(out_queue.next_msg(), Some(vec![1, 2, 3]));
}

#[test]
fn it_does_not_drop_expired_message_whose_priority_is_lower_than_drop_priority() {
    let mut conf = SocketConfig::default();
    conf.msg_drop_priority = 2;
    conf.max_msg_age_secs = 10;
    let mut out_queue = OutQueue::new(conf);

    out_queue.push_at(secs_ago(100), vec![1u8, 2, 3], 2);
    out_queue.push_at(secs_ago(200), vec![3u8, 4, 5], 1);

    let dropped = out_queue.drop_expired_at(NOW);

    assert_eq!(dropped, 1);
    assert_eq!(out_queue.next_msg(), Some(vec![3, 4, 5]));
}

#[test]
fn it_returns_none_if_no_data_is_queued() {
    let mut out_queue: OutQueue<Vec<u8>> = OutQueue::new(SocketConfig::default());

    let next_msg = out_queue.next_msg();

    assert!(next_msg.is_none());
}

#[test]
fn it_returns_next_message_when_data_is_queued() {
    let mut out_queue = OutQueue::new(SocketConfig::default());

    out_queue.push_at(secs_ago(5), vec![1u8, 2, 3], 1);

    let next_msg = out_queue.next_msg();

    assert_eq!(next_msg, Some(vec![1, 2, 3]));
}

#[test]
fn it_returns_next_message_from_lower_priority_queue() {
    let mut out_queue = OutQueue::new(SocketConfig::default());

    out_queue.push_at(secs_ago(5), vec![1u8, 2, 3], 2);
    out_queue.push_at(secs_ago(5), vec![1u8, 2, 3], 1);

    let next_msg = out_queue.next_msg();

    assert_eq!(next_msg, Some(vec![1, 2, 3]));
}

#[test]
fn it_removes_queue_if_it_had_only_1_element() {
    let mut conf = SocketConfig::default();
    conf.msg_drop_priority = 1;
    let mut out_queue = OutQueue::new(conf);

    out_queue.push_at(secs_ago(5), vec![1u8, 2, 3], 1);

    let _ = out_queue.next_msg();

    assert_eq!(out_queue.queue_count(), 0);
}

#[test]
fn messages_of_one_priority_come_out_oldest_first() {
    let mut out_queue = OutQueue::new(SocketConfig::default());

    out_queue.push_at(secs_ago(3), vec![1u8], 4);
    out_queue.push_at(secs_ago(2), vec![2u8], 4);
    out_queue.push_at(secs_ago(1), vec![3u8], 4);

    assert_eq!(out_queue.next_msg(), Some(vec![1]));
    assert_eq!(out_queue.next_msg(), Some(vec![2]));
    assert_eq!(out_queue.next_msg(), Some(vec![3]));
    assert_eq!(out_queue.next_msg(), None);
}

#[test]
fn a_new_message_does_not_overtake_one_of_higher_priority() {
    let mut out_queue = OutQueue::new(SocketConfig::default());

    out_queue.push_at(secs_ago(1), vec![7u8], 3);
    out_queue.push_at(NOW, vec![8u8], 3);
    out_queue.push_at(NOW, vec![9u8], 5);

    assert_eq!(out_queue.next_msg(), Some(vec![7]));
    assert_eq!(out_queue.next_msg(), Some(vec![8]));
    assert_eq!(out_queue.next_msg(), Some(vec![9]));
}

#[test]
fn high_priority_queue_is_kept_however_old() {
    let mut conf = SocketConfig::default();
    conf.msg_drop_priority = 3;
    conf.max_msg_age_secs = 1;
    let mut out_queue = OutQueue::new(conf);

    out_queue.push_at(secs_ago(500), vec![1u8], 0);
    out_queue.push_at(secs_ago(500), vec![2u8], 2);
    out_queue.push_at(secs_ago(500), vec![3u8], 3);
    out_queue.push_at(NOW, vec![4u8], 9);

    assert_eq!(out_queue.expired_queues(NOW), vec![3, 9]);
    assert_eq!(out_queue.drop_expired_at(NOW), 2);
    assert_eq!(out_queue.queue_count(), 2);
    assert_eq!(out_queue.next_msg(), Some(vec![1]));
    assert_eq!(out_queue.next_msg(), Some(vec![2]));
    assert_eq!(out_queue.next_msg(), None);
}

#[test]
fn age_is_counted_in_whole_seconds() {
    let mut conf = SocketConfig::default();
    conf.msg_drop_priority = 0;
    conf.max_msg_age_secs = 10;
    let mut queue = VecDeque::new();
    queue.push_back((NOW - 10_999_999_999, vec![1u8]));
    assert!(is_queue_valid(0, &queue, &conf, NOW));

    let mut queue = VecDeque::new();
    queue.push_back((NOW - 11_000_000_000, vec![1u8]));
    assert!(!is_queue_valid(0, &queue, &conf, NOW));
}

#[test]
fn a_message_stamped_after_now_is_not_expired() {
    let mut conf = SocketConfig::default();
    conf.msg_drop_priority = 0;
    conf.max_msg_age_secs = 0;
    let mut queue = VecDeque::new();
    queue.push_back((NOW + 5_000_000_000, vec![1u8]));

    assert!(is_queue_valid(0, &queue, &conf, NOW));
}

#[test]
fn nothing_expires_in_an_empty_queue() {
    let mut out_queue: OutQueue<Vec<u8>> = OutQueue::new(SocketConfig::default());

    assert!(out_queue.expired_queues(NOW).is_empty());
    assert_eq!(out_queue.drop_expired_at(NOW), 0);
    assert_eq!(out_queue.drop_expired(), 0);
    assert_eq!(out_queue.queue_count(), 0);
}

#[test]
fn pushed_message_is_queued_under_its_priority() {
    let mut out_queue = OutQueue::new(SocketConfig::default());

    out_queue.push(vec![5u8, 6], 7);
    out_queue.push(vec![1u8], 7);
    out_queue.push(vec![2u8], 1);

    assert_eq!(out_queue.queue_count(), 2);
    assert_eq!(out_queue.next_msg(), Some(vec![2]));
    assert_eq!(out_queue.next_msg(), Some(vec![5, 6]));
    assert_eq!(out_queue.next_msg(), Some(vec![1]));
    assert_eq!(out_queue.queue_count(), 0);
}

#[test]
fn message_older_than_max_age_before_a_later_write_is_dropped() {
    let mut conf = SocketConfig::default();
    conf.msg_drop_priority = 1;
    conf.max_msg_age_secs = 10;
    let mut out_queue = OutQueue::new(conf);

    out_queue.push_at(secs_ago(100), vec![1u8], 2);
    out_queue.push_at(NOW, vec![2u8], 0);

    assert_eq!(out_queue.drop_expired(), 1);
    assert_eq!(out_queue.next_msg(), Some(vec![2]));
    assert_eq!(out_queue.next_msg(), None);
}

#[test]
fn pushed_message_is_never_stamped_before_an_earlier_one() {
    let mut conf = SocketConfig::default();
    conf.msg_drop_priority = 0;
    conf.max_msg_age_secs = 10;
    let mut out_queue = OutQueue::new(conf);

    out_queue.push_at(NOW, vec![1u8], 3);
    out_queue.push(vec![2u8], 3);

    assert!(out_queue.expired_queues(NOW).is_empty());
    assert_eq!(out_queue.expired_queues(NOW + 11_000_000_000), vec![3]);
}
