use garbage_bot::cursor::{advance_cursor, get_updates_request, poll_offset, process_batch};
use garbage_bot::registry::ContactSet;
use garbage_bot::relay::{echo_reply, Dispatcher};
use garbage_bot::scheduler::{fire, initial_step, notification_items, wake_step, SchedulerStep};
use garbage_bot::telegram::{Chat, Message, ResponseContainer, TelegramError, TelegramRequest, Update};

fn message(text: &str, id: u64) -> Message {
    Message {
        text: text.to_owned(),
        chat: Chat {
            id,
            first_name: "Ada".to_owned(),
            last_name: "L".to_owned(),
            chat_type: "private".to_owned(),
        },
    }
}

fn update(update_id: i64, text: &str, id: u64) -> Update {
    Update { update_id, message: message(text, id) }
}

#[test]
fn the_cursor_is_one_past_the_largest_id_seen() {
    let batch = vec![update(5, "a", 1), update(3, "b", 2), update(7, "c", 3)];
    let (cursor, messages) = process_batch(-1, &batch);
    assert_eq!(cursor, 8);
    assert_eq!(messages.len(), 3);
    assert_eq!(messages[0].text, "a");
    assert_eq!(messages[2].chat.id, 3);

    let (cursor2, messages2) = process_batch(cursor, &vec![update(2, "d", 4)]);
    assert_eq!(cursor2, 8);
    assert_eq!(messages2.len(), 1);
}

#[test]
fn the_cursor_never_decreases_across_rounds() {
    let mut cursor = -1i64;
    let rounds = vec![vec![1i64, 2], vec![], vec![0], vec![9, 4]];
    let mut highest = -1i64;
    for round in rounds {
        let batch: Vec<Update> = round.iter().map(|id| update(*id, "x", 1)).collect();
        let (next, _) = process_batch(cursor, &batch);
        assert!(next >= cursor);
        for id in round {
            highest = highest.max(id);
        }
        cursor = next;
    }
    assert_eq!(cursor, 1 + highest);
}

#[test]
fn the_poll_offset_is_the_cursor_once_positive() {
    assert_eq!(poll_offset(-1), None);
    assert_eq!(poll_offset(0), None);
    assert_eq!(poll_offset(8), Some(8));
}

#[test]
fn a_poll_round_asks_for_one_update_with_a_minute_timeout() {
    let r = get_updates_request(Some(8), None);
    match r {
        TelegramRequest::Updates { offset, limit, timeout } => {
            assert_eq!(offset, Some(8));
            assert_eq!(limit, Some(1));
            assert_eq!(timeout, 60);
        }
        _ => panic!("wrong request"),
    }
}

#[test]
fn the_contact_set_counts_distinct_recipients() {
    let mut set = ContactSet::new();
    let messages = vec![
        message("a", 1),
        message("b", 2),
        message("c", 1),
        message("d", 2),
        message("e", 1),
    ];
    set.register_all(&messages);
    assert_eq!(set.len(), 2);
    assert!(set.contains(1));
    assert!(set.contains(2));
    assert!(!set.contains(3));
}

#[test]
fn the_contact_set_ignores_message_order() {
    let mut a = ContactSet::new();
    a.register_all(&vec![message("x", 7), message("y", 9), message("z", 7)]);
    let mut b = ContactSet::new();
    b.register_all(&vec![message("z", 9), message("x", 7), message("y", 9)]);
    let mut sa = a.snapshot();
    let mut sb = b.snapshot();
    sa.sort();
    sb.sort();
    assert_eq!(sa, sb);
    assert_eq!(a.len(), 2);
}

#[test]
fn a_future_event_fires_by_its_time_after_several_halving_wakes() {
    let event_time = 100i64;
    let mut now = 0i64;
    let mut wakes = 0u32;
    let mut step = initial_step(event_time, now);
    loop {
        match step {
            SchedulerStep::Sleep { delay } => {
                assert!(now + (delay as i64) < event_time);
                now += (delay as i64).max(1);
                wakes += 1;
                step = wake_step(event_time, now);
            }
            SchedulerStep::Fire => {
                assert!(now >= event_time);
                break;
            }
            SchedulerStep::Skip => panic!("a future event must not be skipped"),
        }
        assert!(wakes < 10000);
    }
    assert!(now <= event_time);
    assert!(wakes >= 2);
}

#[test]
fn an_event_already_past_sends_nothing() {
    assert_eq!(initial_step(50, 100), SchedulerStep::Skip);
    assert_eq!(initial_step(100, 100), SchedulerStep::Skip);
}

#[test]
fn firing_notifies_every_known_contact_once() {
    let mut set = ContactSet::new();
    set.insert(11);
    set.insert(22);
    set.insert(11);
    let items = fire(&set);
    assert_eq!(items.len(), 2);
    for (id, text) in &items {
        assert!(*id == 11 || *id == 22);
        assert_eq!(text, "notification !!");
    }
    let empty = notification_items(&vec![]);
    assert_eq!(empty.len(), 0);
}

#[test]
fn the_echo_relay_replies_to_the_sender_with_the_same_text() {
    let item = echo_reply(&message("hi", 42));
    assert_eq!(item, (42, "hi".to_owned()));
}

#[test]
fn the_dispatcher_sends_each_item_exactly_once() {
    let items = vec![(42u64, "hi".to_owned())];
    let mut d = Dispatcher::new();
    let req = d.current_request(&items).unwrap();
    match req {
        TelegramRequest::SendMessage { chat_id, text } => {
            assert_eq!(chat_id, 42);
            assert_eq!(text, "hi");
        }
        _ => panic!("wrong request"),
    }
    d.advance(&Ok(ResponseContainer { ok: true, result: message("hi", 42) }));
    assert!(d.current_request(&items).is_none());
}

#[test]
fn a_failed_send_does_not_stop_the_dispatcher() {
    let items = vec![(1u64, "a".to_owned()), (2u64, "b".to_owned())];
    let mut d = Dispatcher::new();
    let _ = d.current_request(&items).unwrap();
    d.advance(&Err(TelegramError::HttpError { msg: "connection reset".to_owned() }));
    let next = d.current_request(&items).unwrap();
    match next {
        TelegramRequest::SendMessage { chat_id, text } => {
            assert_eq!(chat_id, 2);
            assert_eq!(text, "b");
        }
        _ => panic!("wrong request"),
    }
    d.advance(&Err(TelegramError::JsonError { msg: "bad body".to_owned() }));
    assert!(d.current_request(&items).is_none());
}
