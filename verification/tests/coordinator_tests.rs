use herobot::coordinator::Coordinator;
use herobot::coordinator::Event;
use herobot::outbound::Outbound;
use herobot::status::StatusStore;

fn write_event(path: &str, content: &str) -> Event {
    Event::FileChanged {
        path: String::from(path),
        content: Some(String::from(content)),
        mtime: None,
    }
}

fn inbound(text: &str, listing: &[&str]) -> Event {
    Event::Inbound {
        text: String::from(text),
        listing: listing.iter().map(|p| String::from(*p)).collect(),
    }
}

fn drain(c: &mut Coordinator) -> Vec<Outbound> {
    let mut out = Vec::new();
    while let Some(m) = c.next_outbound() {
        out.push(m);
    }
    out
}

fn sent_text(m: &Outbound) -> &str {
    match m {
        Outbound::Send { text, .. } => text.as_str(),
        Outbound::Edit { text, .. } => text.as_str(),
        Outbound::Reply { text } => text.as_str(),
    }
}

#[test]
fn dedup_two_notifications_for_three_writes() {
    // Writes "ok", "ok", "fail": exactly two notifications, the second
    // carrying "fail".
    let mut c = Coordinator::new(StatusStore::new(), 1);
    assert!(!c.step(write_event("/w/a.txt", "ok")));
    assert!(!c.step(write_event("/w/a.txt", "ok")));
    assert!(!c.step(write_event("/w/a.txt", "fail")));
    let out = drain(&mut c);
    assert_eq!(out.len(), 2);
    assert!(matches!(&out[0], Outbound::Send { text } if text.as_str() == "ok"));
    assert!(matches!(&out[1], Outbound::Send { text } if text.as_str() == "fail"));
}

#[test]
fn unreadable_change_emits_nothing() {
    let mut c = Coordinator::new(StatusStore::new(), 1);
    assert!(!c.step(Event::FileChanged {
        path: String::from("/w/a.txt"),
        content: None,
        mtime: Some(3),
    }));
    assert_eq!(c.pending(), 0);
}

#[test]
fn first_stop_is_ignored_second_stops() {
    let mut c = Coordinator::new(StatusStore::new(), 1);
    let quit = c.step(inbound("/stop", &[]));
    assert!(!quit);
    let out = drain(&mut c);
    assert_eq!(out.len(), 1);
    assert!(matches!(&out[0], Outbound::Reply { text } if text.as_str() == "Ignore /stop"));

    let quit = c.step(inbound("/stop", &[]));
    assert!(quit);
    let out = drain(&mut c);
    assert_eq!(out.len(), 1);
    assert!(matches!(&out[0], Outbound::Reply { text } if text.as_str() == "Stopping."));
}

#[test]
fn third_and_later_stops_also_stop() {
    let mut c = Coordinator::new(StatusStore::new(), 1);
    assert!(!c.step(inbound("/stop", &[])));
    assert!(c.step(inbound("/stop", &[])));
    assert!(c.step(inbound("/stop", &[])));
}

#[test]
fn other_commands_do_not_use_up_the_stop_pardon() {
    // A /status before the first /stop does not make that /stop count as
    // the second command: the first /stop is still ignored.
    let mut c = Coordinator::new(StatusStore::new(), 1);
    assert!(!c.step(inbound("/status", &[])));
    assert!(!c.step(inbound("/stop", &[])));
    assert!(c.step(inbound("/stop", &[])));
}

#[test]
fn unrecognized_text_is_inert() {
    let mut c = Coordinator::new(StatusStore::new(), 1);
    assert!(!c.step(inbound("hello", &[])));
    assert!(!c.step(inbound("/statuses", &[])));
    assert!(!c.step(inbound("", &[])));
    assert_eq!(c.pending(), 0);
}

#[test]
fn status_command_replies_with_summary() {
    let mut c = Coordinator::new(StatusStore::new(), 1);
    c.step(write_event("/w/a.txt", "ok\n"));
    drain(&mut c);
    assert!(!c.step(inbound("/status", &["/w/a.txt"])));
    let out = drain(&mut c);
    assert_eq!(out.len(), 1);
    assert!(matches!(&out[0], Outbound::Send { text } if text.as_str() == "ok at unknown date\n"));
}

#[test]
fn heartbeat_ticks_edit_the_same_message() {
    // N ticks: exactly N outbound requests, every one an edit of the
    // heartbeat handle, never a new message.
    let mut c = Coordinator::new(StatusStore::new(), 7);
    assert!(!c.step(Event::Tick { now: 0 }));
    assert!(!c.step(Event::Tick { now: 1 }));
    assert!(!c.step(Event::Tick { now: 2 }));
    let out = drain(&mut c);
    assert_eq!(out.len(), 3);
    for (i, m) in out.iter().enumerate() {
        match m {
            Outbound::Edit { handle, text } => {
                assert_eq!(*handle, 7);
                assert_eq!(text, &herobot::clock::heartbeat_text(i as i64));
            }
            _ => panic!("a tick emitted something besides an edit"),
        }
    }
}

#[test]
fn interleaved_requests_keep_their_order() {
    // A change notification enqueued before a /status reply is delivered
    // before it, whatever else happened in between.
    let mut c = Coordinator::new(StatusStore::new(), 1);
    c.step(write_event("/w/a.txt", "one"));
    c.step(inbound("/status", &["/w/a.txt"]));
    c.step(Event::Tick { now: 5 });
    c.step(write_event("/w/a.txt", "two"));
    let out = drain(&mut c);
    assert_eq!(out.len(), 4);
    assert_eq!(sent_text(&out[0]), "one");
    assert_eq!(sent_text(&out[1]), "one at unknown date\n");
    assert_eq!(sent_text(&out[2]), herobot::clock::heartbeat_text(5).as_str());
    assert_eq!(sent_text(&out[3]), "two");
    assert!(matches!(&out[2], Outbound::Edit { handle, .. } if *handle == 1));
}

#[test]
fn drained_dispatcher_hands_out_nothing() {
    let mut c = Coordinator::new(StatusStore::new(), 1);
    assert!(c.next_outbound().is_none());
    c.step(Event::Tick { now: 0 });
    assert_eq!(c.pending(), 1);
    assert!(c.next_outbound().is_some());
    assert!(c.next_outbound().is_none());
    assert_eq!(c.pending(), 0);
}
