//! The coordinator: one step function for the three loops.
//!
//! The three concurrent activities — change detection, heartbeat refresh
//! and command listening — are driven from outside as a stream of events.
//! Each event is handed to `Coordinator::step`, which updates the status
//! table, enqueues outbound requests on the dispatcher, and says whether
//! the process is to terminate.  All shared state lives in the coordinator
//! and every step is one critical section, so two outbound requests can
//! never corrupt one another.

use vstd::prelude::*;
use vstd::string::StringExecFns;

use crate::clock::heartbeat_line;
use crate::clock::heartbeat_text;
use crate::command::parse_command;
use crate::command::parse_command_spec;
use crate::command::Command;
use crate::outbound::Dispatcher;
use crate::outbound::Outbound;
use crate::outbound::OutboundView;
use crate::status::observed_entry;
use crate::status::summary_spec;
use crate::status::StatusStore;
use crate::status::StatusView;
use crate::text::compute_status;
use crate::text::status_text;

verus! {

/// The abstract state of the coordinator: the status table, whether a
/// `/stop` has been seen, and the handle of the heartbeat message.
#[verifier::ext_equal]
pub struct CoordView {
    pub store: Map<Seq<char>, StatusView>,
    pub stop_seen: bool,
    pub handle: u64,
}

/// The abstract value of one event.
pub enum EventView {
    FileChanged { path: Seq<char>, content: Option<Seq<char>>, mtime: Option<i64> },
    Inbound { text: Seq<char>, listing: Seq<Seq<char>> },
    Tick { now: i64 },
}

/// One event handed to the coordinator.
pub enum Event {
    /// The change source reported a write to `path`; `content` is the
    /// file's content if it could be read, `mtime` its modification time
    /// if one was obtainable.
    FileChanged { path: String, content: Option<String>, mtime: Option<i64> },
    /// A line of inbound chat text arrived; `listing` names the files
    /// currently present at the top level of the watched directory.
    Inbound { text: String, listing: Vec<String> },
    /// The heartbeat timer fired at `now` seconds since the Unix epoch.
    Tick { now: i64 },
}

impl View for Event {
    type V = EventView;

    open spec fn view(&self) -> EventView {
        match self {
            Event::FileChanged { path, content, mtime } => EventView::FileChanged {
                path: path@,
                content: content.deep_view(),
                mtime: *mtime,
            },
            Event::Inbound { text, listing } => EventView::Inbound {
                text: text@,
                listing: listing.deep_view(),
            },
            Event::Tick { now } => EventView::Tick { now: *now },
        }
    }
}

/// What one step does: the state after it, the outbound requests it
/// enqueues, and whether the process is to terminate.
#[verifier::ext_equal]
pub struct StepResult {
    pub state: CoordView,
    pub emit: Seq<OutboundView>,
    pub quit: bool,
}

/// A reported change: a failed read leaves everything as it is; a
/// successful read is an observation, and a notification with the new
/// status text is emitted exactly when that text differs from the stored
/// one (or the file was never observed before).
pub open spec fn on_file_changed(
    s: CoordView,
    path: Seq<char>,
    content: Option<Seq<char>>,
    mtime: Option<i64>,
) -> StepResult {
    match content {
        None => StepResult { state: s, emit: Seq::empty(), quit: false },
        Some(c) => {
            let changed = !s.store.contains_key(path) || s.store[path].text != status_text(c);
            let state = CoordView {
                store: s.store.insert(path, observed_entry(path, c, mtime)),
                stop_seen: s.stop_seen,
                handle: s.handle,
            };
            let emit: Seq<OutboundView> = if changed {
                seq![OutboundView::Send { text: status_text(c) }]
            } else {
                Seq::empty()
            };
            StepResult { state, emit, quit: false }
        },
    }
}

/// Inbound text: `/status` emits the summary of the current listing;
/// the first `/stop` is ignored with a reply, every later one replies and
/// terminates; anything else is inert.
pub open spec fn on_inbound(s: CoordView, text: Seq<char>, listing: Seq<Seq<char>>) -> StepResult {
    match parse_command_spec(text) {
        Some(Command::Status) => StepResult {
            state: s,
            emit: seq![
                OutboundView::Send { text: summary_spec(listing, s.store) },
            ],
            quit: false,
        },
        Some(Command::Stop) => if !s.stop_seen {
            StepResult {
                state: CoordView { store: s.store, stop_seen: true, handle: s.handle },
                emit: seq![OutboundView::Reply { text: "Ignore /stop"@ }],
                quit: false,
            }
        } else {
            StepResult {
                state: s,
                emit: seq![OutboundView::Reply { text: "Stopping."@ }],
                quit: true,
            }
        },
        None => StepResult { state: s, emit: Seq::empty(), quit: false },
    }
}

/// A timer tick emits exactly one edit of the heartbeat message — never a
/// new message — and changes nothing else.
pub open spec fn on_tick(s: CoordView, now: i64) -> StepResult {
    StepResult {
        state: s,
        emit: seq![OutboundView::Edit { handle: s.handle, text: heartbeat_line(now) }],
        quit: false,
    }
}

/// The coordinator's whole behaviour, one event at a time.
pub open spec fn step_spec(s: CoordView, e: EventView) -> StepResult {
    match e {
        EventView::FileChanged { path, content, mtime } => on_file_changed(
            s,
            path,
            content,
            mtime,
        ),
        EventView::Inbound { text, listing } => on_inbound(s, text, listing),
        EventView::Tick { now } => on_tick(s, now),
    }
}

/// Owns the shared state of the three loops and serves their events.
pub struct Coordinator {
    store: StatusStore,
    dispatcher: Dispatcher,
    heartbeat_handle: u64,
    stop_seen: bool,
}

impl Coordinator {
    pub closed spec fn model(&self) -> CoordView {
        CoordView {
            store: self.store@,
            stop_seen: self.stop_seen,
            handle: self.heartbeat_handle,
        }
    }

    /// The outbound requests enqueued and not yet handed out, oldest
    /// first.
    pub closed spec fn pending_view(&self) -> Seq<OutboundView> {
        self.dispatcher@
    }

    pub closed spec fn wf(&self) -> bool {
        self.store.wf()
    }

    /// Takes over the startup status table; no `/stop` has been seen and
    /// nothing is pending.
    pub fn new(store: StatusStore, heartbeat_handle: u64) -> (c: Coordinator)
        requires
            store.wf(),
        ensures
            c.wf(),
            c.model() == (CoordView { store: store@, stop_seen: false, handle: heartbeat_handle }),
            c.pending_view() =~= Seq::<OutboundView>::empty(),
    {
        Coordinator { store, dispatcher: Dispatcher::new(), heartbeat_handle, stop_seen: false }
    }

    /// Handles one event: exactly what `step_spec` says, with the emitted
    /// requests enqueued behind everything already pending.
    pub fn step(&mut self, event: Event) -> (quit: bool)
        requires
            old(self).wf(),
        ensures
            final(self).wf(),
            ({
                let r = step_spec(old(self).model(), event@);
                &&& final(self).model() =~= r.state
                &&& final(self).pending_view() =~= old(self).pending_view() + r.emit
                &&& quit == r.quit
            }),
    {
        let ghost pending0 = self.pending_view();
        match event {
            Event::FileChanged { path, content, mtime } => {
                match content {
                    Some(c) => {
                        let text = compute_status(c.as_str());
                        let changed = self.store.observe(path, c.as_str(), mtime);
                        if changed {
                            self.dispatcher.notify(text);
                            proof {
                                assert(self.pending_view() =~= pending0 + seq![
                                    OutboundView::Send { text: text@ },
                                ]);
                            }
                        } else {
                            proof {
                                assert(self.pending_view() =~= pending0
                                    + Seq::<OutboundView>::empty());
                            }
                        }
                        false
                    },
                    None => {
                        proof {
                            assert(self.pending_view() =~= pending0 + Seq::<OutboundView>::empty());
                        }
                        false
                    },
                }
            },
            Event::Inbound { text, listing } => {
                match parse_command(&text) {
                    Some(Command::Status) => {
                        let s = self.store.summary(&listing);
                        self.dispatcher.notify(s);
                        proof {
                            assert(self.pending_view() =~= pending0 + seq![
                                OutboundView::Send {
                                    text: summary_spec(listing.deep_view(), self.store@),
                                },
                            ]);
                        }
                        false
                    },
                    Some(Command::Stop) => {
                        if !self.stop_seen {
                            self.stop_seen = true;
                            self.dispatcher.reply(String::from_str("Ignore /stop"));
                            proof {
                                assert(self.pending_view() =~= pending0 + seq![
                                    OutboundView::Reply { text: "Ignore /stop"@ },
                                ]);
                            }
                            false
                        } else {
                            self.dispatcher.reply(String::from_str("Stopping."));
                            proof {
                                assert(self.pending_view() =~= pending0 + seq![
                                    OutboundView::Reply { text: "Stopping."@ },
                                ]);
                            }
                            true
                        }
                    },
                    None => {
                        proof {
                            assert(self.pending_view() =~= pending0 + Seq::<OutboundView>::empty());
                        }
                        false
                    },
                }
            },
            Event::Tick { now } => {
                let text = heartbeat_text(now);
                self.dispatcher.refresh_heartbeat(self.heartbeat_handle, text);
                proof {
                    assert(self.pending_view() =~= pending0 + seq![
                        OutboundView::Edit {
                            handle: self.heartbeat_handle,
                            text: heartbeat_line(now),
                        },
                    ]);
                }
                false
            },
        }
    }

    /// Hands out the oldest pending outbound request, if any; delivery
    /// order is enqueue order.
    pub fn next_outbound(&mut self) -> (r: Option<Outbound>)
        requires
            old(self).wf(),
        ensures
            final(self).wf(),
            final(self).model() == old(self).model(),
            old(self).pending_view().len() == 0 ==> r is None && final(self).pending_view()
                == old(self).pending_view(),
            old(self).pending_view().len() > 0 ==> (r matches Some(m) && m@ == old(
                self,
            ).pending_view()[0] && final(self).pending_view() =~= old(
                self,
            ).pending_view().drop_first()),
    {
        self.dispatcher.next()
    }

    /// How many outbound requests are pending.
    pub fn pending(&self) -> (n: usize)
        ensures
            n == self.pending_view().len(),
    {
        self.dispatcher.len()
    }
}

/// The state after a whole run of events and everything the run emits, in
/// order.
#[verifier::ext_equal]
pub struct RunResult {
    pub state: CoordView,
    pub emit: Seq<OutboundView>,
}

/// Runs the coordinator over a sequence of events.
pub open spec fn run_spec(s: CoordView, events: Seq<EventView>) -> RunResult
    decreases events.len(),
{
    if events.len() == 0 {
        RunResult { state: s, emit: Seq::empty() }
    } else {
        let r = step_spec(s, events[0]);
        let rest = run_spec(r.state, events.drop_first());
        RunResult { state: rest.state, emit: r.emit + rest.emit }
    }
}

/// The status text the table holds for `path`, if it holds one.
pub open spec fn stored_text(m: Map<Seq<char>, StatusView>, path: Seq<char>) -> Option<Seq<char>> {
    if m.contains_key(path) {
        Some(m[path].text)
    } else {
        None
    }
}

/// A run of successful reads of one file, as change events: each write is
/// the content that was read and the modification time that came with it.
pub open spec fn file_change_events(
    path: Seq<char>,
    writes: Seq<(Seq<char>, Option<i64>)>,
) -> Seq<EventView> {
    writes.map_values(
        |w: (Seq<char>, Option<i64>)| EventView::FileChanged {
            path,
            content: Some(w.0),
            mtime: w.1,
        },
    )
}

/// The first text of each run of consecutive equal texts, starting from
/// what was last seen.
pub open spec fn distinct_runs(texts: Seq<Seq<char>>, prev: Option<Seq<char>>) -> Seq<Seq<char>>
    decreases texts.len(),
{
    if texts.len() == 0 {
        Seq::empty()
    } else if prev == Some(texts[0]) {
        distinct_runs(texts.drop_first(), prev)
    } else {
        seq![texts[0]] + distinct_runs(texts.drop_first(), Some(texts[0]))
    }
}

/// Dedup law: over any sequence of writes to one file, exactly the first
/// write of each run of consecutive equal status texts emits a
/// notification, and the notification carries that text.  A rewrite with
/// unchanged first-line content emits nothing.
pub proof fn lemma_dedup_notifications(
    s: CoordView,
    path: Seq<char>,
    writes: Seq<(Seq<char>, Option<i64>)>,
)
    ensures
        run_spec(s, file_change_events(path, writes)).emit == distinct_runs(
            writes.map_values(|w: (Seq<char>, Option<i64>)| status_text(w.0)),
            stored_text(s.store, path),
        ).map_values(|t: Seq<char>| OutboundView::Send { text: t }),
    decreases writes.len(),
{
    let events = file_change_events(path, writes);
    let texts = writes.map_values(|w: (Seq<char>, Option<i64>)| status_text(w.0));
    let prev = stored_text(s.store, path);
    let to_send = |t: Seq<char>| OutboundView::Send { text: t };
    if writes.len() == 0 {
        assert(run_spec(s, events).emit =~= Seq::<OutboundView>::empty());
        assert(distinct_runs(texts, prev).map_values(to_send) =~= Seq::<OutboundView>::empty());
    } else {
        let r = step_spec(s, events[0]);
        assert(events[0] == (EventView::FileChanged {
            path,
            content: Some(writes[0].0),
            mtime: writes[0].1,
        }));
        let changed = !s.store.contains_key(path) || s.store[path].text != texts[0];
        assert(stored_text(r.state.store, path) == Some(texts[0]));
        assert(events.drop_first() =~= file_change_events(path, writes.drop_first()));
        assert(texts.drop_first() =~= writes.drop_first().map_values(
            |w: (Seq<char>, Option<i64>)| status_text(w.0),
        ));
        lemma_dedup_notifications(r.state, path, writes.drop_first());
        let rest_emit = run_spec(r.state, events.drop_first()).emit;
        if changed {
            assert(prev != Some(texts[0]));
            assert(rest_emit == distinct_runs(texts.drop_first(), Some(texts[0])).map_values(
                to_send,
            ));
            assert(run_spec(s, events).emit =~= seq![to_send(texts[0])] + rest_emit);
            assert((seq![texts[0]] + distinct_runs(texts.drop_first(), Some(texts[0]))).map_values(
                to_send,
            ) =~= seq![to_send(texts[0])] + distinct_runs(
                texts.drop_first(),
                Some(texts[0]),
            ).map_values(to_send));
        } else {
            assert(prev == Some(texts[0]));
            assert(run_spec(s, events).emit =~= rest_emit);
        }
    }
}

/// Stop law, first half: in the start state (no `/stop` seen yet) a
/// `/stop` never terminates the process and produces exactly one reply
/// that it was ignored; the table is untouched.
/// Second half: a `/stop` in any state that has already seen one
/// terminates after exactly one "Stopping." reply.  In particular the
/// second `/stop` after start does.
pub proof fn lemma_stop_protocol(
    s: CoordView,
    listing: Seq<Seq<char>>,
    listing2: Seq<Seq<char>>,
)
    requires
        !s.stop_seen,
    ensures
        ({
            let first = step_spec(s, EventView::Inbound { text: "/stop"@, listing });
            let second = step_spec(
                first.state,
                EventView::Inbound { text: "/stop"@, listing: listing2 },
            );
            &&& !first.quit
            &&& first.emit =~= seq![OutboundView::Reply { text: "Ignore /stop"@ }]
            &&& first.state.store == s.store
            &&& first.state.stop_seen
            &&& second.quit
            &&& second.emit =~= seq![OutboundView::Reply { text: "Stopping."@ }]
            &&& second.state == first.state
        }),
{
    reveal_strlit("/stop");
    reveal_strlit("/status");
    assert("/stop"@.len() == 5);
    assert("/status"@.len() == 7);
    assert(parse_command_spec("/stop"@) == Some(Command::Stop));
}

/// Stop law, the rest: whether a `/stop` was seen can only be turned on,
/// only by a `/stop`, and the process terminates exactly on a `/stop`
/// that follows an earlier one.
pub proof fn lemma_stop_seen_stable(s: CoordView, e: EventView)
    ensures
        s.stop_seen ==> step_spec(s, e).state.stop_seen,
        step_spec(s, e).state.stop_seen != s.stop_seen ==> (e matches EventView::Inbound {
            text,
            ..
        } && parse_command_spec(text) == Some(Command::Stop)),
        step_spec(s, e).quit <==> (s.stop_seen && (e matches EventView::Inbound { text, .. }
            && parse_command_spec(text) == Some(Command::Stop))),
{
}

/// Heartbeat law: over a window of N timer ticks the heartbeat message is
/// edited exactly N times — one edit per tick, always of the same message
/// handle, never a new message — and the state is untouched.
pub proof fn lemma_heartbeat_refresh(s: CoordView, ticks: Seq<i64>)
    ensures
        ({
            let run = run_spec(s, ticks.map_values(|t: i64| EventView::Tick { now: t }));
            &&& run.emit.len() == ticks.len()
            &&& forall|i: int|
                0 <= i < ticks.len() ==> run.emit[i] == (OutboundView::Edit {
                    handle: s.handle,
                    text: heartbeat_line(ticks[i]),
                })
            &&& run.state == s
        }),
    decreases ticks.len(),
{
    let events = ticks.map_values(|t: i64| EventView::Tick { now: t });
    if ticks.len() == 0 {
    } else {
        let r = step_spec(s, events[0]);
        assert(r.state == s);
        assert(events.drop_first() =~= ticks.drop_first().map_values(
            |t: i64| EventView::Tick { now: t },
        ));
        lemma_heartbeat_refresh(s, ticks.drop_first());
        let rest = run_spec(s, events.drop_first());
        assert forall|i: int| 0 <= i < ticks.len() implies run_spec(s, events).emit[i]
            == (OutboundView::Edit { handle: s.handle, text: heartbeat_line(ticks[i]) }) by {
            if i > 0 {
                assert(run_spec(s, events).emit[i] == rest.emit[i - 1]);
                assert(ticks.drop_first()[i - 1] == ticks[i]);
            }
        }
    }
}

} // verus!
