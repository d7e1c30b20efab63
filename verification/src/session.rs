//! The session: one pick from entering the terminal's interactive mode to
//! leaving it. The session decides what the terminal is asked to do next;
//! the caller does it and reports back.

use crate::event::{Event, Key, KeyKind, Pointer};
use crate::frame::{is_frame, Frame};
use crate::picker::{FuzzyPicker, PickerState, Signal, Tick};
use crate::window::WindowState;
use std::fmt::Display;
use vstd::prelude::*;

verus! {

/// How long one poll may wait for an input event, in milliseconds. A poll
/// that brings no event in that time still ends, so that the frame is
/// painted again.
pub const POLL_TIMEOUT_MS: u64 = 500;

/// Where a session stands.
#[derive(Clone, Copy, Debug, PartialEq, Eq, Structural)]
pub enum Phase {
    /// Not begun.
    Idle,
    /// Asked to enter interactive mode.
    Entering,
    /// Interactive, waiting for what a poll brings.
    Polling,
    /// Interactive, waiting for a frame to be painted.
    Drawing,
    /// Asked to leave interactive mode.
    Leaving,
    /// Over.
    Resolved,
}

/// How a session ended, as far as it has.
#[derive(Clone, Copy, Debug, PartialEq, Eq, Structural)]
pub enum Outcome {
    /// Not decided yet.
    Pending,
    /// Escape was pressed.
    Cancelled,
    /// Enter was pressed, with the cursor on the entry of the candidate at
    /// the given index, or on no entry.
    Picked(Option<usize>),
    /// The terminal failed.
    Failed,
}

impl Outcome {
    /// The outcome names no candidate beyond a list of the given length.
    pub open spec fn within(self, len: nat) -> bool {
        match self {
            Outcome::Picked(Some(i)) => i < len,
            _ => true,
        }
    }
}

/// What the terminal answered to the last request.
#[derive(Clone, Copy, Debug, PartialEq, Eq, Structural)]
pub enum Reply {
    /// The request was carried out.
    Done,
    /// The poll ended, with an event or by its timeout.
    Polled(Option<Event>),
    /// The request failed.
    Failed,
}

/// What the terminal is asked to do next.
#[derive(Debug)]
pub enum Action {
    /// Enter the alternate screen and capture the mouse.
    EnterScreen,
    /// Wait for one input event, at most for the poll timeout.
    Poll,
    /// Paint the frame.
    Draw(Frame),
    /// Release the mouse and leave the alternate screen.
    LeaveScreen,
    /// Nothing more: the session is over.
    Finish,
}

/// Why a pick gave no answer.
#[derive(Clone, Copy, Debug, PartialEq, Eq, Structural)]
pub enum PickError {
    /// The terminal failed to enter or leave interactive mode, to poll, to
    /// read or to paint.
    Terminal,
}

/// The state of a session.
#[derive(Clone, Copy, Debug, PartialEq, Eq, Structural)]
pub struct Session {
    pub phase: Phase,
    pub outcome: Outcome,
}

/// The outcome of a confirmation that picks the given candidate.
pub open spec fn picked(chosen: Option<int>) -> Outcome {
    match chosen {
        Some(i) => Outcome::Picked(Some(i as usize)),
        None => Outcome::Picked(None),
    }
}

impl Session {
    /// A session that has not begun.
    pub open spec fn start() -> Session {
        Session { phase: Phase::Idle, outcome: Outcome::Pending }
    }

    /// What a poll brought, as the reply tells it.
    pub open spec fn polled(reply: Reply) -> Option<Event> {
        match reply {
            Reply::Polled(polled) => polled,
            _ => None,
        }
    }

    /// Whether the step on this reply runs a tick of the picker: it does
    /// when a poll came back without failure.
    pub open spec fn ticks(self, reply: Reply) -> bool {
        self.phase == Phase::Polling && reply != Reply::Failed
    }

    /// The session after the terminal failed: interactive mode is still
    /// to be left.
    pub open spec fn failing(self) -> Session {
        Session { phase: Phase::Leaving, outcome: Outcome::Failed }
    }

    /// The session after a reply. `chosen` is the candidate under the
    /// cursor, which a confirmation picks.
    pub open spec fn next(self, reply: Reply, chosen: Option<int>) -> Session {
        match self.phase {
            Phase::Idle => Session { phase: Phase::Entering, ..self },
            Phase::Entering | Phase::Drawing => if reply == Reply::Failed {
                self.failing()
            } else {
                Session { phase: Phase::Polling, ..self }
            },
            Phase::Polling => if reply == Reply::Failed {
                self.failing()
            } else {
                match PickerState::polled_signal(Self::polled(reply)) {
                    Signal::Continue => Session { phase: Phase::Drawing, ..self },
                    Signal::Cancel => Session { phase: Phase::Leaving, outcome: Outcome::Cancelled },
                    Signal::Confirm => Session { phase: Phase::Leaving, outcome: picked(chosen) },
                }
            },
            Phase::Leaving => Session {
                phase: Phase::Resolved,
                outcome: if reply == Reply::Failed {
                    Outcome::Failed
                } else {
                    self.outcome
                },
            },
            Phase::Resolved => self,
        }
    }

    /// How far a phase is from the end of the session.
    pub open spec fn distance(phase: Phase) -> nat {
        match phase {
            Phase::Idle => 3,
            Phase::Entering | Phase::Polling | Phase::Drawing => 2,
            Phase::Leaving => 1,
            Phase::Resolved => 0,
        }
    }

    /// Makes a session that has not begun.
    pub fn new() -> (session: Session)
        ensures
            session == Session::start(),
    {
        Session { phase: Phase::Idle, outcome: Outcome::Pending }
    }

    /// Tells whether the session is over.
    pub fn is_resolved(&self) -> (over: bool)
        ensures
            over == (self.phase == Phase::Resolved),
    {
        match self.phase {
            Phase::Resolved => true,
            _ => false,
        }
    }
}

/// The picker state after one step of a session.
pub open spec fn stepped(state: PickerState, session: Session, reply: Reply) -> PickerState {
    if session.ticks(reply) {
        state.ticked(Session::polled(reply))
    } else {
        state
    }
}

/// The reply that a script holds for the next request. A script that has
/// run out stands for a terminal that fails.
pub open spec fn next_reply(script: Seq<Reply>) -> Reply {
    if script.len() > 0 {
        script[0]
    } else {
        Reply::Failed
    }
}

/// What is left of a script after the next reply.
pub open spec fn rest(script: Seq<Reply>) -> Seq<Reply> {
    if script.len() > 0 {
        script.skip(1)
    } else {
        script
    }
}

/// The picker state and the outcome at the end of a session that is run
/// against a scripted terminal. The first request of a session that has
/// not begun takes no reply from the script.
pub open spec fn run(state: PickerState, session: Session, script: Seq<Reply>) -> (
    PickerState,
    Outcome,
)
    decreases script.len(), Session::distance(session.phase),
{
    match session.phase {
        Phase::Resolved => (state, session.outcome),
        Phase::Idle => run(state, session.next(Reply::Done, None), script),
        _ => {
            let reply = next_reply(script);
            let after = stepped(state, session, reply);
            run(after, session.next(reply, after.chosen()), rest(script))
        },
    }
}

/// The part of a script that answers the polls of a terminal that never
/// fails: for each poll what it brought, then the reply to the request that
/// the session makes of it, to paint or to leave.
pub open spec fn polls_script(polls: Seq<Option<Event>>) -> Seq<Reply>
    decreases polls.len(),
{
    if polls.len() == 0 {
        Seq::empty()
    } else {
        seq![Reply::Polled(polls[0]), Reply::Done] + polls_script(polls.skip(1))
    }
}

/// The script of a terminal that never fails and whose polls bring the
/// given outcomes in turn: the reply to the request to enter interactive
/// mode, then the polls.
pub open spec fn session_script(polls: Seq<Option<Event>>) -> Seq<Reply> {
    seq![Reply::Done] + polls_script(polls)
}

/// None of the polls ends the session: none brings a press of escape or
/// of enter.
pub open spec fn quiet(polls: Seq<Option<Event>>) -> bool {
    forall|i: int|
        0 <= i < polls.len() ==> PickerState::polled_signal(#[trigger] polls[i])
            == Signal::Continue
}

/// The picker state after one tick on each of the polls in turn.
pub open spec fn ticked_through(state: PickerState, polls: Seq<Option<Event>>) -> PickerState
    decreases polls.len(),
{
    if polls.len() == 0 {
        state
    } else {
        ticked_through(state.ticked(polls[0]), polls.skip(1))
    }
}

/// The outcome of a session that an event ends in the given state.
pub open spec fn closing_outcome(state: PickerState, closing: Event) -> Outcome {
    match PickerState::signal(closing) {
        Signal::Cancel => Outcome::Cancelled,
        Signal::Confirm => picked(state.chosen()),
        Signal::Continue => Outcome::Pending,
    }
}

/// The phases that a session passes through against a scripted terminal,
/// one for each request that it makes: `Entering` with the request to
/// enter interactive mode, `Polling` with a poll, `Drawing` with a frame,
/// `Leaving` with the request to leave interactive mode, `Resolved` with
/// the end.
pub open spec fn phases(state: PickerState, session: Session, script: Seq<Reply>) -> Seq<Phase>
    decreases script.len(), Session::distance(session.phase),
{
    match session.phase {
        Phase::Resolved => Seq::empty(),
        Phase::Idle => {
            let begun = session.next(Reply::Done, None);
            seq![begun.phase] + phases(state, begun, script)
        },
        _ => {
            let reply = next_reply(script);
            let after = stepped(state, session, reply);
            let then = session.next(reply, after.chosen());
            seq![then.phase] + phases(after, then, rest(script))
        },
    }
}

impl<T: Display + Clone> FuzzyPicker<T> {
    /// Takes the terminal's reply to the last request and decides the
    /// next one. A session that has not begun asks to enter interactive
    /// mode, whatever the reply. Once a poll comes back the picker runs a
    /// tick on it. After a failure, as after escape or enter, the session
    /// asks to leave interactive mode before it ends.
    pub fn drive(&mut self, session: &mut Session, reply: Reply) -> (action: Action)
        requires
            old(self).wf(),
        ensures
            final(self).wf(),
            final(self).items() == old(self).items(),
            final(self).labels() == old(self).labels(),
            final(self).state() == stepped(old(self).state(), *old(session), reply),
            *final(session) == old(session).next(reply, final(self).state().chosen()),
            old(session).outcome.within(old(self).items().len())
                ==> final(session).outcome.within(final(self).items().len()),
            match final(session).phase {
                Phase::Idle => false,
                Phase::Entering => action matches Action::EnterScreen,
                Phase::Polling => action matches Action::Poll,
                Phase::Drawing => action matches Action::Draw(frame) && is_frame(
                    frame,
                    final(self).state().shown,
                    final(self).state().prompt,
                    final(self).state().window,
                ),
                Phase::Leaving => action matches Action::LeaveScreen,
                Phase::Resolved => action matches Action::Finish,
            },
    {
        let failed = match reply {
            Reply::Failed => true,
            _ => false,
        };
        match session.phase {
            Phase::Idle => {
                session.phase = Phase::Entering;
                Action::EnterScreen
            },
            Phase::Entering | Phase::Drawing => {
                if failed {
                    session.phase = Phase::Leaving;
                    session.outcome = Outcome::Failed;
                    Action::LeaveScreen
                } else {
                    session.phase = Phase::Polling;
                    Action::Poll
                }
            },
            Phase::Polling => {
                if failed {
                    session.phase = Phase::Leaving;
                    session.outcome = Outcome::Failed;
                    Action::LeaveScreen
                } else {
                    let polled = match reply {
                        Reply::Polled(polled) => polled,
                        _ => None,
                    };
                    match self.tick(polled) {
                        Tick::Draw(frame) => {
                            session.phase = Phase::Drawing;
                            Action::Draw(frame)
                        },
                        Tick::Cancelled => {
                            session.phase = Phase::Leaving;
                            session.outcome = Outcome::Cancelled;
                            Action::LeaveScreen
                        },
                        Tick::Picked(found) => {
                            session.phase = Phase::Leaving;
                            session.outcome = Outcome::Picked(found);
                            Action::LeaveScreen
                        },
                    }
                }
            },
            Phase::Leaving => {
                session.phase = Phase::Resolved;
                if failed {
                    session.outcome = Outcome::Failed;
                }
                Action::Finish
            },
            Phase::Resolved => Action::Finish,
        }
    }

    /// Turns the outcome of a session into the answer of the pick: a copy
    /// of the picked candidate; no selection after escape, after enter on
    /// no entry and while nothing is decided; an error after a failure of
    /// the terminal.
    pub fn conclude(&self, outcome: Outcome) -> (answer: Result<Option<T>, PickError>)
        ensures
            answer_is(self.items(), outcome, answer),
    {
        match outcome {
            Outcome::Failed => Err(PickError::Terminal),
            Outcome::Picked(Some(i)) => Ok(self.item(i)),
            _ => Ok(None),
        }
    }

    /// Runs a whole session against a scripted terminal: the script holds
    /// the terminal's replies to the session's requests in turn, from the
    /// request to enter interactive mode on, and a script that has run out
    /// stands for a terminal that fails. Returns a copy of the picked
    /// candidate, no selection, or the failure.
    pub fn pick(&mut self, script: &Vec<Reply>) -> (answer: Result<Option<T>, PickError>)
        requires
            old(self).wf(),
        ensures
            final(self).wf(),
            final(self).items() == old(self).items(),
            final(self).labels() == old(self).labels(),
            final(self).state() == run(old(self).state(), Session::start(), script@).0,
            answer_is(
                final(self).items(),
                run(old(self).state(), Session::start(), script@).1,
                answer,
            ),
    {
        let ghost begin = self.state();
        let ghost items = self.items();
        let mut session = Session::new();
        let _ = self.drive(&mut session, Reply::Done);
        let mut k: usize = 0;
        assert(script@.skip(0) =~= script@);
        assert(session == Session::start().next(Reply::Done, None));
        assert(run(begin, Session::start(), script@) == run(begin, session, script@));
        while !session.is_resolved()
            invariant
                k <= script.len(),
                self.wf(),
                self.items() == items,
                self.labels() == old(self).labels(),
                session.phase != Phase::Idle,
                session.outcome.within(items.len()),
                run(begin, Session::start(), script@) == run(
                    self.state(),
                    session,
                    script@.skip(k as int),
                ),
            decreases script.len() - k, Session::distance(session.phase),
        {
            let ghost left = script@.skip(k as int);
            let reply = if k < script.len() {
                script[k]
            } else {
                Reply::Failed
            };
            assert(reply == next_reply(left));
            if k < script.len() {
                k += 1;
            }
            assert(script@.skip(k as int) =~= rest(left));
            let _ = self.drive(&mut session, reply);
        }
        self.conclude(session.outcome)
    }
}

/// `answer` is the answer of a pick that ended with `outcome`.
pub open spec fn answer_is<T: Clone>(
    items: Seq<T>,
    outcome: Outcome,
    answer: Result<Option<T>, PickError>,
) -> bool {
    match outcome {
        Outcome::Failed => answer == Err::<Option<T>, PickError>(PickError::Terminal),
        Outcome::Picked(Some(i)) if i < items.len() => answer matches Ok(Some(item)) && cloned(
            items[i as int],
            item,
        ),
        _ => answer == Ok::<Option<T>, PickError>(None),
    }
}

/// Where none of the polls ends the session, none of those behind the
/// first does.
proof fn lemma_quiet_tail(polls: Seq<Option<Event>>)
    requires
        quiet(polls),
        polls.len() > 0,
    ensures
        quiet(polls.skip(1)),
{
    assert forall|i: int| 0 <= i < polls.skip(1).len() implies PickerState::polled_signal(
        #[trigger] polls.skip(1)[i],
    ) == Signal::Continue by {
        assert(polls.skip(1)[i] == polls[i + 1]);
    }
}

/// Against a terminal that never fails, a session that is polling runs one
/// tick on each poll and ends with the first event that asks for its end:
/// the picker is left in the state after the ticks before that event, and
/// the outcome is the one that the event gives in that state.
pub proof fn lemma_run_polling(state: PickerState, polls: Seq<Option<Event>>, closing: Event)
    requires
        quiet(polls),
        PickerState::signal(closing) != Signal::Continue,
    ensures
        run(
            state,
            Session { phase: Phase::Polling, outcome: Outcome::Pending },
            polls_script(polls.push(Some(closing))),
        ) == (
            ticked_through(state, polls),
            closing_outcome(ticked_through(state, polls), closing),
        ),
    decreases polls.len(),
{
    let polling = Session { phase: Phase::Polling, outcome: Outcome::Pending };
    let all = polls.push(Some(closing));
    let script = polls_script(all);
    let tail = polls_script(all.skip(1));
    assert(script == seq![Reply::Polled(all[0]), Reply::Done] + tail);
    assert(script[0] == Reply::Polled(all[0]));
    assert(script[1] == Reply::Done);
    let first = rest(script);
    assert(first =~= seq![Reply::Done] + tail);
    assert(first[0] == Reply::Done);
    assert(rest(first) =~= tail);
    let after = state.ticked(all[0]);
    assert(stepped(state, polling, script[0]) == after);
    let then = polling.next(script[0], after.chosen());
    assert(run(state, polling, script) == run(after, then, first));
    if polls.len() == 0 {
        assert(all[0] == Some(closing));
        assert(after == state);
        assert(all.skip(1) =~= Seq::<Option<Event>>::empty());
        assert(tail =~= Seq::<Reply>::empty());
        assert(then == Session { phase: Phase::Leaving, outcome: closing_outcome(state, closing) });
        let over = then.next(Reply::Done, state.chosen());
        assert(over == Session { phase: Phase::Resolved, outcome: closing_outcome(state, closing) });
        assert(stepped(state, then, Reply::Done) == state);
        assert(run(state, then, first) == run(state, over, tail));
        assert(run(state, over, tail) == (state, over.outcome));
    } else {
        assert(all[0] == polls[0]);
        assert(all.skip(1) =~= polls.skip(1).push(Some(closing)));
        lemma_quiet_tail(polls);
        assert(then == Session { phase: Phase::Drawing, outcome: Outcome::Pending });
        assert(stepped(after, then, Reply::Done) == after);
        assert(then.next(Reply::Done, after.chosen()) == polling);
        assert(run(after, then, first) == run(after, polling, tail));
        lemma_run_polling(after, polls.skip(1), closing);
    }
}

/// A whole session against a terminal that never fails: whatever the polls
/// bring before the first press of escape or enter, the picker is left in
/// the state after one tick on each of them, and the session ends
/// cancelled on escape and, on enter, with the candidate that the cursor
/// picks in that state. This is the state in which `pick` leaves the
/// picker, and the outcome that its answer goes by, on such a script.
pub proof fn lemma_run_session(state: PickerState, polls: Seq<Option<Event>>, closing: Event)
    requires
        quiet(polls),
        PickerState::signal(closing) != Signal::Continue,
    ensures
        run(state, Session::start(), session_script(polls.push(Some(closing)))) == (
            ticked_through(state, polls),
            closing_outcome(ticked_through(state, polls), closing),
        ),
{
    let script = session_script(polls.push(Some(closing)));
    let tail = polls_script(polls.push(Some(closing)));
    let entering = Session { phase: Phase::Entering, outcome: Outcome::Pending };
    let polling = Session { phase: Phase::Polling, outcome: Outcome::Pending };
    assert(Session::start().next(Reply::Done, None) == entering);
    assert(run(state, Session::start(), script) == run(state, entering, script));
    assert(script[0] == Reply::Done);
    assert(rest(script) =~= tail);
    assert(stepped(state, entering, Reply::Done) == state);
    assert(entering.next(Reply::Done, state.chosen()) == polling);
    assert(run(state, entering, script) == run(state, polling, tail));
    lemma_run_polling(state, polls, closing);
}

/// The ticks on a list of polls with one more poll behind it are the ticks
/// on the list and then the tick on that poll.
pub proof fn lemma_ticked_through_push(
    state: PickerState,
    polls: Seq<Option<Event>>,
    last: Option<Event>,
)
    ensures
        ticked_through(state, polls.push(last)) == ticked_through(state, polls).ticked(last),
    decreases polls.len(),
{
    let all = polls.push(last);
    if polls.len() == 0 {
        assert(all[0] == last);
        assert(all.skip(1) =~= Seq::<Option<Event>>::empty());
        assert(ticked_through(state.ticked(last), all.skip(1)) == state.ticked(last));
    } else {
        assert(all[0] == polls[0]);
        assert(all.skip(1) =~= polls.skip(1).push(last));
        lemma_ticked_through_push(state.ticked(polls[0]), polls.skip(1), last);
    }
}

/// Ticks that do not end the session keep the state well formed and the
/// candidates as they are, and from the first of them on the filtered list
/// is up to date.
pub proof fn lemma_ticked_through_fresh(state: PickerState, polls: Seq<Option<Event>>)
    requires
        state.wf(),
        quiet(polls),
    ensures
        ticked_through(state, polls).wf(),
        ticked_through(state, polls).labels == state.labels,
        polls.len() > 0 || state.fresh() ==> ticked_through(state, polls).fresh(),
    decreases polls.len(),
{
    if polls.len() > 0 {
        crate::picker::lemma_tick_wf(state, polls[0]);
        lemma_quiet_tail(polls);
        lemma_ticked_through_fresh(state.ticked(polls[0]), polls.skip(1));
    }
}

/// A session in which one more event follows the polls `before` and then
/// escape or enter: the picker is left in the state that a tick on that
/// event makes of the state after `before`.
pub proof fn lemma_session_last_event(
    state: PickerState,
    before: Seq<Option<Event>>,
    event: Event,
    closing: Event,
)
    requires
        quiet(before),
        PickerState::signal(event) == Signal::Continue,
        PickerState::signal(closing) != Signal::Continue,
    ensures
        run(
            state,
            Session::start(),
            session_script(before.push(Some(event)).push(Some(closing))),
        ).0 == ticked_through(state, before).ticked(Some(event)),
{
    let polls = before.push(Some(event));
    assert(quiet(polls)) by {
        assert forall|i: int| 0 <= i < polls.len() implies PickerState::polled_signal(
            #[trigger] polls[i],
        ) == Signal::Continue by {
            if i < before.len() {
                assert(polls[i] == before[i]);
            }
        }
    }
    lemma_run_session(state, polls, closing);
    lemma_ticked_through_push(state, before, Some(event));
}

/// In a session against a terminal that never fails, a scroll up that
/// finds the window at the top leaves window start and window end where
/// they are, whatever came before it, and the cursor too as long as it lies
/// on an entry of the list or the list is empty. Once the session has run a
/// tick the list is up to date, and the session then ends in the very state
/// in which the scroll found the picker; so it does where the scroll is the
/// first event and the list was up to date from the start.
pub proof fn lemma_session_scroll_up_at_top(
    state: PickerState,
    before: Seq<Option<Event>>,
    row: u16,
    column: u16,
    closing: Event,
)
    requires
        state.wf(),
        quiet(before),
        ticked_through(state, before).window.start == 0,
        PickerState::signal(closing) != Signal::Continue,
    ensures
        ({
            let found = ticked_through(state, before);
            let left = run(
                state,
                Session::start(),
                session_script(
                    before.push(
                        Some(Event::Mouse { pointer: Pointer::ScrollUp, row, column }),
                    ).push(Some(closing)),
                ),
            ).0;
            &&& left.window.start == 0
            &&& left.window.end() == found.window.end()
            &&& left.prompt == found.prompt
            &&& found.window.fits(left.shown.len()) ==> left.window.selected
                == found.window.selected
            &&& before.len() > 0 || state.fresh() ==> left == found
        }),
{
    let event = Event::Mouse { pointer: Pointer::ScrollUp, row, column };
    lemma_ticked_through_fresh(state, before);
    lemma_session_last_event(state, before, event, closing);
    crate::picker::lemma_tick_scroll_up_at_top(ticked_through(state, before), row, column);
}

/// In a session against a terminal that never fails, a scroll down leaves
/// the window where it is, or moves window start and window end by the
/// scroll step to a start that was an entry of the list when the scroll
/// came; whatever came before it. Once the list is up to date, as it is
/// from the first tick on, the session ends in the state in which the
/// scroll found the picker, or in that state with window start and cursor
/// at the old start plus the step.
pub proof fn lemma_session_scroll_down(
    state: PickerState,
    before: Seq<Option<Event>>,
    row: u16,
    column: u16,
    closing: Event,
)
    requires
        state.wf(),
        quiet(before),
        PickerState::signal(closing) != Signal::Continue,
    ensures
        ({
            let found = ticked_through(state, before);
            let left = run(
                state,
                Session::start(),
                session_script(
                    before.push(
                        Some(Event::Mouse { pointer: Pointer::ScrollDown, row, column }),
                    ).push(Some(closing)),
                ),
            ).0;
            let to = found.window.start + crate::window::SCROLL_STEP;
            &&& left.prompt == found.prompt
            &&& left.window.rows == found.window.rows
            &&& {
                ||| left.window.start == found.window.start && (found.window.fits(
                    left.shown.len(),
                ) ==> left.window.selected == found.window.selected)
                ||| left.window.start == to && to < found.shown.len() && left.window.end()
                    == found.window.end() + crate::window::SCROLL_STEP && (to < left.shown.len()
                    || left.shown.len() == 0 ==> left.window.selected == to)
            }
            &&& before.len() > 0 || state.fresh() ==> left == found || (to < found.shown.len()
                && left == (PickerState {
                window: WindowState { start: to as nat, selected: to as nat, ..found.window },
                ..found
            }))
        }),
{
    let event = Event::Mouse { pointer: Pointer::ScrollDown, row, column };
    lemma_ticked_through_fresh(state, before);
    lemma_session_last_event(state, before, event, closing);
    crate::picker::lemma_tick_scroll_down(ticked_through(state, before), row, column);
}

/// In a session against a terminal that never fails, a resize to a height
/// of at least one row keeps the window start and puts the window end at
/// the start plus the height less one; whatever came before it, and
/// whatever the new width. It keeps the prompt, and the cursor as long as
/// it lies on an entry of the list or the list is empty. Once the list is
/// up to date, as it is from the first tick on, the resize changes nothing
/// but the window's rows.
pub proof fn lemma_session_resize(
    state: PickerState,
    before: Seq<Option<Event>>,
    columns: u16,
    rows: u16,
    closing: Event,
)
    requires
        state.wf(),
        quiet(before),
        rows >= 1,
        PickerState::signal(closing) != Signal::Continue,
    ensures
        ({
            let found = ticked_through(state, before);
            let left = run(
                state,
                Session::start(),
                session_script(
                    before.push(Some(Event::Resize { columns, rows })).push(Some(closing)),
                ),
            ).0;
            &&& left.window.start == found.window.start
            &&& left.window.end() == found.window.start + rows - 1
            &&& left.prompt == found.prompt
            &&& found.window.fits(left.shown.len()) ==> left.window.selected
                == found.window.selected
            &&& before.len() > 0 || state.fresh() ==> left == (PickerState {
                window: WindowState { rows: (rows - 1) as nat, ..found.window },
                ..found
            })
        }),
{
    let event = Event::Resize { columns, rows };
    lemma_ticked_through_fresh(state, before);
    lemma_session_last_event(state, before, event, closing);
    crate::picker::lemma_tick_resize(ticked_through(state, before), columns, rows);
}

/// In a session against a terminal that never fails, a click leaves window
/// start, window end and prompt where they are, whatever came before it. A
/// click in a row that draws an entry puts the cursor on that entry; a
/// click on the prompt row or below the last drawn row leaves the cursor;
/// either way as long as the cursor then lies on an entry of the list or
/// the list is empty. Once the list is up to date, as it is from the first
/// tick on, the click changes nothing but the cursor.
pub proof fn lemma_session_click(
    state: PickerState,
    before: Seq<Option<Event>>,
    row: u16,
    column: u16,
    closing: Event,
)
    requires
        state.wf(),
        quiet(before),
        PickerState::signal(closing) != Signal::Continue,
    ensures
        ({
            let found = ticked_through(state, before);
            let left = run(
                state,
                Session::start(),
                session_script(
                    before.push(
                        Some(Event::Mouse { pointer: Pointer::LeftDown, row, column }),
                    ).push(Some(closing)),
                ),
            ).0;
            let target = crate::picker::click_target(found.window, row as nat);
            &&& left.window.start == found.window.start
            &&& left.window.end() == found.window.end()
            &&& left.prompt == found.prompt
            &&& target < left.shown.len() || left.shown.len() == 0 ==> left.window.selected
                == target
            &&& before.len() > 0 || state.fresh() ==> left == (PickerState {
                window: WindowState { selected: target, ..found.window },
                ..found
            })
        }),
{
    let event = Event::Mouse { pointer: Pointer::LeftDown, row, column };
    lemma_ticked_through_fresh(state, before);
    lemma_session_last_event(state, before, event, closing);
    crate::picker::lemma_tick_click(ticked_through(state, before), row, column);
}

/// In a session against a terminal that never fails, enter with the cursor
/// on an entry picks the first candidate whose display text is the text of
/// that entry, and leaves the picker as enter found it; whatever came
/// before. `pick` then answers with a copy of that candidate.
pub proof fn lemma_session_enter_picks(
    state: PickerState,
    before: Seq<Option<Event>>,
    enter: Event,
)
    requires
        state.wf(),
        state.labels.len() <= usize::MAX,
        quiet(before),
        before.len() > 0 || state.fresh(),
        enter == (Event::Key { key: Key::Enter, kind: KeyKind::Press }),
        ticked_through(state, before).window.selected < ticked_through(state, before).shown.len(),
    ensures
        ({
            let found = ticked_through(state, before);
            let text = found.shown[found.window.selected as int];
            let end = run(state, Session::start(), session_script(before.push(Some(enter))));
            &&& end.0 == found
            &&& end.1 matches Outcome::Picked(Some(i)) && i < state.labels.len()
                && state.labels[i as int] == text && forall|j: int|
                0 <= j < i ==> state.labels[j] != text
        }),
{
    let found = ticked_through(state, before);
    lemma_ticked_through_fresh(state, before);
    lemma_run_session(state, before, enter);
    crate::picker::lemma_chosen_shows_selected(found);
}

/// The shape of the list of phases that a session passes through from an
/// interactive phase on: polls and frames, then `Leaving` once, then
/// `Resolved`.
pub open spec fn ends_in_order(trace: Seq<Phase>) -> bool {
    &&& trace.len() >= 2
    &&& trace[trace.len() - 1] == Phase::Resolved
    &&& trace[trace.len() - 2] == Phase::Leaving
    &&& forall|k: int|
        0 <= k < trace.len() - 2 ==> (#[trigger] trace[k]) == Phase::Polling || trace[k]
            == Phase::Drawing
}

/// From an interactive phase on, whatever the terminal replies, a session
/// asks to leave interactive mode exactly once, as its last request before
/// the end, and before that only polls and paints.
pub proof fn lemma_leaves_once(state: PickerState, session: Session, script: Seq<Reply>)
    requires
        session.phase == Phase::Entering || session.phase == Phase::Polling || session.phase
            == Phase::Drawing,
    ensures
        ends_in_order(phases(state, session, script)),
    decreases script.len(), Session::distance(session.phase),
{
    let reply = next_reply(script);
    let after = stepped(state, session, reply);
    let then = session.next(reply, after.chosen());
    let tail = phases(after, then, rest(script));
    let trace = phases(state, session, script);
    assert(trace == seq![then.phase] + tail);
    if then.phase == Phase::Leaving {
        let over = then.next(next_reply(rest(script)), stepped(
            after,
            then,
            next_reply(rest(script)),
        ).chosen());
        assert(over.phase == Phase::Resolved);
        assert(phases(stepped(after, then, next_reply(rest(script))), over, rest(rest(script)))
            =~= Seq::<Phase>::empty());
        assert(tail =~= seq![Phase::Resolved]);
        assert(trace =~= seq![Phase::Leaving, Phase::Resolved]);
    } else {
        assert(then.phase == Phase::Polling || then.phase == Phase::Drawing);
        assert(script.len() > 0);
        lemma_leaves_once(after, then, rest(script));
        assert forall|k: int| 0 <= k < trace.len() - 2 implies (#[trigger] trace[k])
            == Phase::Polling || trace[k] == Phase::Drawing by {
            if k > 0 {
                assert(trace[k] == tail[k - 1]);
            }
        }
        assert(trace[trace.len() - 1] == tail[tail.len() - 1]);
        assert(trace[trace.len() - 2] == tail[tail.len() - 2]);
    }
}

/// The order of a session's requests, whatever the terminal replies, a
/// failure at any point included: first, and only then, the request to
/// enter interactive mode; then polls and frames; then, exactly once, the
/// request to leave interactive mode; then the end. So the terminal is
/// asked back into its ordinary mode on every way out.
pub proof fn lemma_session_requests(state: PickerState, script: Seq<Reply>)
    ensures
        ({
            let trace = phases(state, Session::start(), script);
            &&& trace.len() >= 3
            &&& trace[0] == Phase::Entering
            &&& ends_in_order(trace.skip(1))
        }),
{
    let begun = Session::start().next(Reply::Done, None);
    let trace = phases(state, Session::start(), script);
    let tail = phases(state, begun, script);
    assert(begun.phase == Phase::Entering);
    assert(trace == seq![begun.phase] + tail);
    lemma_leaves_once(state, begun, script);
    assert(trace.skip(1) =~= tail);
}

} // verus!
