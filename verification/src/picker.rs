//! The picker: candidates, prompt, filtered list and window, and the way
//! input events change them.

use crate::event::{char_is_control, is_control, is_printable, Event, Key, KeyKind, Pointer};
use crate::frame::{is_frame, render, Frame};
use crate::rank::{filter, filtered, is_ranking, ranking, texts};
use crate::window::{Direction, Window, WindowState};
use std::fmt::Display;
use vstd::prelude::*;
use vstd::string::*;

verus! {

/// What an input event asks of the session.
#[derive(Clone, Copy, Debug, PartialEq, Eq, Structural)]
pub enum Signal {
    /// Go on with the session.
    Continue,
    /// End the session without a selection.
    Cancel,
    /// End the session with the entry under the cursor.
    Confirm,
}

/// The first place at which `text` stands in `labels`, if it stands there.
pub open spec fn first_match(labels: Seq<Seq<char>>, text: Seq<char>) -> Option<int> {
    if exists|i: int| 0 <= i < labels.len() && labels[i] == text {
        Some(
            choose|i: int|
                0 <= i < labels.len() && labels[i] == text && forall|j: int|
                    0 <= j < i ==> labels[j] != text,
        )
    } else {
        None
    }
}

/// The first place at which a text stands is the one before which it does
/// not stand.
pub proof fn lemma_first_match(labels: Seq<Seq<char>>, text: Seq<char>, at: int)
    requires
        0 <= at < labels.len(),
        labels[at] == text,
        forall|j: int| 0 <= j < at ==> labels[j] != text,
    ensures
        first_match(labels, text) == Some(at),
{
    let found = choose|i: int|
        0 <= i < labels.len() && labels[i] == text && forall|j: int|
            0 <= j < i ==> labels[j] != text;
    assert(0 <= found < labels.len() && labels[found] == text && forall|j: int|
        0 <= j < found ==> labels[j] != text);
    assert(found == at);
}

/// The mathematical state of a picker.
pub struct PickerState {
    /// The display text of each candidate, in candidate order.
    pub labels: Seq<Seq<char>>,
    /// The filtered list as it was last computed.
    pub shown: Seq<Seq<char>>,
    /// The search prompt.
    pub prompt: Seq<char>,
    /// The scroll window and the selection cursor.
    pub window: WindowState,
}

impl PickerState {
    /// The window is well formed and spans the filtered list, and the
    /// prompt holds no control character.
    pub open spec fn wf(self) -> bool {
        &&& self.window.wf()
        &&& self.window.count == self.shown.len()
        &&& is_printable(self.prompt)
    }

    /// The state of a fresh picker on a terminal of the given height.
    pub open spec fn initial(height: nat) -> PickerState {
        PickerState {
            labels: Seq::empty(),
            shown: Seq::empty(),
            prompt: Seq::empty(),
            window: WindowState::initial(height),
        }
    }

    /// The state after a character key: the character joins the prompt
    /// and the window returns to the top. A control character is ignored.
    pub open spec fn typed(self, ch: char) -> PickerState {
        if is_control(ch) {
            self
        } else {
            PickerState { prompt: self.prompt.push(ch), window: self.window.at_top(), ..self }
        }
    }

    /// The state after backspace: the prompt loses its last character, if
    /// it has one, and the window returns to the top.
    pub open spec fn erased(self) -> PickerState {
        PickerState {
            prompt: if self.prompt.len() > 0 {
                self.prompt.drop_last()
            } else {
                self.prompt
            },
            window: self.window.at_top(),
            ..self
        }
    }

    /// The state after a key press.
    pub open spec fn pressed(self, key: Key) -> PickerState {
        match key {
            Key::Char(ch) => self.typed(ch),
            Key::Backspace => self.erased(),
            Key::Up | Key::Left => PickerState {
                window: self.window.advanced(Direction::Up),
                ..self
            },
            Key::Down | Key::Right => PickerState {
                window: self.window.advanced(Direction::Down),
                ..self
            },
            Key::Enter | Key::Esc | Key::Other => self,
        }
    }

    /// The state after an input event. Of the key events only presses
    /// count.
    pub open spec fn applied(self, event: Event) -> PickerState {
        match event {
            Event::Key { key, kind } => match kind {
                KeyKind::Press => self.pressed(key),
                _ => self,
            },
            Event::Mouse { pointer, row, column } => match pointer {
                Pointer::LeftDown => PickerState { window: self.window.clicked(row as nat), ..self },
                Pointer::ScrollUp => PickerState {
                    window: self.window.scrolled(Direction::Up),
                    ..self
                },
                Pointer::ScrollDown => PickerState {
                    window: self.window.scrolled(Direction::Down),
                    ..self
                },
                Pointer::Other => self,
            },
            Event::Resize { columns, rows } => PickerState {
                window: self.window.resized(rows as nat),
                ..self
            },
            Event::Other => self,
        }
    }

    /// What an input event asks of the session: escape cancels it, enter
    /// confirms, everything else lets it go on.
    pub open spec fn signal(event: Event) -> Signal {
        match event {
            Event::Key { key: Key::Esc, kind: KeyKind::Press } => Signal::Cancel,
            Event::Key { key: Key::Enter, kind: KeyKind::Press } => Signal::Confirm,
            _ => Signal::Continue,
        }
    }

    /// The state with the filtered list computed anew from the candidates
    /// and the prompt. Only the list and its length change; the one
    /// exception is a cursor that would lie beyond a new list that has
    /// entries, which returns to the first of them.
    pub open spec fn refreshed(self) -> PickerState {
        let shown = filtered(self.labels, self.prompt);
        PickerState { shown: shown, window: self.window.with_count(shown.len()), ..self }
    }

    /// The candidate that a confirmation picks: the first one whose display
    /// text is that of the entry under the cursor; none where the cursor is
    /// on no entry.
    pub open spec fn chosen(self) -> Option<int> {
        if self.window.selected < self.shown.len() {
            first_match(self.labels, self.shown[self.window.selected as int])
        } else {
            None
        }
    }
}

impl PickerState {
    /// What the polled input asks of the session; a poll that timed out
    /// lets it go on.
    pub open spec fn polled_signal(polled: Option<Event>) -> Signal {
        match polled {
            Some(event) => Self::signal(event),
            None => Signal::Continue,
        }
    }

    /// The state after one tick of the session: the polled event, if there
    /// is one, is applied, and unless it ends the session the filtered list
    /// is computed anew.
    pub open spec fn ticked(self, polled: Option<Event>) -> PickerState {
        let after = match polled {
            Some(event) => self.applied(event),
            None => self,
        };
        match Self::polled_signal(polled) {
            Signal::Continue => after.refreshed(),
            _ => after,
        }
    }
}

/// What one tick of the session yields.
#[derive(Debug)]
pub enum Tick {
    /// The session goes on; the frame is to be painted.
    Draw(Frame),
    /// The session ends without a selection.
    Cancelled,
    /// The session ends with the candidate at the given index, or without
    /// a selection where the cursor was on no entry.
    Picked(Option<usize>),
}

/// An event leaves a well-formed state well formed.
pub proof fn lemma_applied_wf(s: PickerState, event: Event)
    requires
        s.wf(),
    ensures
        s.applied(event).wf(),
        s.applied(event).labels == s.labels,
        s.applied(event).shown == s.shown,
{
    crate::window::lemma_advanced_wf(s.window, Direction::Up);
    crate::window::lemma_advanced_wf(s.window, Direction::Down);
}

/// Whatever the event, a prompt that it changed leaves the window start
/// and the selection cursor at 0, and they are still there once the
/// filtered list is computed anew.
pub proof fn lemma_edit_resets_window(s: PickerState, event: Event)
    requires
        s.applied(event).prompt != s.prompt,
    ensures
        s.applied(event).window.start == 0,
        s.applied(event).window.selected == 0,
        s.applied(event).refreshed().window.start == 0,
        s.applied(event).refreshed().window.selected == 0,
{
}

impl PickerState {
    /// The filtered list is up to date: it is the one that the candidates
    /// and the prompt give.
    pub open spec fn fresh(self) -> bool {
        self.shown == filtered(self.labels, self.prompt)
    }
}

/// Computing the filtered list anew rewrites the list and its length and
/// nothing else: candidates, prompt, window start and window rows stay,
/// and so does the cursor as long as it lies on an entry of the new list
/// or the new list is empty. Only a cursor beyond a new list that has
/// entries returns to the first of them. On a list that is up to date
/// nothing changes at all.
pub proof fn lemma_refresh_rewrites_list_only(s: PickerState)
    requires
        s.wf(),
    ensures
        s.refreshed().wf(),
        s.refreshed().fresh(),
        s.refreshed().labels == s.labels,
        s.refreshed().prompt == s.prompt,
        s.refreshed().shown == filtered(s.labels, s.prompt),
        s.refreshed().window.count == filtered(s.labels, s.prompt).len(),
        s.refreshed().window.start == s.window.start,
        s.refreshed().window.rows == s.window.rows,
        s.refreshed().window.end() == s.window.end(),
        s.window.fits(filtered(s.labels, s.prompt).len()) ==> s.refreshed().window == (
        WindowState { count: filtered(s.labels, s.prompt).len(), ..s.window }),
        0 < filtered(s.labels, s.prompt).len() <= s.window.selected
            ==> s.refreshed().window.selected == 0,
        s.fresh() ==> s.refreshed() == s,
{
}

/// A tick leaves a well-formed state well formed and the candidates as
/// they are, and a tick that does not end the session leaves the filtered
/// list up to date.
pub proof fn lemma_tick_wf(s: PickerState, polled: Option<Event>)
    requires
        s.wf(),
    ensures
        s.ticked(polled).wf(),
        s.ticked(polled).labels == s.labels,
        PickerState::polled_signal(polled) == Signal::Continue ==> s.ticked(polled).fresh(),
        PickerState::polled_signal(polled) != Signal::Continue ==> s.ticked(polled) == s,
{
    match polled {
        Some(event) => {
            lemma_applied_wf(s, event);
            lemma_refresh_rewrites_list_only(s.applied(event));
        },
        None => {
            lemma_refresh_rewrites_list_only(s);
        },
    }
}

/// On a list that is up to date, a tick does to the state what its event
/// does and no more, unless the event changes the prompt; a tick without
/// an event changes nothing.
pub proof fn lemma_tick_on_fresh_list(s: PickerState, event: Event)
    requires
        s.wf(),
        s.fresh(),
        s.applied(event).prompt == s.prompt,
    ensures
        s.ticked(Some(event)) == s.applied(event),
        s.ticked(None) == s,
{
    lemma_applied_wf(s, event);
    lemma_refresh_rewrites_list_only(s.applied(event));
    lemma_refresh_rewrites_list_only(s);
}

/// A tick on a scroll up that finds the window at the top leaves window
/// start and window end where they are, and the cursor too as long as it
/// lies on an entry of the list computed anew or that list is empty. On a
/// list that is up to date the tick changes nothing at all.
pub proof fn lemma_tick_scroll_up_at_top(s: PickerState, row: u16, column: u16)
    requires
        s.wf(),
        s.window.start == 0,
    ensures
        ({
            let t = s.ticked(Some(Event::Mouse { pointer: Pointer::ScrollUp, row, column }));
            &&& t.window.start == 0
            &&& t.window.end() == s.window.end()
            &&& t.prompt == s.prompt
            &&& t.labels == s.labels
            &&& s.window.fits(t.shown.len()) ==> t.window.selected == s.window.selected
            &&& s.fresh() ==> t == s
        }),
{
    lemma_refresh_rewrites_list_only(s);
}

/// A tick on a scroll down leaves the window where it is, or moves window
/// start and window end by the scroll step to a start that was an entry of
/// the list when the scroll came. The cursor stays in the first case and
/// goes to the new start in the second, as long as that is an entry of the
/// list computed anew or that list is empty. On a list that is up to date
/// the tick changes nothing, or it changes window start and cursor to the
/// old start plus the step and nothing else.
pub proof fn lemma_tick_scroll_down(s: PickerState, row: u16, column: u16)
    requires
        s.wf(),
    ensures
        ({
            let t = s.ticked(Some(Event::Mouse { pointer: Pointer::ScrollDown, row, column }));
            let to = s.window.start + crate::window::SCROLL_STEP;
            &&& t.prompt == s.prompt
            &&& t.labels == s.labels
            &&& t.window.rows == s.window.rows
            &&& {
                ||| t.window.start == s.window.start && (s.window.fits(t.shown.len())
                    ==> t.window.selected == s.window.selected)
                ||| t.window.start == to && to < s.shown.len() && t.window.end() == s.window.end()
                    + crate::window::SCROLL_STEP && (to < t.shown.len() || t.shown.len() == 0
                    ==> t.window.selected == to)
            }
            &&& s.fresh() ==> t == s || (to < s.shown.len() && t == (PickerState {
                window: WindowState { start: to as nat, selected: to as nat, ..s.window },
                ..s
            }))
        }),
{
    let event = Event::Mouse { pointer: Pointer::ScrollDown, row, column };
    lemma_applied_wf(s, event);
    lemma_refresh_rewrites_list_only(s.applied(event));
    if s.fresh() {
        lemma_tick_on_fresh_list(s, event);
    }
}

/// A tick on a resize to a height of at least one row keeps the window
/// start and puts the window end at the start plus the height less one. It
/// keeps the prompt, and the cursor as long as it lies on an entry of the
/// list computed anew or that list is empty. On a list that is up to date
/// it changes nothing but the window's rows.
pub proof fn lemma_tick_resize(s: PickerState, columns: u16, rows: u16)
    requires
        s.wf(),
        rows >= 1,
    ensures
        ({
            let t = s.ticked(Some(Event::Resize { columns, rows }));
            &&& t.window.start == s.window.start
            &&& t.window.end() == s.window.start + rows - 1
            &&& t.prompt == s.prompt
            &&& t.labels == s.labels
            &&& s.window.fits(t.shown.len()) ==> t.window.selected == s.window.selected
            &&& s.fresh() ==> t == (PickerState {
                window: WindowState { rows: (rows - 1) as nat, ..s.window },
                ..s
            })
        }),
{
    let event = Event::Resize { columns, rows };
    lemma_applied_wf(s, event);
    lemma_refresh_rewrites_list_only(s.applied(event));
    if s.fresh() {
        lemma_tick_on_fresh_list(s, event);
    }
}

/// The cursor after a click in the given terminal row: the entry drawn in
/// that row, or the cursor as it was where the row draws no entry.
pub open spec fn click_target(window: WindowState, row: nat) -> nat {
    if window.is_entry_row(row) {
        (window.start + row - 1) as nat
    } else {
        window.selected
    }
}

/// A tick on a click leaves window start, window end and prompt where they
/// are. A click in a row that draws an entry puts the cursor on that
/// entry; a click on the prompt row or below the last drawn row leaves the
/// cursor; either way as long as the cursor then lies on an entry of the
/// list computed anew or that list is empty. On a list that is up to date
/// the tick changes nothing but the cursor.
pub proof fn lemma_tick_click(s: PickerState, row: u16, column: u16)
    requires
        s.wf(),
    ensures
        ({
            let t = s.ticked(Some(Event::Mouse { pointer: Pointer::LeftDown, row, column }));
            let target = click_target(s.window, row as nat);
            &&& t.window.start == s.window.start
            &&& t.window.end() == s.window.end()
            &&& t.prompt == s.prompt
            &&& t.labels == s.labels
            &&& target < t.shown.len() || t.shown.len() == 0 ==> t.window.selected == target
            &&& s.fresh() ==> t == (PickerState {
                window: WindowState { selected: target, ..s.window },
                ..s
            })
        }),
{
    let event = Event::Mouse { pointer: Pointer::LeftDown, row, column };
    lemma_applied_wf(s, event);
    lemma_refresh_rewrites_list_only(s.applied(event));
    if s.fresh() {
        lemma_tick_on_fresh_list(s, event);
    }
}

/// A text that stands among the labels has a first place there.
pub proof fn lemma_first_match_exists(labels: Seq<Seq<char>>, text: Seq<char>, at: int)
    requires
        0 <= at < labels.len(),
        labels[at] == text,
    ensures
        first_match(labels, text) matches Some(i) && 0 <= i <= at && labels[i] == text && forall|
            j: int,
        | 0 <= j < i ==> labels[j] != text,
    decreases at,
{
    if exists|j: int| 0 <= j < at && labels[j] == text {
        let j = choose|j: int| 0 <= j < at && labels[j] == text;
        lemma_first_match_exists(labels, text, j);
    } else {
        lemma_first_match(labels, text, at);
    }
}

/// On a list that is up to date, a confirmation with the cursor on an
/// entry picks a candidate: the first one whose display text is the text
/// of that entry.
pub proof fn lemma_chosen_shows_selected(s: PickerState)
    requires
        s.wf(),
        s.fresh(),
        s.labels.len() <= usize::MAX,
        s.window.selected < s.shown.len(),
    ensures
        s.chosen() matches Some(i) && 0 <= i < s.labels.len() && s.labels[i]
            == s.shown[s.window.selected as int] && forall|j: int|
            0 <= j < i ==> s.labels[j] != s.shown[s.window.selected as int],
{
    let order = ranking(s.labels, s.prompt);
    let k = s.window.selected as int;
    crate::rank::lemma_ranking_exists(s.labels, s.prompt);
    crate::rank::lemma_filtered_is_kept(s.labels, s.prompt, order);
    assert(crate::rank::included(s.labels, s.prompt, order[k] as int));
    lemma_first_match_exists(s.labels, s.shown[k], order[k] as int);
}

/// An interactive fuzzy picker over candidates of type `T`.
pub struct FuzzyPicker<T: Display + Clone> {
    items: Vec<T>,
    labels: Vec<String>,
    shown: Vec<String>,
    prompt: String,
    window: Window,
}

impl<T: Display + Clone> FuzzyPicker<T> {
    /// The candidates.
    pub closed spec fn items(&self) -> Seq<T> {
        self.items@
    }

    /// The display strings of the candidates.
    pub closed spec fn labels(&self) -> Seq<String> {
        self.labels@
    }

    /// The mathematical state.
    pub closed spec fn state(&self) -> PickerState {
        PickerState {
            labels: texts(self.labels@),
            shown: texts(self.shown@),
            prompt: self.prompt@,
            window: self.window@,
        }
    }

    /// The state is well formed and every candidate has its display
    /// string: the one that its `Display` gave when the candidates were
    /// set.
    pub closed spec fn wf(&self) -> bool {
        &&& self.state().wf()
        &&& self.labels@.len() == self.items@.len()
        &&& forall|i: int|
            0 <= i < self.items@.len() ==> to_string_from_display_ensures::<T>(
                &self.items@[i],
                #[trigger] self.labels@[i],
            )
    }

    /// What well-formedness means: the state is well formed, its labels
    /// are the texts of the display strings, and each candidate has the
    /// display string that its `Display` gave.
    pub proof fn lemma_wf(&self)
        requires
            self.wf(),
        ensures
            self.state().wf(),
            self.state().labels == texts(self.labels()),
            self.labels().len() == self.items().len(),
            forall|i: int|
                0 <= i < self.items().len() ==> to_string_from_display_ensures::<T>(
                    &self.items()[i],
                    #[trigger] self.labels()[i],
                ),
    {
    }

    /// Makes a picker without candidates for a terminal of the given
    /// height.
    pub fn new(height: u16) -> (picker: Self)
        ensures
            picker.wf(),
            picker.items().len() == 0,
            picker.state() == PickerState::initial(height as nat),
    {
        let picker = FuzzyPicker {
            items: Vec::new(),
            labels: Vec::new(),
            shown: Vec::new(),
            prompt: String::new(),
            window: Window::new(height),
        };
        assert(texts(picker.labels@) =~= Seq::<Seq<char>>::empty());
        assert(texts(picker.shown@) =~= Seq::<Seq<char>>::empty());
        picker
    }

    /// The number of candidates.
    pub fn len(&self) -> (n: usize)
        ensures
            n == self.items().len(),
    {
        self.items.len()
    }

    /// The search prompt.
    pub fn prompt(&self) -> (prompt: &str)
        ensures
            prompt@ == self.state().prompt,
    {
        self.prompt.as_str()
    }

    /// The filtered list as it was last computed.
    pub fn display_items(&self) -> (shown: &Vec<String>)
        ensures
            texts(shown@) == self.state().shown,
    {
        &self.shown
    }

    /// The scroll window and the selection cursor.
    pub fn window(&self) -> (window: Window)
        ensures
            window@ == self.state().window,
    {
        self.window
    }

    /// Returns a copy of the candidate at the given index, or nothing
    /// where the index lies beyond the candidates.
    pub fn item(&self, index: usize) -> (copy: Option<T>)
        ensures
            match copy {
                Some(item) => index < self.items().len() && cloned(self.items()[index as int], item),
                None => index >= self.items().len(),
            },
    {
        if index < self.items.len() {
            Some(self.items[index].clone())
        } else {
            None
        }
    }

    /// Replaces the candidates by copies of the given items and takes each
    /// copy's display string. Prompt, filtered list and window stay as
    /// they are until the next refresh.
    pub fn set_items(&mut self, items: &[T])
        requires
            old(self).wf(),
        ensures
            final(self).wf(),
            final(self).items().len() == items@.len(),
            forall|i: int|
                0 <= i < items@.len() ==> cloned(items@[i], #[trigger] final(self).items()[i]),
            forall|i: int|
                0 <= i < items@.len() ==> to_string_from_display_ensures::<T>(
                    &final(self).items()[i],
                    #[trigger] final(self).labels()[i],
                ),
            final(self).state().labels == texts(final(self).labels()),
            final(self).state().shown == old(self).state().shown,
            final(self).state().prompt == old(self).state().prompt,
            final(self).state().window == old(self).state().window,
    {
        let mut copies: Vec<T> = Vec::new();
        let mut labels: Vec<String> = Vec::new();
        let mut i: usize = 0;
        while i < items.len()
            invariant
                i <= items@.len(),
                copies.len() == i,
                labels.len() == i,
                forall|j: int| 0 <= j < i ==> cloned(items@[j], #[trigger] copies[j]),
                forall|j: int|
                    0 <= j < i ==> to_string_from_display_ensures::<T>(
                        &copies[j],
                        #[trigger] labels[j],
                    ),
            decreases items@.len() - i,
        {
            let copy = items[i].clone();
            let label = copy.to_string();
            copies.push(copy);
            labels.push(label);
            i += 1;
        }
        self.items = copies;
        self.labels = labels;
    }

    /// Clears the picker: no candidates, an empty prompt, an empty
    /// filtered list, cursor and window at the top. The window keeps the
    /// rows of the terminal.
    pub fn reset(&mut self)
        requires
            old(self).wf(),
        ensures
            final(self).wf(),
            final(self).items().len() == 0,
            final(self).state() == (PickerState {
                labels: Seq::empty(),
                shown: Seq::empty(),
                prompt: Seq::empty(),
                window: old(self).state().window.at_top().with_count(0),
            }),
    {
        self.items = Vec::new();
        self.labels = Vec::new();
        self.shown = Vec::new();
        self.prompt = String::new();
        self.window.reset_scroll();
        self.window.set_count(0);
        assert(texts(self.labels@) =~= Seq::<Seq<char>>::empty());
        assert(texts(self.shown@) =~= Seq::<Seq<char>>::empty());
    }

    /// Computes the filtered list anew from the candidates and the
    /// prompt. The list holds a candidate exactly when the prompt is empty
    /// or the candidate's match score is not zero, best match first, equal
    /// scores in candidate order. Candidates, prompt and window stay as
    /// they are; only a cursor that would lie beyond a new list that has
    /// entries returns to the first of them. Over an empty list the cursor
    /// stays.
    pub fn refresh(&mut self)
        requires
            old(self).wf(),
        ensures
            final(self).wf(),
            final(self).items() == old(self).items(),
            final(self).labels() == old(self).labels(),
            final(self).state() == old(self).state().refreshed(),
            is_ranking(
                old(self).state().labels,
                old(self).state().prompt,
                ranking(old(self).state().labels, old(self).state().prompt),
            ),
    {
        self.shown = filter(&self.labels, self.prompt.as_str());
        self.window.set_count(self.shown.len());
    }

    /// Finds the candidate that a confirmation picks: the first one whose
    /// display text equals that of the entry under the cursor.
    pub fn resolve(&self) -> (found: Option<usize>)
        requires
            self.wf(),
        ensures
            match found {
                Some(i) => self.state().chosen() == Some(i as int) && i < self.items().len(),
                None => self.state().chosen().is_none(),
            },
    {
        let selected = self.window.selected();
        if selected >= self.shown.len() {
            return None;
        }
        let ghost lab = texts(self.labels@);
        let ghost text = self.shown[selected as int]@;
        let mut i: usize = 0;
        while i < self.labels.len()
            invariant
                i <= self.labels.len(),
                self.wf(),
                lab == texts(self.labels@),
                selected == self.window@.selected,
                selected < self.shown.len(),
                text == self.shown[selected as int]@,
                forall|j: int| 0 <= j < i ==> lab[j] != text,
            decreases self.labels.len() - i,
        {
            if self.labels[i] == self.shown[selected] {
                proof {
                    lemma_first_match(lab, text, i as int);
                }
                return Some(i);
            }
            i += 1;
        }
        None
    }

    /// Applies one input event to the state and tells what the event asks
    /// of the session.
    pub fn dispatch(&mut self, event: Event) -> (signal: Signal)
        requires
            old(self).wf(),
        ensures
            final(self).wf(),
            final(self).items() == old(self).items(),
            final(self).labels() == old(self).labels(),
            final(self).state() == old(self).state().applied(event),
            signal == PickerState::signal(event),
    {
        match event {
            Event::Key { key, kind } => match kind {
                KeyKind::Press => match key {
                    Key::Char(ch) => {
                        if !char_is_control(ch) {
                            self.prompt.push(ch);
                            self.window.reset_scroll();
                        }
                        Signal::Continue
                    },
                    Key::Backspace => {
                        let _ = self.prompt.pop();
                        self.window.reset_scroll();
                        Signal::Continue
                    },
                    Key::Up | Key::Left => {
                        self.window.advance_selection(Direction::Up);
                        Signal::Continue
                    },
                    Key::Down | Key::Right => {
                        self.window.advance_selection(Direction::Down);
                        Signal::Continue
                    },
                    Key::Esc => Signal::Cancel,
                    Key::Enter => Signal::Confirm,
                    Key::Other => Signal::Continue,
                },
                _ => Signal::Continue,
            },
            Event::Mouse { pointer, row, column } => {
                match pointer {
                    Pointer::LeftDown => self.window.on_pointer_select(row),
                    Pointer::ScrollUp => self.window.scroll(Direction::Up),
                    Pointer::ScrollDown => self.window.scroll(Direction::Down),
                    Pointer::Other => {},
                }
                Signal::Continue
            },
            Event::Resize { columns, rows } => {
                self.window.on_resize(rows);
                Signal::Continue
            },
            Event::Other => Signal::Continue,
        }
    }

    /// Runs one tick of the session on what the poll brought: applies the
    /// event, if there is one; on escape or enter ends the session, on
    /// enter with the candidate under the cursor; otherwise computes the
    /// filtered list anew and lays out the frame.
    pub fn tick(&mut self, polled: Option<Event>) -> (tick: Tick)
        requires
            old(self).wf(),
        ensures
            final(self).wf(),
            final(self).items() == old(self).items(),
            final(self).labels() == old(self).labels(),
            final(self).state() == old(self).state().ticked(polled),
            match PickerState::polled_signal(polled) {
                Signal::Continue => tick matches Tick::Draw(frame) && is_frame(
                    frame,
                    final(self).state().shown,
                    final(self).state().prompt,
                    final(self).state().window,
                ),
                Signal::Cancel => tick matches Tick::Cancelled,
                Signal::Confirm => tick matches Tick::Picked(found) && match found {
                    Some(i) => final(self).state().chosen() == Some(i as int) && i
                        < final(self).items().len(),
                    None => final(self).state().chosen().is_none(),
                },
            },
    {
        let signal = match polled {
            Some(event) => self.dispatch(event),
            None => Signal::Continue,
        };
        match signal {
            Signal::Cancel => Tick::Cancelled,
            Signal::Confirm => Tick::Picked(self.resolve()),
            Signal::Continue => {
                self.refresh();
                Tick::Draw(render(&self.shown, self.prompt.as_str(), &self.window))
            },
        }
    }
}

} // verus!
