//! The scroll window and the selection cursor over the filtered list.

use vstd::arithmetic::div_mod::{lemma_mod_add_multiples_vanish, lemma_mod_self_0, lemma_small_mod};
use vstd::prelude::*;

verus! {

/// A direction of travel through the list: `Up` towards its first entry,
/// `Down` towards its last.
#[derive(Clone, Copy, Debug, PartialEq, Eq, Structural)]
pub enum Direction {
    Up,
    Down,
}

impl Direction {
    /// The other direction.
    pub open spec fn opposite(self) -> Direction {
        match self {
            Direction::Up => Direction::Down,
            Direction::Down => Direction::Up,
        }
    }
}

/// How many entries one scroll step moves the window.
pub const SCROLL_STEP: usize = 2;

/// One place forward from `x`, wrapping round modulo `n`.
pub open spec fn wrap_next(x: int, n: int) -> int {
    (x + 1) % n
}

/// One place back from `x`, wrapping round modulo `n`.
pub open spec fn wrap_prev(x: int, n: int) -> int {
    (x + n - 1) % n
}

/// The mathematical state of a window.
pub struct WindowState {
    /// The length of the filtered list.
    pub count: nat,
    /// The selection cursor, an index into the filtered list.
    pub selected: nat,
    /// The first index of the scroll window.
    pub start: nat,
    /// The number of rows that the window spans: the terminal's height less
    /// the prompt row.
    pub rows: nat,
}

impl WindowState {
    /// The cursor lies on an entry of the list, unless the list is empty:
    /// over an empty list the cursor is free and stays where it was. The
    /// window start is free too: over a list that has become shorter it
    /// may lie beyond the last entry, and then no row is drawn.
    pub open spec fn wf(self) -> bool {
        self.count > 0 ==> self.selected < self.count
    }

    /// The cursor has its place over a list of the given length: it lies on
    /// an entry, or the list is empty.
    pub open spec fn fits(self, count: nat) -> bool {
        self.selected < count || count == 0
    }

    /// The index just behind the scroll window.
    pub open spec fn end(self) -> nat {
        self.start + self.rows
    }

    /// The number of rows that are drawn: the entries of the list that lie
    /// inside the window.
    pub open spec fn visible(self) -> nat {
        if self.start >= self.count {
            0
        } else if self.rows <= self.count - self.start {
            self.rows
        } else {
            (self.count - self.start) as nat
        }
    }

    /// The rows that a terminal of the given height leaves for the list.
    pub open spec fn rows_for(height: nat) -> nat {
        if height >= 1 {
            (height - 1) as nat
        } else {
            0
        }
    }

    /// The window of a fresh picker on a terminal of the given height.
    pub open spec fn initial(height: nat) -> WindowState {
        WindowState { count: 0, selected: 0, start: 0, rows: Self::rows_for(height) }
    }

    /// The cursor moved by one entry, wrapping round at either end of the
    /// list; unchanged on an empty list.
    pub open spec fn advanced(self, dir: Direction) -> WindowState {
        if self.count == 0 {
            self
        } else {
            match dir {
                Direction::Down => WindowState {
                    selected: wrap_next(self.selected as int, self.count as int) as nat,
                    ..self
                },
                Direction::Up => WindowState {
                    selected: wrap_prev(self.selected as int, self.count as int) as nat,
                    ..self
                },
            }
        }
    }

    /// The window start and the cursor back at the top of the list.
    pub open spec fn at_top(self) -> WindowState {
        WindowState { selected: 0, start: 0, ..self }
    }

    /// Whether a scroll in the given direction moves the window. Upwards it
    /// does unless the window is at the top. Downwards it does while both
    /// window bounds lie before the end of the list and the step leaves the
    /// window start on an entry.
    pub open spec fn can_scroll(self, dir: Direction) -> bool {
        match dir {
            Direction::Up => self.start > 0,
            Direction::Down => self.start + SCROLL_STEP < self.count && self.end() < self.count,
        }
    }

    /// The window shifted by one scroll step where it can move, the cursor
    /// placed on the new window start. Where the new start lies beyond the
    /// list, which it can after the list has become shorter, the cursor
    /// stays on its entry.
    pub open spec fn scrolled(self, dir: Direction) -> WindowState {
        if !self.can_scroll(dir) {
            self
        } else {
            let start = match dir {
                Direction::Up => if self.start >= SCROLL_STEP {
                    (self.start - SCROLL_STEP) as nat
                } else {
                    0
                },
                Direction::Down => (self.start + SCROLL_STEP) as nat,
            };
            WindowState {
                selected: if start < self.count {
                    start
                } else {
                    self.selected
                },
                start: start,
                ..self
            }
        }
    }

    /// The window after the terminal took the given height.
    pub open spec fn resized(self, height: nat) -> WindowState {
        WindowState { rows: Self::rows_for(height), ..self }
    }

    /// Whether a terminal row shows an entry of the list. Row 0 holds the
    /// prompt; the entries follow from row 1.
    pub open spec fn is_entry_row(self, row: nat) -> bool {
        1 <= row <= self.visible()
    }

    /// The cursor placed on the entry drawn in the given terminal row; a
    /// click anywhere else changes nothing.
    pub open spec fn clicked(self, row: nat) -> WindowState {
        if self.is_entry_row(row) {
            WindowState { selected: (self.start + row - 1) as nat, ..self }
        } else {
            self
        }
    }

    /// The cursor moved `n` entries in one direction.
    pub open spec fn advanced_by(self, dir: Direction, n: nat) -> WindowState
        decreases n,
    {
        if n == 0 {
            self
        } else {
            self.advanced(dir).advanced_by(dir, (n - 1) as nat)
        }
    }

    /// The cursor moved one entry in a direction and one entry back, `n`
    /// times over.
    pub open spec fn rocked(self, dir: Direction, n: nat) -> WindowState
        decreases n,
    {
        if n == 0 {
            self
        } else {
            self.advanced(dir).advanced(dir.opposite()).rocked(dir, (n - 1) as nat)
        }
    }

    /// The window over a list of a new length: only the length changes.
    /// The one exception is a cursor that would lie beyond a list that has
    /// entries, which returns to the first of them. Over an empty list the
    /// cursor stays where it is.
    pub open spec fn with_count(self, count: nat) -> WindowState {
        if 0 < count <= self.selected {
            WindowState { count: count, selected: 0, ..self }
        } else {
            WindowState { count: count, ..self }
        }
    }
}

/// The scroll window and selection cursor of a picker.
#[derive(Clone, Copy, Debug)]
pub struct Window {
    count: usize,
    selected: usize,
    start: usize,
    rows: u16,
}

impl View for Window {
    type V = WindowState;

    closed spec fn view(&self) -> WindowState {
        WindowState {
            count: self.count as nat,
            selected: self.selected as nat,
            start: self.start as nat,
            rows: self.rows as nat,
        }
    }
}

impl Window {
    /// The cursor lies on an entry of the list, unless the list is empty.
    pub open spec fn wf(&self) -> bool {
        self@.wf()
    }

    /// The window of a fresh picker: an empty list, cursor and window at the
    /// top, and as many rows as the terminal's height leaves below the
    /// prompt row.
    pub fn new(height: u16) -> (w: Window)
        ensures
            w.wf(),
            w@ == WindowState::initial(height as nat),
    {
        let rows: u16 = if height >= 1 {
            height - 1
        } else {
            0
        };
        Window { count: 0, selected: 0, start: 0, rows }
    }

    /// The length of the filtered list.
    pub fn count(&self) -> (n: usize)
        ensures
            n == self@.count,
    {
        self.count
    }

    /// The selection cursor.
    pub fn selected(&self) -> (i: usize)
        ensures
            i == self@.selected,
    {
        self.selected
    }

    /// The first index of the scroll window.
    pub fn start_index(&self) -> (i: usize)
        ensures
            i == self@.start,
    {
        self.start
    }

    /// The number of rows that the window spans.
    pub fn rows(&self) -> (r: u16)
        ensures
            r == self@.rows,
    {
        self.rows
    }

    /// The number of entries that are drawn.
    pub fn visible(&self) -> (n: u16)
        requires
            self.wf(),
        ensures
            n == self@.visible(),
    {
        if self.start >= self.count {
            0
        } else {
            let rest: usize = self.count - self.start;
            if (self.rows as usize) <= rest {
                self.rows
            } else {
                rest as u16
            }
        }
    }

    /// Moves the cursor by one entry in the given direction, wrapping round
    /// at the ends of the list. Does nothing on an empty list.
    pub fn advance_selection(&mut self, dir: Direction)
        requires
            old(self).wf(),
        ensures
            final(self).wf(),
            final(self)@ == old(self)@.advanced(dir),
    {
        if self.count == 0 {
            return ;
        }
        proof {
            lemma_step_forward(self.selected as nat, self.count as nat);
            lemma_step_back(self.selected as nat, self.count as nat);
        }
        match dir {
            Direction::Down => {
                self.selected = if self.selected + 1 == self.count {
                    0
                } else {
                    self.selected + 1
                };
            },
            Direction::Up => {
                self.selected = if self.selected == 0 {
                    self.count - 1
                } else {
                    self.selected - 1
                };
            },
        }
    }

    /// Puts the window start and the cursor back at the top of the list.
    pub fn reset_scroll(&mut self)
        requires
            old(self).wf(),
        ensures
            final(self).wf(),
            final(self)@ == old(self)@.at_top(),
    {
        self.start = 0;
        self.selected = 0;
    }

    /// Scrolls the window by one step in the given direction and puts the
    /// cursor on the new window start, if an entry stands there. Does
    /// nothing where the window cannot move that way.
    pub fn scroll(&mut self, dir: Direction)
        requires
            old(self).wf(),
        ensures
            final(self).wf(),
            final(self)@ == old(self)@.scrolled(dir),
    {
        match dir {
            Direction::Up => {
                if self.start > 0 {
                    self.start = if self.start >= SCROLL_STEP {
                        self.start - SCROLL_STEP
                    } else {
                        0
                    };
                    if self.start < self.count {
                        self.selected = self.start;
                    }
                }
            },
            Direction::Down => {
                if self.count > SCROLL_STEP && self.start < self.count - SCROLL_STEP
                    && (self.rows as usize) < self.count - self.start {
                    self.start = self.start + SCROLL_STEP;
                    self.selected = self.start;
                }
            },
        }
    }

    /// Takes over a new terminal height: the window keeps its start and
    /// spans the rows that the height leaves below the prompt row.
    pub fn on_resize(&mut self, height: u16)
        requires
            old(self).wf(),
        ensures
            final(self).wf(),
            final(self)@ == old(self)@.resized(height as nat),
    {
        self.rows = if height >= 1 {
            height - 1
        } else {
            0
        };
    }

    /// Puts the cursor on the entry drawn in the clicked terminal row.
    /// A click on the prompt row or below the last drawn entry is ignored.
    pub fn on_pointer_select(&mut self, row: u16)
        requires
            old(self).wf(),
        ensures
            final(self).wf(),
            final(self)@ == old(self)@.clicked(row as nat),
    {
        let shown = self.visible();
        if 1 <= row && row <= shown {
            self.selected = self.start + ((row - 1) as usize);
        }
    }

    /// Takes over the length of a recomputed list and leaves the window
    /// where it is. A cursor that would lie beyond a list that has entries
    /// returns to the first of them; over an empty list it stays.
    pub fn set_count(&mut self, count: usize)
        requires
            old(self).wf(),
        ensures
            final(self).wf(),
            final(self)@ == old(self)@.with_count(count as nat),
    {
        if 0 < count && count <= self.selected {
            self.selected = 0;
        }
        self.count = count;
    }
}

/// One step forward modulo `n` from a place below `n`.
proof fn lemma_step_forward(x: nat, n: nat)
    requires
        x < n,
    ensures
        wrap_next(x as int, n as int) == if x + 1 == n {
            0int
        } else {
            x + 1int
        },
{
    if x + 1 == n {
        lemma_mod_self_0(n as int);
    } else {
        lemma_small_mod(x + 1, n);
    }
}

/// One step back modulo `n` from a place below `n`.
proof fn lemma_step_back(x: nat, n: nat)
    requires
        x < n,
    ensures
        wrap_prev(x as int, n as int) == if x == 0 {
            n - 1int
        } else {
            x - 1int
        },
{
    if x == 0 {
        lemma_small_mod((n - 1) as nat, n);
    } else {
        lemma_mod_add_multiples_vanish(x - 1, n as int);
        lemma_small_mod((x - 1) as nat, n);
    }
}

/// Moving the cursor keeps the state well formed.
pub proof fn lemma_advanced_wf(s: WindowState, dir: Direction)
    requires
        s.wf(),
    ensures
        s.advanced(dir).wf(),
{
    if s.count > 0 {
        lemma_step_forward(s.selected, s.count);
        lemma_step_back(s.selected, s.count);
    }
}

/// Moving the cursor by one entry and then by one entry the other way
/// returns it to where it was, on a list of any length.
pub proof fn lemma_advance_round_trip(s: WindowState, dir: Direction)
    requires
        s.wf(),
    ensures
        s.advanced(dir).advanced(dir.opposite()) == s,
{
    if s.count > 0 {
        let t = s.advanced(dir);
        lemma_step_forward(s.selected, s.count);
        lemma_step_back(s.selected, s.count);
        lemma_step_forward(t.selected, t.count);
        lemma_step_back(t.selected, t.count);
    }
}

/// Moving the cursor one entry there and back, any number of times over,
/// returns it to where it was.
pub proof fn lemma_rocked_is_identity(s: WindowState, dir: Direction, n: nat)
    requires
        s.wf(),
    ensures
        s.rocked(dir, n) == s,
    decreases n,
{
    if n > 0 {
        lemma_advance_round_trip(s, dir);
        lemma_rocked_is_identity(s, dir, (n - 1) as nat);
    }
}

/// Moving the cursor `n` entries keeps the state well formed, and the last
/// of the `n + 1` moves can be taken apart from the others.
proof fn lemma_advanced_by_last(s: WindowState, dir: Direction, n: nat)
    requires
        s.wf(),
    ensures
        s.advanced_by(dir, n).wf(),
        s.advanced_by(dir, n + 1) == s.advanced_by(dir, n).advanced(dir),
    decreases n,
{
    lemma_advanced_wf(s, dir);
    if n == 0 {
        assert(s.advanced_by(dir, 1) == s.advanced(dir).advanced_by(dir, 0));
    } else {
        lemma_advanced_by_last(s.advanced(dir), dir, (n - 1) as nat);
        lemma_advanced_wf(s.advanced(dir).advanced_by(dir, (n - 1) as nat), dir);
    }
}

/// Moving the cursor `n` entries in one direction and then `n` entries in
/// the other returns it to where it was, for every `n` and on a list of any
/// length.
pub proof fn lemma_advance_closed_rotation(s: WindowState, dir: Direction, n: nat)
    requires
        s.wf(),
    ensures
        s.advanced_by(dir, n).advanced_by(dir.opposite(), n) == s,
    decreases n,
{
    if n > 0 {
        let m = (n - 1) as nat;
        let mid = s.advanced_by(dir, m);
        lemma_advanced_by_last(s, dir, m);
        lemma_advance_round_trip(mid, dir);
        lemma_advance_closed_rotation(s, dir, m);
    }
}

/// Scrolling keeps the state well formed and changes neither the list's
/// length nor the window's rows. Scrolling up with the window at the top
/// changes nothing. Scrolling down changes nothing or moves window start,
/// window end and cursor to the old start plus the scroll step, which is
/// then an entry of the list: no scroll moves the window start past the end
/// of the list.
pub proof fn lemma_scroll_bounds(s: WindowState, dir: Direction)
    requires
        s.wf(),
    ensures
        s.scrolled(dir).wf(),
        s.scrolled(dir).count == s.count,
        s.scrolled(dir).rows == s.rows,
        s.start == 0 ==> s.scrolled(Direction::Up) == s,
        s.scrolled(Direction::Up).start <= s.start,
        s.scrolled(Direction::Down) == s || {
            &&& s.scrolled(Direction::Down).start == s.start + SCROLL_STEP
            &&& s.scrolled(Direction::Down).end() == s.end() + SCROLL_STEP
            &&& s.scrolled(Direction::Down).selected == s.start + SCROLL_STEP
            &&& s.scrolled(Direction::Down).start < s.count
        },
        s.start <= s.count ==> s.scrolled(dir).start <= s.count,
{
}

/// Taking over the length of a recomputed list changes nothing but the
/// length, as long as the cursor lies on an entry of the new list or the
/// new list is empty. Only a cursor beyond a list that has entries returns
/// to the first of them. Window start and rows stay in every case, and a
/// window that already spans a list of that length stays as it is.
pub proof fn lemma_with_count_keeps_window(s: WindowState, count: nat)
    ensures
        s.with_count(count).wf(),
        s.with_count(count).count == count,
        s.with_count(count).start == s.start,
        s.with_count(count).rows == s.rows,
        s.fits(count) ==> s.with_count(count) == (WindowState { count: count, ..s }),
        0 < count <= s.selected ==> s.with_count(count).selected == 0,
        s.wf() && s.count == count ==> s.with_count(count) == s,
{
}

/// A resize keeps the window start and puts the window end at the start
/// plus the new height less one, the prompt's row.
pub proof fn lemma_resize_keeps_start(s: WindowState, height: nat)
    requires
        height >= 1,
    ensures
        s.resized(height).start == s.start,
        s.resized(height).end() == s.start + height - 1,
        s.resized(height).selected == s.selected,
        s.resized(height).count == s.count,
{
}

} // verus!
