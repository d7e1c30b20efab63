//! The layout of one frame: what the terminal shows for a given state.

use crate::window::{Window, WindowState};
use vstd::prelude::*;
use vstd::string::*;

verus! {

/// One drawn entry of the filtered list.
#[derive(Debug)]
pub struct Row {
    /// The terminal row of the entry; row 0 holds the prompt.
    pub row: u16,
    /// The display text of the entry.
    pub text: String,
    /// Whether the selection cursor is on the entry.
    pub highlighted: bool,
}

/// One frame: the prompt row, the drawn entries from the top down, and the
/// column of row 0 in which the terminal's cursor comes to rest.
#[derive(Debug)]
pub struct Frame {
    pub prompt_line: String,
    pub rows: Vec<Row>,
    pub cursor_column: u16,
}

/// The text of the prompt row: a marker, a blank and the prompt.
pub open spec fn prompt_line(prompt: Seq<char>) -> Seq<char> {
    seq!['>', ' '] + prompt
}

/// The column just behind the last character of the prompt row, or the
/// last column that the terminal can address where the row is longer.
pub open spec fn cursor_column(prompt: Seq<char>) -> int {
    if prompt.len() + 2 <= u16::MAX {
        prompt.len() + 2int
    } else {
        u16::MAX as int
    }
}

/// `frame` is the frame of a filtered list, a prompt and a window: it draws
/// the entries of the list that lie inside the window, one terminal row
/// each from row 1 on, and highlights the one under the cursor.
pub open spec fn is_frame(
    frame: Frame,
    shown: Seq<Seq<char>>,
    prompt: Seq<char>,
    window: WindowState,
) -> bool {
    &&& frame.prompt_line@ == prompt_line(prompt)
    &&& frame.cursor_column == cursor_column(prompt)
    &&& frame.rows.len() == window.visible()
    &&& forall|k: int|
        0 <= k < frame.rows.len() ==> {
            &&& (#[trigger] frame.rows[k]).row == k + 1
            &&& frame.rows[k].text@ == shown[window.start + k]
            &&& frame.rows[k].highlighted == (window.start + k == window.selected)
        }
}

/// Lays out the frame of a filtered list, a prompt and a window.
pub fn render(shown: &Vec<String>, prompt: &str, window: &Window) -> (frame: Frame)
    requires
        window.wf(),
        window@.count == shown.len(),
    ensures
        is_frame(frame, crate::rank::texts(shown@), prompt@, window@),
{
    let mut line = String::new();
    line.push('>');
    line.push(' ');
    line.push_str(prompt);
    assert(line@ =~= prompt_line(prompt@));
    let width: usize = prompt.unicode_len();
    let column: u16 = if width <= 0xfffd {
        (width + 2) as u16
    } else {
        u16::MAX
    };
    let start: usize = window.start_index();
    let selected: usize = window.selected();
    let visible: u16 = window.visible();
    let mut rows: Vec<Row> = Vec::new();
    let mut k: u16 = 0;
    while k < visible
        invariant
            k <= visible,
            visible == window@.visible(),
            start == window@.start,
            selected == window@.selected,
            window@.count == shown.len(),
            rows.len() == k,
            forall|j: int|
                0 <= j < k ==> {
                    &&& (#[trigger] rows[j]).row == j + 1
                    &&& rows[j].text@ == shown[start + j]@
                    &&& rows[j].highlighted == (start + j == selected)
                },
        decreases visible - k,
    {
        let index: usize = start + (k as usize);
        rows.push(Row { row: k + 1, text: shown[index].clone(), highlighted: index == selected });
        k += 1;
    }
    Frame { prompt_line: line, rows, cursor_column: column }
}

} // verus!
