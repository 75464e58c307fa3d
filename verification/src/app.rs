//! The viewer's state: a sheet, the order its rows are shown in, the
//! selection, and the search, replace, sort, filter, edit and undo state
//! that keys drive. Work outside the process (writing files, reading a
//! sheet, the system clipboard) is handed back to the caller as an
//! `Effect`, and its outcome handed in again.

use vstd::prelude::*;

use crate::data::grid::{blank_row, cell_at, cell_writable, cell_written, row_inserted, row_removed, write_cell};
use crate::data::{
    blank_inserted, removed, restored, written, DataSourceType, SavePlan,
};
use crate::data::grid::{body_of, header_of, row_restored};
use crate::pattern::{compile, regex_valid, Pattern};
use crate::sorting::{arranged, find_sorted, keys_order, lemma_precedes, lemma_text_order_refl, precedes, sort_positions, sorted_unique, strictly_sorted};
use crate::text::text_order;
use crate::matching::{cell_matches, plain_match, replacement, replacement_text, search_pattern, text_matches};
use crate::text::{
    contains_chars, contains_text, lowercase, to_lowercase, joined, join_text, append_str, chars_of, concat2, concat3, decimal, decimal_text, drop_last_char, push_char,
    text_eq, text_contains, Order, trim, trimmed, cells_key, cells_key_text, lemma_cells_key_injective, starts_with, ends_with, string_of_range, text_starts_with, text_ends_with,
};

verus! {

/// Rows, columns and positions stay below this many. The library is
/// verified for a 32-bit `usize` as well as a 64-bit one, and its
/// arithmetic adds up to four such positions or counts (a position plus a
/// count plus room for the next row, and the like); `2^30 - 1` is the
/// largest bound for which four of them still fit in 32 bits.
pub const LIMIT: usize = 0x3fff_ffff;

/// The rows a view shows at once when it pages and scrolls.
pub const VISIBLE_ROWS: usize = 20;

/// A key as the terminal reports it.
#[derive(PartialEq, Eq, Structural, Clone, Copy, Debug)]
pub enum KeyCode {
    Char(char),
    Enter,
    Esc,
    Backspace,
    Tab,
    Up,
    Down,
    Left,
    Right,
    Other,
}

/// A key event: the key, whether Control was held, and whether the key was
/// pressed (rather than released or repeated).
#[derive(PartialEq, Eq, Structural, Clone, Copy, Debug)]
pub struct KeyEvent {
    pub code: KeyCode,
    pub ctrl: bool,
    pub press: bool,
}

/// Work that the caller performs after a key, outside the library.
pub enum Effect {
    /// Nothing to do.
    Nothing,
    /// Write the sheet's headers and rows to its file, then report the
    /// outcome with `App::finish_save`.
    Save,
    /// Write the headers and the rows in display order to `path` (as a
    /// workbook where `excel`), then report with `App::finish_export`.
    Export { path: String, excel: bool },
    /// Read sheet `index` of the workbook, then hand its cells to
    /// `App::finish_sheet_switch`.
    LoadSheet { index: usize },
    /// Put `text` on the system clipboard; failures are ignored.
    Clipboard { text: String },
}

/// An edit as the undo and redo stacks keep it.
pub enum EditAction {
    /// A cell's text changed.
    CellChange { row: usize, col: usize, old_value: String, new_value: String },
    /// A row with cells `data` was added at `row` (inserted blank or pasted).
    RowInsert { row: usize, data: Vec<String> },
    /// The row at `row`, with cells `data`, was removed.
    RowDelete { row: usize, data: Vec<String> },
}

/// What an edit records, as texts.
pub enum EditView {
    CellChange { row: nat, col: nat, old_value: Seq<char>, new_value: Seq<char> },
    RowInsert { row: nat, data: Seq<Seq<char>> },
    RowDelete { row: nat, data: Seq<Seq<char>> },
}

impl View for EditAction {
    type V = EditView;

    open spec fn view(&self) -> EditView {
        match self {
            EditAction::CellChange { row, col, old_value, new_value } => EditView::CellChange {
                row: *row as nat,
                col: *col as nat,
                old_value: old_value@,
                new_value: new_value@,
            },
            EditAction::RowInsert { row, data } => EditView::RowInsert {
                row: *row as nat,
                data: data.deep_view(),
            },
            EditAction::RowDelete { row, data } => EditView::RowDelete {
                row: *row as nat,
                data: data.deep_view(),
            },
        }
    }
}

/// The edits of a stack, bottom first.
pub open spec fn edits(s: Seq<EditAction>) -> Seq<EditView> {
    s.map_values(|a: EditAction| a@)
}

/// The row and column an edit touches.
pub open spec fn edit_row(e: EditView) -> nat {
    match e {
        EditView::CellChange { row, .. } => row,
        EditView::RowInsert { row, .. } => row,
        EditView::RowDelete { row, .. } => row,
    }
}

pub open spec fn edit_col(e: EditView) -> nat {
    match e {
        EditView::CellChange { col, .. } => col,
        EditView::RowInsert { .. } => 0,
        EditView::RowDelete { .. } => 0,
    }
}

/// `m` holds the text `t`.
pub open spec fn says(m: Option<String>, t: Seq<char>) -> bool {
    m matches Some(s) && s@ == t
}

/// The display order that shows every row of a sheet of `n` rows in file
/// order.
pub open spec fn identity_order(n: nat) -> Seq<usize> {
    Seq::new(n, |i: int| i as usize)
}

/// No index occurs twice in `s`.
pub open spec fn distinct(s: Seq<usize>) -> bool {
    forall|i: int, j: int| 0 <= i < s.len() && 0 <= j < s.len() && i != j ==> s[i] != s[j]
}

/// `n - 1`, or 0 for an empty range.
pub open spec fn last_index(n: nat) -> nat {
    if n == 0 {
        0
    } else {
        (n - 1) as nat
    }
}

/// The scroll position that keeps row `sel` in view: the view moves just
/// far enough for the row to be its first or its last visible row.
pub open spec fn visible_scroll(sel: nat, scroll: nat) -> nat {
    if sel < scroll {
        sel
    } else if sel >= scroll + VISIBLE_ROWS {
        (sel - (VISIBLE_ROWS - 1)) as nat
    } else {
        scroll
    }
}

/// The text of a cell, or the empty text where there is no cell.
pub open spec fn cell_or_empty(rows: Seq<Seq<Seq<char>>>, r: int, c: int) -> Seq<char> {
    match cell_at(rows, r, c) {
        Some(v) => v,
        None => seq![],
    }
}

/// A display order over a sheet of `n` rows: distinct rows of the sheet,
/// with `n` below `LIMIT`.
#[verifier::opaque]
pub open spec fn order_ok(order: Seq<usize>, n: nat) -> bool {
    &&& distinct(order)
    &&& forall|i: int| 0 <= i < order.len() ==> (#[trigger] order[i]) < n
    &&& order.len() <= n
    &&& n <= LIMIT
}

/// Search results at positions below `LIMIT`, the current one among them.
#[verifier::opaque]
pub open spec fn results_ok(results: Seq<(usize, usize)>, current: usize) -> bool {
    &&& results.len() > 0 ==> current < results.len()
    &&& results.len() <= LIMIT
    &&& forall|i: int|
        0 <= i < results.len() ==> (#[trigger] results[i]).0 <= LIMIT && results[i].1 <= LIMIT
}

/// The edit fits under `LIMIT`.
pub open spec fn edit_ok(e: EditView) -> bool {
    edit_row(e) <= LIMIT && edit_col(e) <= LIMIT
}

/// Every edit of the stack fits under `LIMIT`.
#[verifier::opaque]
pub open spec fn stack_ok(s: Seq<EditAction>) -> bool {
    forall|i: int| 0 <= i < s.len() ==> edit_ok((#[trigger] s[i])@)
}

/// Sort columns below `LIMIT`.
#[verifier::opaque]
pub open spec fn columns_ok(s: Seq<(usize, bool)>) -> bool {
    forall|i: int| 0 <= i < s.len() ==> (#[trigger] s[i]).0 <= LIMIT
}

pub proof fn lemma_stack_push(s: Seq<EditAction>, a: EditAction)
    requires
        stack_ok(s),
        edit_ok(a@),
    ensures
        stack_ok(s.push(a)),
        edits(s.push(a)) == edits(s).push(a@),
{
    reveal(stack_ok);
    assert forall|i: int| 0 <= i < s.push(a).len() implies edit_ok((#[trigger] s.push(a)[i])@) by {
        if i < s.len() {
            assert(s.push(a)[i] == s[i]);
        }
    }
    assert(edits(s.push(a)) =~= edits(s).push(a@));
}

pub proof fn lemma_stack_pop(s: Seq<EditAction>)
    requires
        stack_ok(s),
        s.len() > 0,
    ensures
        stack_ok(s.drop_last()),
        edit_ok(s.last()@),
        edits(s.drop_last()) == edits(s).drop_last(),
        edits(s).last() == s.last()@,
{
    reveal(stack_ok);
    assert(edit_ok(s[s.len() - 1]@));
    assert(edits(s.drop_last()) =~= edits(s).drop_last());
}

pub proof fn lemma_stack_empty(s: Seq<EditAction>)
    requires
        s.len() == 0,
    ensures
        stack_ok(s),
        edits(s) == Seq::<EditView>::empty(),
{
    reveal(stack_ok);
    assert(edits(s) =~= Seq::<EditView>::empty());
}

pub proof fn lemma_order_identity(n: nat)
    requires
        n <= LIMIT,
    ensures
        order_ok(identity_order(n), n),
{
    reveal(order_ok);
}

/// Where the view stands: the selected cell, the first row shown, a
/// pending count prefix, and when `g` was last pressed (in milliseconds).
#[derive(Clone, Copy)]
pub struct Cursor {
    pub selected_row: usize,
    pub selected_col: usize,
    pub scroll_offset: usize,
    pub pending_count: Option<usize>,
    pub last_g_press: Option<u64>,
}

/// Which input modes and overlays are on.
#[derive(Clone, Copy)]
pub struct Modes {
    pub show_help: bool,
    pub should_quit: bool,
    pub force_quit: bool,
    pub search_active: bool,
    pub replace_active: bool,
    pub edit_mode: bool,
    pub command_mode: bool,
    pub filter_mode: bool,
    pub command_palette_mode: bool,
}

/// The search: its query, the cells found (display row, column), the
/// current one, and its options.
pub struct Search {
    pub query: String,
    pub results: Vec<(usize, usize)>,
    pub current: usize,
    pub case_sensitive: bool,
    pub regex_mode: bool,
    pub column: Option<usize>,
}

/// The replace prompt: the text looked for, its replacement, whether all
/// matches are replaced at once, and which of the two fields takes input.
pub struct Replace {
    pub query: String,
    pub with: String,
    pub all_mode: bool,
    pub cursor: usize,
}

/// The display order of the sheet's rows and the columns it is sorted by
/// (each ascending or not).
pub struct Rows {
    pub order: Vec<usize>,
    pub sort_columns: Vec<(usize, bool)>,
}

/// The column filter: whether it narrows the rows, its column, the values
/// offered with their flags, and the value under the cursor.
pub struct Filter {
    pub active: bool,
    pub col: Option<usize>,
    pub values: Vec<String>,
    pub selected: Vec<bool>,
    pub cursor: usize,
}

/// Duplicate rows: whether they are highlighted, and the groups found
/// (first display row, all display rows of the group).
pub struct Duplicates {
    pub highlight: bool,
    pub groups: Vec<(usize, Vec<usize>)>,
}

/// Editing: the edit buffer, the undo and redo stacks and the clipboards.
pub struct Editing {
    pub buffer: String,
    pub undo: Vec<EditAction>,
    pub redo: Vec<EditAction>,
    pub clipboard: Option<String>,
    pub clipboard_row: Option<Vec<String>>,
}

/// The command line and the command palette.
pub struct Commands {
    pub buffer: String,
    pub palette_query: String,
    pub palette_cursor: usize,
}

/// The state of the viewer.
pub struct App {
    pub data: DataSourceType,
    pub cursor: Cursor,
    pub modes: Modes,
    pub message: Option<String>,
    pub search: Search,
    pub replace: Replace,
    pub rows: Rows,
    pub filter: Filter,
    pub duplicates: Duplicates,
    pub editing: Editing,
    pub commands: Commands,
}

impl App {
    /// The rows of the sheet.
    pub open spec fn sheet_rows(self) -> Seq<Seq<Seq<char>>> {
        self.data.spec_rows()
    }

    /// The sheet.
    pub open spec fn sheet(self) -> DataSourceType {
        self.data
    }

    /// The display order: the sheet row shown at each display position.
    pub open spec fn order(self) -> Seq<usize> {
        self.rows.order@
    }

    pub open spec fn undo_edits(self) -> Seq<EditView> {
        edits(self.editing.undo@)
    }

    pub open spec fn shown_message(self) -> Option<String> {
        self.message
    }

    /// The state holds together: the display order names distinct rows of
    /// the sheet, and all of them where no filter applies; each filter value
    /// has its flag; the current search result is one of the results; there
    /// are no duplicate groups while highlighting is off; and positions stay
    /// below `LIMIT`.
    pub open spec fn wf(self) -> bool {
        &&& order_ok(self.rows.order@, self.data.spec_rows().len())
        &&& self.data.spec_headers().len() <= LIMIT
        &&& self.cursor.selected_row <= LIMIT
        &&& self.cursor.selected_col <= LIMIT
        &&& self.cursor.scroll_offset <= LIMIT
        &&& self.cursor.pending_count matches Some(c) ==> c >= 1
        &&& self.filter.selected@.len() == self.filter.values@.len()
        &&& self.filter.values@.len() <= LIMIT
        &&& strictly_sorted(self.filter.values.deep_view())
        &&& self.filter.cursor <= LIMIT
        &&& results_ok(self.search.results@, self.search.current)
        &&& self.search.column matches Some(c) ==> c <= LIMIT
        &&& stack_ok(self.editing.undo@)
        &&& stack_ok(self.editing.redo@)
        &&& columns_ok(self.rows.sort_columns@)
        &&& self.commands.palette_cursor <= LIMIT
        &&& !self.filter.active ==> self.rows.order@.len() == self.data.spec_rows().len()
        &&& !self.duplicates.highlight ==> self.duplicates.groups@.len() == 0
    }

    /// The viewer as it starts on `data`: all rows in file order, the first
    /// cell selected, every mode off, every text and stack empty.
    pub open spec fn fresh(self, data: DataSourceType) -> bool {
        &&& self.data == data
        &&& self.rows.order@ == identity_order(data.spec_rows().len())
        &&& self.rows.sort_columns@.len() == 0
        &&& self.cursor.selected_row == 0 && self.cursor.selected_col == 0
        &&& self.cursor.scroll_offset == 0
        &&& self.cursor.pending_count is None && self.cursor.last_g_press is None
        &&& !self.modes.show_help && !self.modes.should_quit && !self.modes.force_quit
        &&& !self.modes.search_active && !self.modes.replace_active && !self.modes.edit_mode
        &&& !self.modes.command_mode && !self.modes.filter_mode
        &&& !self.modes.command_palette_mode
        &&& self.message is None
        &&& self.search.query@.len() == 0 && self.search.results@.len() == 0
        &&& self.search.current == 0
        &&& !self.search.case_sensitive && !self.search.regex_mode
        &&& self.search.column is None
        &&& self.replace.query@.len() == 0 && self.replace.with@.len() == 0
        &&& !self.replace.all_mode && self.replace.cursor == 0
        &&& !self.filter.active && self.filter.col is None
        &&& self.filter.values@.len() == 0 && self.filter.selected@.len() == 0
        &&& self.filter.cursor == 0
        &&& !self.duplicates.highlight && self.duplicates.groups@.len() == 0
        &&& self.editing.buffer@.len() == 0
        &&& self.editing.undo@.len() == 0 && self.editing.redo@.len() == 0
        &&& self.editing.clipboard is None && self.editing.clipboard_row is None
        &&& self.commands.buffer@.len() == 0 && self.commands.palette_query@.len() == 0
        &&& self.commands.palette_cursor == 0
    }

    /// The viewer of a freshly opened sheet.
    pub fn new(data: DataSourceType) -> (app: App)
        requires
            data.spec_rows().len() <= LIMIT,
            data.spec_headers().len() <= LIMIT,
        ensures
            app.wf(),
            app.fresh(data),
    {
        let n = data.row_count();
        let order = identity_vec(n);
        proof {
            lemma_order_identity(n as nat);
            reveal(results_ok);
            lemma_stack_empty(Seq::<EditAction>::empty());
            reveal(columns_ok);
        }
        App {
            data,
            cursor: Cursor {
                selected_row: 0,
                selected_col: 0,
                scroll_offset: 0,
                pending_count: None,
                last_g_press: None,
            },
            modes: Modes {
                show_help: false,
                should_quit: false,
                force_quit: false,
                search_active: false,
                replace_active: false,
                edit_mode: false,
                command_mode: false,
                filter_mode: false,
                command_palette_mode: false,
            },
            message: None,
            search: Search {
                query: String::new(),
                results: Vec::new(),
                current: 0,
                case_sensitive: false,
                regex_mode: false,
                column: None,
            },
            replace: Replace {
                query: String::new(),
                with: String::new(),
                all_mode: false,
                cursor: 0,
            },
            rows: Rows { order, sort_columns: Vec::new() },
            filter: Filter {
                active: false,
                col: None,
                values: Vec::new(),
                selected: Vec::new(),
                cursor: 0,
            },
            duplicates: Duplicates { highlight: false, groups: Vec::new() },
            editing: Editing {
                buffer: String::new(),
                undo: Vec::new(),
                redo: Vec::new(),
                clipboard: None,
                clipboard_row: None,
            },
            commands: Commands {
                buffer: String::new(),
                palette_query: String::new(),
                palette_cursor: 0,
            },
        }
    }
}

/// `[0, 1, .., n - 1]`.
fn identity_vec(n: usize) -> (v: Vec<usize>)
    ensures
        v@ == identity_order(n as nat),
{
    let mut v: Vec<usize> = Vec::new();
    let mut i: usize = 0;
    while i < n
        invariant
            i <= n,
            v@ == identity_order(i as nat),
        decreases n - i,
    {
        v.push(i);
        i = i + 1;
        assert(v@ =~= identity_order(i as nat));
    }
    v
}

} // verus!

verus! {

/// The position of `x` in `s`, where it occurs (one position, for a
/// sequence without repeats).
pub open spec fn index_in(s: Seq<usize>, x: usize) -> Option<int> {
    if exists|i: int| 0 <= i < s.len() && s[i] == x {
        Some(choose|i: int| 0 <= i < s.len() && s[i] == x)
    } else {
        None
    }
}

/// Each of these changes the one part of the state that it names and
/// nothing else; the operations below are made of them.
impl App {
    fn set_message(&mut self, m: Option<String>)
        ensures
            *final(self) == (App { message: m, ..*old(self) }),
    {
        self.message = m;
    }

    fn set_cursor(&mut self, c: Cursor)
        ensures
            *final(self) == (App { cursor: c, ..*old(self) }),
    {
        self.cursor = c;
    }

    fn set_modes(&mut self, m: Modes)
        ensures
            *final(self) == (App { modes: m, ..*old(self) }),
    {
        self.modes = m;
    }

    fn set_order(&mut self, order: Vec<usize>)
        ensures
            *final(self) == (App { rows: Rows { order, ..old(self).rows }, ..*old(self) }),
    {
        self.rows.order = order;
    }

    fn set_buffer(&mut self, b: String)
        ensures
            *final(self) == (App { editing: Editing { buffer: b, ..old(self).editing }, ..*old(self) }),
    {
        self.editing.buffer = b;
    }

    fn set_clipboard(&mut self, c: Option<String>)
        ensures
            *final(self) == (App {
                editing: Editing { clipboard: c, ..old(self).editing },
                ..*old(self)
            }),
    {
        self.editing.clipboard = c;
    }

    fn set_clipboard_row(&mut self, c: Option<Vec<String>>)
        ensures
            *final(self) == (App {
                editing: Editing { clipboard_row: c, ..old(self).editing },
                ..*old(self)
            }),
    {
        self.editing.clipboard_row = c;
    }

    fn write_cell(&mut self, r: usize, c: usize, v: &str)
        ensures
            written(old(self).data, final(self).data, r as int, c as int, v@),
            final(self).data.spec_rows().len() == old(self).data.spec_rows().len(),
            final(self).data.spec_headers() == old(self).data.spec_headers(),
            *final(self) == (App { data: final(self).data, ..*old(self) }),
    {
        reveal(written);
        self.data.set_cell(r, c, v);
    }

    fn insert_blank(&mut self, at: usize)
        ensures
            blank_inserted(old(self).data, final(self).data, at as int),
            final(self).data.spec_rows().len() == old(self).data.spec_rows().len() + 1,
            final(self).data.spec_headers() == old(self).data.spec_headers(),
            *final(self) == (App { data: final(self).data, ..*old(self) }),
    {
        reveal(blank_inserted);
        self.data.insert_row(at);
    }

    fn insert_filled(&mut self, at: usize, values: &Vec<String>)
        ensures
            restored(old(self).data, final(self).data, at as int, values.deep_view()),
            final(self).data.spec_rows().len() == old(self).data.spec_rows().len() + 1,
            final(self).data.spec_headers() == old(self).data.spec_headers(),
            *final(self) == (App { data: final(self).data, ..*old(self) }),
    {
        reveal(restored);
        self.data.insert_filled_row(at, values);
    }

    fn remove_sheet_row(&mut self, at: usize)
        ensures
            removed(old(self).data, final(self).data, at as int),
            final(self).data.spec_rows().len() == (if at < old(self).data.spec_rows().len() {
                old(self).data.spec_rows().len() - 1
            } else {
                old(self).data.spec_rows().len() as int
            }),
            final(self).data.spec_headers() == old(self).data.spec_headers(),
            *final(self) == (App { data: final(self).data, ..*old(self) }),
    {
        reveal(removed);
        self.data.delete_row(at);
    }

    /// Records an edit for undo and empties the redo stack.
    fn record(&mut self, a: EditAction)
        requires
            stack_ok(old(self).editing.undo@),
            edit_ok(a@),
        ensures
            edits(final(self).editing.undo@) == edits(old(self).editing.undo@).push(a@),
            stack_ok(final(self).editing.undo@),
            final(self).editing.redo@.len() == 0,
            stack_ok(final(self).editing.redo@),
            *final(self) == (App {
                editing: Editing {
                    undo: final(self).editing.undo,
                    redo: final(self).editing.redo,
                    ..old(self).editing
                },
                ..*old(self)
            }),
    {
        proof {
            lemma_stack_push(self.editing.undo@, a);
        }
        self.editing.undo.push(a);
        self.editing.redo.clear();
        proof {
            lemma_stack_empty(self.editing.redo@);
        }
    }

    /// The selected display row is a row of the display order.
    pub open spec fn has_selection(self) -> bool {
        self.cursor.selected_row < self.rows.order@.len()
    }

    /// A row has been copied and can be pasted.
    pub open spec fn has_copied_row(self) -> bool {
        self.editing.clipboard_row is Some
    }

    /// The sheet row shown at the selected display row.
    pub open spec fn current_row(self) -> int {
        self.rows.order@[self.cursor.selected_row as int] as int
    }

    proof fn lemma_current_row(self)
        requires
            self.wf(),
            self.has_selection(),
        ensures
            0 <= self.current_row() < self.data.spec_rows().len() <= LIMIT,
            self.rows.order@.len() <= self.data.spec_rows().len(),
    {
        reveal(order_ok);
        assert(self.rows.order@[self.cursor.selected_row as int] < self.data.spec_rows().len());
    }

    /// The cursor with the selected row in view: the view moves just far
    /// enough for the row to be its first or its last visible row.
    pub open spec fn in_view(c: Cursor) -> Cursor {
        Cursor {
            scroll_offset: visible_scroll(c.selected_row as nat, c.scroll_offset as nat) as usize,
            ..c
        }
    }

    /// Scrolls just far enough for the selected row to be in view.
    fn ensure_selection_visible(&mut self)
        requires
            old(self).cursor.selected_row <= LIMIT,
            old(self).cursor.scroll_offset <= LIMIT,
        ensures
            *final(self) == (App { cursor: App::in_view(old(self).cursor), ..*old(self) }),
    {
        let visible_rows: usize = VISIBLE_ROWS;
        let mut c = self.cursor;
        if c.selected_row < c.scroll_offset {
            c.scroll_offset = c.selected_row;
        } else if c.selected_row >= c.scroll_offset + visible_rows {
            c.scroll_offset = c.selected_row - (visible_rows - 1);
        }
        self.set_cursor(c);
    }

    /// `post` is `pre` with sheet row `row`, column `col` selected and in
    /// view, where the display order shows that row; otherwise `pre`.
    pub open spec fn navigated(pre: App, post: App, row: usize, col: usize) -> bool {
        match index_in(pre.rows.order@, row) {
            Some(d) => post == (App {
                cursor: App::in_view(
                    Cursor { selected_row: d as usize, selected_col: col, ..pre.cursor },
                ),
                ..pre
            }),
            None => post == pre,
        }
    }

    /// Selects sheet row `row`, column `col`, where the display order shows
    /// the row.
    fn navigate_to_cell(&mut self, row: usize, col: usize)
        requires
            distinct(old(self).rows.order@),
            old(self).rows.order@.len() <= LIMIT + 1,
            old(self).cursor.scroll_offset <= LIMIT,
        ensures
            App::navigated(*old(self), *final(self), row, col),
    {
        let n = self.rows.order.len();
        let mut i: usize = 0;
        while i < n
            invariant
                *self == *old(self),
                distinct(self.rows.order@),
                n <= LIMIT + 1,
                self.cursor.scroll_offset <= LIMIT,
                n == self.rows.order@.len(),
                i <= n,
                forall|k: int| 0 <= k < i ==> self.rows.order@[k] != row,
            decreases n - i,
        {
            if self.rows.order[i] == row {
                proof {
                    let c = choose|k: int|
                        0 <= k < self.rows.order@.len() && self.rows.order@[k] == row;
                    assert(self.rows.order@[i as int] == row);
                    assert(c == i);
                }
                let mut c = self.cursor;
                c.selected_row = i;
                c.selected_col = col;
                self.set_cursor(c);
                self.ensure_selection_visible();
                return;
            }
            i = i + 1;
        }
    }

    /// Shows every row of the sheet again, in file order.
    fn reset_row_order(&mut self)
        requires
            old(self).data.spec_rows().len() <= LIMIT,
        ensures
            *final(self) == (App {
                rows: Rows { order: final(self).rows.order, ..old(self).rows },
                ..*old(self)
            }),
            final(self).rows.order@ == identity_order(old(self).data.spec_rows().len()),
            order_ok(final(self).rows.order@, old(self).data.spec_rows().len()),
    {
        let n = self.data.row_count();
        proof {
            lemma_order_identity(n as nat);
        }
        self.set_order(identity_vec(n));
    }
}

} // verus!

verus! {

impl App {
    /// `post` is `pre` editing the selected cell, its text in the edit
    /// buffer, where the cell exists; otherwise `pre`.
    pub open spec fn start_edit_done(pre: App, post: App) -> bool {
        match cell_at(pre.data.spec_rows(), pre.current_row(), pre.cursor.selected_col as int) {
            Some(v) => post == (App {
                modes: Modes { edit_mode: true, ..pre.modes },
                editing: Editing { buffer: post.editing.buffer, ..pre.editing },
                ..pre
            }) && post.editing.buffer@ == v,
            None => post == pre,
        }
    }

    fn start_edit(&mut self)
        requires
            old(self).wf(),
            old(self).has_selection(),
        ensures
            App::start_edit_done(*old(self), *final(self)),
            final(self).wf(),
    {
        let r = self.rows.order[self.cursor.selected_row];
        if let Some(cell) = self.data.get_cell(r, self.cursor.selected_col) {
            let mut m = self.modes;
            m.edit_mode = true;
            self.set_modes(m);
            self.set_buffer(cell);
        }
    }

    /// `post` is `pre` with the edit buffer written to the selected cell:
    /// where that changes the cell's text, the change is recorded for undo,
    /// the redo stack emptied and the edit reported; the edit ends either way.
    pub open spec fn commit_edit_done(pre: App, post: App) -> bool {
        let r = pre.current_row();
        let c = pre.cursor.selected_col as int;
        let old_v = cell_or_empty(pre.data.spec_rows(), r, c);
        let buf = pre.editing.buffer@;
        &&& post.editing.buffer@.len() == 0
        &&& if old_v != buf {
            &&& written(pre.data, post.data, r, c, buf)
            &&& edits(post.editing.undo@) == edits(pre.editing.undo@).push(
                EditView::CellChange { row: r as nat, col: c as nat, old_value: old_v, new_value: buf },
            )
            &&& post.editing.redo@.len() == 0
            &&& says(post.message, "Edited: "@ + buf)
            &&& post == (App {
                data: post.data,
                message: post.message,
                modes: Modes { edit_mode: false, ..pre.modes },
                editing: Editing {
                    buffer: post.editing.buffer,
                    undo: post.editing.undo,
                    redo: post.editing.redo,
                    ..pre.editing
                },
                ..pre
            })
        } else {
            post == (App {
                modes: Modes { edit_mode: false, ..pre.modes },
                editing: Editing { buffer: post.editing.buffer, ..pre.editing },
                ..pre
            })
        }
    }

    #[verifier::rlimit(30)]
    fn commit_edit(&mut self)
        requires
            old(self).wf(),
            old(self).has_selection(),
        ensures
            App::commit_edit_done(*old(self), *final(self)),
            final(self).wf(),
    {
        proof {
            self.lemma_current_row();
        }
        let row = self.rows.order[self.cursor.selected_row];
        let col = self.cursor.selected_col;
        let old_value = match self.data.get_cell(row, col) {
            Some(v) => v,
            None => String::new(),
        };
        let buffer = self.editing.buffer.clone();
        if !text_eq(old_value.as_str(), buffer.as_str()) {
            let m = concat2("Edited: ", buffer.as_str());
            let new_value = buffer.clone();
            self.record(EditAction::CellChange { row, col, old_value, new_value });
            self.write_cell(row, col, buffer.as_str());
            self.set_message(Some(m));
        }
        let mut md = self.modes;
        md.edit_mode = false;
        self.set_modes(md);
        self.set_buffer(String::new());
    }
}

} // verus!

verus! {

impl App {
    /// `post` is `pre` holding the selected cell's text in its clipboard and
    /// reporting the copy, `effect` putting the text on the system
    /// clipboard, where the cell exists; otherwise `pre` reporting an empty
    /// cell.
    pub open spec fn copy_selection_done(pre: App, post: App, effect: Effect) -> bool {
        match cell_at(pre.data.spec_rows(), pre.current_row(), pre.cursor.selected_col as int) {
            Some(v) => {
                &&& post == (App {
                    editing: Editing { clipboard: post.editing.clipboard, ..pre.editing },
                    message: post.message,
                    ..pre
                })
                &&& post.editing.clipboard matches Some(t) && t@ == v
                &&& says(post.message, "Copied: "@ + v)
                &&& effect matches Effect::Clipboard { text } && text@ == v
            },
            None => {
                &&& post == (App { message: post.message, ..pre })
                &&& says(post.message, "Empty cell"@)
                &&& effect is Nothing
            },
        }
    }

    fn copy_selection(&mut self) -> (effect: Effect)
        requires
            old(self).wf(),
            old(self).has_selection(),
        ensures
            App::copy_selection_done(*old(self), *final(self), effect),
            final(self).wf(),
    {
        let r = self.rows.order[self.cursor.selected_row];
        if let Some(cell) = self.data.get_cell(r, self.cursor.selected_col) {
            let m = concat2("Copied: ", cell.as_str());
            let c = cell.clone();
            self.set_clipboard(Some(c));
            self.set_message(Some(m));
            Effect::Clipboard { text: cell }
        } else {
            self.set_message(Some("Empty cell".to_owned()));
            Effect::Nothing
        }
    }

    /// `post` is `pre` with the selected cell emptied, the change recorded
    /// for undo, the redo stack emptied, the old text in its clipboard and
    /// the cut reported, `effect` putting the text on the system clipboard,
    /// where the cell exists; otherwise `pre` reporting an empty cell.
    pub open spec fn cut_selection_done(pre: App, post: App, effect: Effect) -> bool {
        let r = pre.current_row();
        let c = pre.cursor.selected_col as int;
        match cell_at(pre.data.spec_rows(), r, c) {
            Some(v) => {
                &&& written(pre.data, post.data, r, c, seq![])
                &&& edits(post.editing.undo@) == edits(pre.editing.undo@).push(
                    EditView::CellChange { row: r as nat, col: c as nat, old_value: v, new_value: seq![] },
                )
                &&& post.editing.redo@.len() == 0
                &&& post.editing.clipboard matches Some(t) && t@ == v
                &&& says(post.message, "Cut: "@ + v)
                &&& effect matches Effect::Clipboard { text } && text@ == v
                &&& post == (App {
                    data: post.data,
                    editing: Editing {
                        undo: post.editing.undo,
                        redo: post.editing.redo,
                        clipboard: post.editing.clipboard,
                        ..pre.editing
                    },
                    message: post.message,
                    ..pre
                })
            },
            None => {
                &&& post == (App { message: post.message, ..pre })
                &&& says(post.message, "Empty cell"@)
                &&& effect is Nothing
            },
        }
    }

    #[verifier::rlimit(30)]
    fn cut_selection(&mut self) -> (effect: Effect)
        requires
            old(self).wf(),
            old(self).has_selection(),
        ensures
            App::cut_selection_done(*old(self), *final(self), effect),
            final(self).wf(),
    {
        proof {
            self.lemma_current_row();
        }
        let row = self.rows.order[self.cursor.selected_row];
        let col = self.cursor.selected_col;
        if let Some(cell) = self.data.get_cell(row, col) {
            let m = concat2("Cut: ", cell.as_str());
            let c = cell.clone();
            let o = cell.clone();
            self.record(EditAction::CellChange { row, col, old_value: o, new_value: String::new() });
            let empty = String::new();
            self.write_cell(row, col, empty.as_str());
            self.set_clipboard(Some(c));
            self.set_message(Some(m));
            Effect::Clipboard { text: cell }
        } else {
            self.set_message(Some("Empty cell".to_owned()));
            Effect::Nothing
        }
    }

    /// The clipboard can be pasted: it is empty, or a row is selected.
    pub open spec fn paste_ok(self) -> bool {
        self.editing.clipboard is Some ==> self.has_selection()
    }

    /// `post` is `pre` with the clipboard's text written to the selected
    /// cell, the change recorded for undo, the redo stack emptied and the
    /// paste reported, where the text differs from the cell's; with a
    /// report that nothing changed where it does not, and that the
    /// clipboard is empty where it is.
    pub open spec fn paste_done(pre: App, post: App) -> bool {
        match pre.editing.clipboard {
            Some(t) => {
                let r = pre.current_row();
                let c = pre.cursor.selected_col as int;
                let old_v = cell_or_empty(pre.data.spec_rows(), r, c);
                if old_v != t@ {
                    &&& written(pre.data, post.data, r, c, t@)
                    &&& edits(post.editing.undo@) == edits(pre.editing.undo@).push(
                        EditView::CellChange { row: r as nat, col: c as nat, old_value: old_v, new_value: t@ },
                    )
                    &&& post.editing.redo@.len() == 0
                    &&& says(post.message, "Pasted: "@ + t@)
                    &&& post == (App {
                        data: post.data,
                        editing: Editing {
                            undo: post.editing.undo,
                            redo: post.editing.redo,
                            ..pre.editing
                        },
                        message: post.message,
                        ..pre
                    })
                } else {
                    post == (App { message: post.message, ..pre }) && says(
                        post.message,
                        "No change to paste"@,
                    )
                }
            },
            None => post == (App { message: post.message, ..pre }) && says(
                post.message,
                "Clipboard empty"@,
            ),
        }
    }

    #[verifier::rlimit(30)]
    fn paste(&mut self)
        requires
            old(self).wf(),
            old(self).paste_ok(),
        ensures
            App::paste_done(*old(self), *final(self)),
            final(self).wf(),
    {
        let clip = self.editing.clipboard.clone();
        match clip {
            Some(text) => {
                proof {
                    self.lemma_current_row();
                }
                let row = self.rows.order[self.cursor.selected_row];
                let col = self.cursor.selected_col;
                let old_value = match self.data.get_cell(row, col) {
                    Some(v) => v,
                    None => String::new(),
                };
                if !text_eq(old_value.as_str(), text.as_str()) {
                    let m = concat2("Pasted: ", text.as_str());
                    let t = text.clone();
                    self.record(EditAction::CellChange { row, col, old_value, new_value: t });
                    self.write_cell(row, col, text.as_str());
                    self.set_message(Some(m));
                } else {
                    self.set_message(Some("No change to paste".to_owned()));
                }
            },
            None => {
                self.set_message(Some("Clipboard empty".to_owned()));
            },
        }
    }
}

} // verus!

verus! {

impl App {
    /// Rows can still be added below `LIMIT`.
    pub open spec fn has_room(self) -> bool {
        self.data.spec_rows().len() < LIMIT
    }

    /// The place just below the selected sheet row, or the end of the
    /// sheet where no row is selected.
    pub open spec fn row_below(self) -> int {
        if self.has_selection() {
            self.current_row() + 1
        } else {
            self.data.spec_rows().len() as int
        }
    }

    /// `post` is `pre` with a blank row inserted into the sheet at `at`,
    /// recorded for undo, the redo stack emptied, every row shown in file
    /// order, and `msg` shown.
    pub open spec fn row_inserted_at(pre: App, post: App, at: int, msg: Seq<char>) -> bool {
        &&& blank_inserted(pre.data, post.data, at)
        &&& edits(post.editing.undo@) == edits(pre.editing.undo@).push(
            EditView::RowInsert { row: at as nat, data: seq![] },
        )
        &&& post.editing.redo@.len() == 0
        &&& post.rows.order@ == identity_order(post.data.spec_rows().len())
        &&& says(post.message, msg)
        &&& post == (App {
            data: post.data,
            editing: Editing { undo: post.editing.undo, redo: post.editing.redo, ..pre.editing },
            rows: Rows { order: post.rows.order, ..pre.rows },
            message: post.message,
            ..pre
        })
    }

    /// Inserts a blank row just below the selected sheet row (at the end of
    /// the sheet where no row is selected).
    #[verifier::rlimit(30)]
    fn insert_row(&mut self)
        requires
            old(self).wf(),
            old(self).has_room(),
        ensures
            App::row_inserted_at(*old(self), *final(self), old(self).row_below(),
                "Inserted row below "@ + decimal((old(self).row_below() + 1) as nat)),
            final(self).wf(),
    {
        proof {
            reveal(order_ok);
        }
        let actual_row = if self.cursor.selected_row < self.rows.order.len() {
            proof {
                self.lemma_current_row();
            }
            self.rows.order[self.cursor.selected_row] + 1
        } else {
            self.data.row_count()
        };
        let m = concat2("Inserted row below ", decimal_text(actual_row + 1).as_str());
        let empty: Vec<String> = Vec::new();
        assert(empty.deep_view() =~= Seq::<Seq<char>>::empty());
        self.record(EditAction::RowInsert { row: actual_row, data: empty });
        self.insert_blank(actual_row);
        self.reset_row_order();
        self.set_message(Some(m));
    }

    /// Inserts a blank row above the selected one.
    #[verifier::rlimit(30)]
    fn insert_row_above(&mut self)
        requires
            old(self).wf(),
            old(self).has_room(),
            old(self).has_selection(),
        ensures
            App::row_inserted_at(*old(self), *final(self), old(self).current_row(),
                "Inserted row above "@ + decimal((old(self).current_row() + 1) as nat)),
            final(self).wf(),
    {
        proof {
            self.lemma_current_row();
        }
        let actual_row = self.rows.order[self.cursor.selected_row];
        let m = concat2("Inserted row above ", decimal_text(actual_row + 1).as_str());
        let empty: Vec<String> = Vec::new();
        assert(empty.deep_view() =~= Seq::<Seq<char>>::empty());
        self.record(EditAction::RowInsert { row: actual_row, data: empty });
        self.insert_blank(actual_row);
        self.reset_row_order();
        self.set_message(Some(m));
    }

    /// `post` is `pre` with the selected row removed from the sheet, the row
    /// recorded for undo, the redo stack emptied, every row shown in file
    /// order, the selection kept within the rows, and the deletion reported.
    pub open spec fn delete_row_done(pre: App, post: App) -> bool {
        let r = pre.current_row();
        &&& removed(pre.data, post.data, r)
        &&& edits(post.editing.undo@) == edits(pre.editing.undo@).push(
            EditView::RowDelete { row: r as nat, data: pre.data.spec_rows()[r] },
        )
        &&& post.editing.redo@.len() == 0
        &&& post.rows.order@ == identity_order(post.data.spec_rows().len())
        &&& says(post.message, "Deleted row "@ + decimal((r + 1) as nat))
        &&& post == (App {
            data: post.data,
            editing: Editing { undo: post.editing.undo, redo: post.editing.redo, ..pre.editing },
            rows: Rows { order: post.rows.order, ..pre.rows },
            cursor: Cursor {
                selected_row: if pre.cursor.selected_row <= last_index(post.data.spec_rows().len()) {
                    pre.cursor.selected_row
                } else {
                    last_index(post.data.spec_rows().len()) as usize
                },
                ..pre.cursor
            },
            message: post.message,
            ..pre
        })
    }

    #[verifier::rlimit(30)]
    fn delete_row(&mut self)
        requires
            old(self).wf(),
            old(self).has_selection(),
        ensures
            App::delete_row_done(*old(self), *final(self)),
            final(self).wf(),
    {
        proof {
            self.lemma_current_row();
        }
        let actual_row = self.rows.order[self.cursor.selected_row];
        let row_data = match self.data.get_row(actual_row) {
            Some(r) => r,
            None => Vec::new(),
        };
        let m = concat2("Deleted row ", decimal_text(actual_row + 1).as_str());
        self.record(EditAction::RowDelete { row: actual_row, data: row_data });
        self.remove_sheet_row(actual_row);
        self.reset_row_order();
        let n = self.data.row_count();
        let last = if n > 0 {
            n - 1
        } else {
            0
        };
        let mut c = self.cursor;
        if c.selected_row > last {
            c.selected_row = last;
        }
        self.set_cursor(c);
        self.set_message(Some(m));
    }

    /// `post` is `pre` holding the selected row in its row clipboard and
    /// the row's cells joined by tabs in its clipboard, reporting the copy;
    /// `effect` puts the tab-joined text on the system clipboard.
    pub open spec fn copy_row_done(pre: App, post: App, effect: Effect) -> bool {
        let r = pre.current_row();
        let row = pre.data.spec_rows()[r];
        &&& post.editing.clipboard matches Some(t) && t@ == joined(row, "\t"@)
        &&& post.editing.clipboard_row matches Some(v) && v.deep_view() == row
        &&& effect matches Effect::Clipboard { text } && text@ == joined(row, "\t"@)
        &&& says(post.message, "Copied row "@ + decimal((r + 1) as nat) + ": "@ + joined(row, ", "@))
        &&& post == (App {
            editing: Editing {
                clipboard: post.editing.clipboard,
                clipboard_row: post.editing.clipboard_row,
                ..pre.editing
            },
            message: post.message,
            ..pre
        })
    }

    #[verifier::rlimit(30)]
    fn copy_row(&mut self) -> (effect: Effect)
        requires
            old(self).wf(),
            old(self).has_selection(),
        ensures
            App::copy_row_done(*old(self), *final(self), effect),
            final(self).wf(),
    {
        proof {
            self.lemma_current_row();
        }
        let actual_row = self.rows.order[self.cursor.selected_row];
        match self.data.get_row(actual_row) {
            Some(row) => {
                let row_text = join_text(&row, "\t");
                let m = concat3(
                    concat2("Copied row ", decimal_text(actual_row + 1).as_str()).as_str(),
                    ": ",
                    join_text(&row, ", ").as_str(),
                );
                let t = row_text.clone();
                self.set_clipboard(Some(t));
                self.set_clipboard_row(Some(row));
                self.set_message(Some(m));
                Effect::Clipboard { text: row_text }
            },
            None => Effect::Nothing,
        }
    }

    /// The row clipboard can be pasted: it is empty, or a row is selected
    /// and rows can still be added.
    pub open spec fn paste_row_ok(self) -> bool {
        self.editing.clipboard_row is Some ==> self.has_selection() && self.has_room()
    }

    /// `post` is `pre` with the row clipboard's cells inserted as a new row
    /// below the selected one (as far as the headers reach), recorded for
    /// undo, the redo stack emptied, every row shown in file order and the
    /// paste reported; with a report that there is nothing to paste where
    /// the row clipboard is empty.
    pub open spec fn paste_row_done(pre: App, post: App) -> bool {
        match pre.editing.clipboard_row {
            Some(v) => {
                let at = pre.current_row() + 1;
                &&& restored(pre.data, post.data, at, v.deep_view())
                &&& edits(post.editing.undo@) == edits(pre.editing.undo@).push(
                    EditView::RowInsert { row: at as nat, data: v.deep_view() },
                )
                &&& post.editing.redo@.len() == 0
                &&& post.rows.order@ == identity_order(post.data.spec_rows().len())
                &&& says(post.message, "Pasted row: "@ + joined(v.deep_view(), ", "@))
                &&& post == (App {
                    data: post.data,
                    editing: Editing { undo: post.editing.undo, redo: post.editing.redo, ..pre.editing },
                    rows: Rows { order: post.rows.order, ..pre.rows },
                    message: post.message,
                    ..pre
                })
            },
            None => post == (App { message: post.message, ..pre }) && says(
                post.message,
                "No row in clipboard"@,
            ),
        }
    }

    #[verifier::rlimit(30)]
    fn paste_row(&mut self)
        requires
            old(self).wf(),
            old(self).paste_row_ok(),
        ensures
            App::paste_row_done(*old(self), *final(self)),
            final(self).wf(),
    {
        match &self.editing.clipboard_row {
            Some(rd) => {
                proof {
                    self.lemma_current_row();
                }
                let row_data = crate::data::grid::copy_texts(rd);
                let actual_row = self.rows.order[self.cursor.selected_row];
                let m = concat2("Pasted row: ", join_text(&row_data, ", ").as_str());
                let values = crate::data::grid::copy_texts(&row_data);
                self.record(EditAction::RowInsert { row: actual_row + 1, data: row_data });
                self.insert_filled(actual_row + 1, &values);
                self.reset_row_order();
                self.set_message(Some(m));
            },
            None => {
                self.set_message(Some("No row in clipboard".to_owned()));
            },
        }
    }
}

} // verus!

verus! {

impl App {
    fn pop_undo(&mut self) -> (a: Option<EditAction>)
        requires
            stack_ok(old(self).editing.undo@),
        ensures
            old(self).editing.undo@.len() == 0 ==> a is None && *final(self) == *old(self),
            old(self).editing.undo@.len() > 0 ==> (a matches Some(x) && x@ == edits(
                old(self).editing.undo@,
            ).last() && edit_ok(x@) && edits(final(self).editing.undo@) == edits(
                old(self).editing.undo@,
            ).drop_last() && stack_ok(final(self).editing.undo@)),
            *final(self) == (App {
                editing: Editing { undo: final(self).editing.undo, ..old(self).editing },
                ..*old(self)
            }),
    {
        if self.editing.undo.len() == 0 {
            return None;
        }
        proof {
            lemma_stack_pop(self.editing.undo@);
        }
        self.editing.undo.pop()
    }

    fn pop_redo(&mut self) -> (a: Option<EditAction>)
        requires
            stack_ok(old(self).editing.redo@),
        ensures
            old(self).editing.redo@.len() == 0 ==> a is None && *final(self) == *old(self),
            old(self).editing.redo@.len() > 0 ==> (a matches Some(x) && x@ == edits(
                old(self).editing.redo@,
            ).last() && edit_ok(x@) && edits(final(self).editing.redo@) == edits(
                old(self).editing.redo@,
            ).drop_last() && stack_ok(final(self).editing.redo@)),
            *final(self) == (App {
                editing: Editing { redo: final(self).editing.redo, ..old(self).editing },
                ..*old(self)
            }),
    {
        if self.editing.redo.len() == 0 {
            return None;
        }
        proof {
            lemma_stack_pop(self.editing.redo@);
        }
        self.editing.redo.pop()
    }

    fn push_undo(&mut self, a: EditAction)
        requires
            stack_ok(old(self).editing.undo@),
            edit_ok(a@),
        ensures
            edits(final(self).editing.undo@) == edits(old(self).editing.undo@).push(a@),
            stack_ok(final(self).editing.undo@),
            *final(self) == (App {
                editing: Editing { undo: final(self).editing.undo, ..old(self).editing },
                ..*old(self)
            }),
    {
        proof {
            lemma_stack_push(self.editing.undo@, a);
        }
        self.editing.undo.push(a);
    }

    fn push_redo(&mut self, a: EditAction)
        requires
            stack_ok(old(self).editing.redo@),
            edit_ok(a@),
        ensures
            edits(final(self).editing.redo@) == edits(old(self).editing.redo@).push(a@),
            stack_ok(final(self).editing.redo@),
            *final(self) == (App {
                editing: Editing { redo: final(self).editing.redo, ..old(self).editing },
                ..*old(self)
            }),
    {
        proof {
            lemma_stack_push(self.editing.redo@, a);
        }
        self.editing.redo.push(a);
    }

    /// The selected row kept within a sheet of `n` rows.
    pub open spec fn clamped(sel: usize, n: nat) -> usize {
        if sel <= last_index(n) {
            sel
        } else {
            last_index(n) as usize
        }
    }

    /// Selects `row` (or the last row, where there are fewer) and brings
    /// it into view.
    fn select_restored(&mut self, row: usize)
        requires
            old(self).data.spec_rows().len() <= LIMIT,
            old(self).cursor.scroll_offset <= LIMIT,
        ensures
            *final(self) == (App {
                cursor: App::in_view(
                    Cursor {
                        selected_row: App::clamped(row, old(self).data.spec_rows().len()),
                        ..old(self).cursor
                    },
                ),
                ..*old(self)
            }),
    {
        let n = self.data.row_count();
        let last = if n > 0 {
            n - 1
        } else {
            0
        };
        let mut c = self.cursor;
        c.selected_row = if row <= last {
            row
        } else {
            last
        };
        self.set_cursor(c);
        self.ensure_selection_visible();
    }

    fn clamp_selection(&mut self)
        ensures
            *final(self) == (App {
                cursor: Cursor {
                    selected_row: App::clamped(
                        old(self).cursor.selected_row,
                        old(self).data.spec_rows().len(),
                    ),
                    ..old(self).cursor
                },
                ..*old(self)
            }),
    {
        let n = self.data.row_count();
        let last = if n > 0 {
            n - 1
        } else {
            0
        };
        let mut c = self.cursor;
        if c.selected_row > last {
            c.selected_row = last;
        }
        self.set_cursor(c);
    }

    /// Undo can run: the edit on top of the undo stack, where it restores a
    /// removed row, has room for it.
    pub open spec fn undo_ok(self) -> bool {
        self.editing.undo@.len() > 0 ==> match edits(self.editing.undo@).last() {
            EditView::RowDelete { .. } => self.has_room(),
            _ => true,
        }
    }

    /// Redo can run: the edit on top of the redo stack, where it adds a row
    /// again, has room for it.
    pub open spec fn redo_ok(self) -> bool {
        self.editing.redo@.len() > 0 ==> match edits(self.editing.redo@).last() {
            EditView::RowInsert { .. } => self.has_room(),
            _ => true,
        }
    }

    /// `post` is `pre` after undoing the edit on top of its undo stack, which
    /// moves to the redo stack: a cell change writes the old text back and
    /// selects the cell; an added row (inserted blank or pasted) is removed
    /// again; a removed row is inserted again with its cells and selected.
    /// After a row edit every row is shown in file order. With an empty undo
    /// stack, `pre` reporting that there is nothing to undo.
    pub open spec fn undo_done(pre: App, post: App) -> bool {
        if pre.editing.undo@.len() == 0 {
            post == (App { message: post.message, ..pre }) && says(
                post.message,
                "Nothing to undo"@,
            )
        } else {
            let a = edits(pre.editing.undo@).last();
            &&& edits(post.editing.undo@) == edits(pre.editing.undo@).drop_last()
            &&& edits(post.editing.redo@) == edits(pre.editing.redo@).push(a)
            &&& match a {
                EditView::CellChange { row, col, old_value, new_value } => {
                    let mid = App {
                        data: post.data,
                        editing: Editing {
                            undo: post.editing.undo,
                            redo: post.editing.redo,
                            ..pre.editing
                        },
                        ..pre
                    };
                    &&& written(pre.data, post.data, row as int, col as int, old_value)
                    &&& App::navigated(
                        mid,
                        App { message: pre.message, ..post },
                        row as usize,
                        col as usize,
                    )
                    &&& says(post.message, "Undo: cell changed to '"@ + old_value + "'"@)
                },
                EditView::RowInsert { row, data } => {
                    let n = post.data.spec_rows().len();
                    &&& post.rows.order@ == identity_order(n)
                    &&& removed(pre.data, post.data, row as int)
                    &&& says(post.message, "Undo: deleted inserted row "@ + decimal(row + 1))
                    &&& post == (App {
                        data: post.data,
                        editing: Editing {
                            undo: post.editing.undo,
                            redo: post.editing.redo,
                            ..pre.editing
                        },
                        rows: Rows { order: post.rows.order, ..pre.rows },
                        cursor: Cursor {
                            selected_row: App::clamped(pre.cursor.selected_row, n),
                            ..pre.cursor
                        },
                        message: post.message,
                        ..pre
                    })
                },
                EditView::RowDelete { row, data } => {
                    let n = post.data.spec_rows().len();
                    &&& post.rows.order@ == identity_order(n)
                    &&& restored(pre.data, post.data, row as int, data)
                    &&& says(post.message, "Undo: restored row "@ + decimal(row + 1))
                    &&& post == (App {
                        data: post.data,
                        editing: Editing {
                            undo: post.editing.undo,
                            redo: post.editing.redo,
                            ..pre.editing
                        },
                        rows: Rows { order: post.rows.order, ..pre.rows },
                        cursor: App::in_view(
                            Cursor {
                                selected_row: App::clamped(row as usize, n),
                                ..pre.cursor
                            },
                        ),
                        message: post.message,
                        ..pre
                    })
                },
            }
        }
    }

    #[verifier::rlimit(30)]
    fn undo(&mut self)
        requires
            old(self).wf(),
            old(self).undo_ok(),
        ensures
            App::undo_done(*old(self), *final(self)),
            final(self).wf(),
    {
        proof {
            reveal(order_ok);
        }
        match self.pop_undo() {
            Some(EditAction::CellChange { row, col, old_value, new_value }) => {
                let m = concat3("Undo: cell changed to '", old_value.as_str(), "'");
                self.push_redo(
                    EditAction::CellChange {
                        row,
                        col,
                        old_value: old_value.clone(),
                        new_value: new_value.clone(),
                    },
                );
                self.write_cell(row, col, old_value.as_str());
                self.navigate_to_cell(row, col);
                self.set_message(Some(m));
            },
            Some(EditAction::RowInsert { row, data }) => {
                let m = concat2("Undo: deleted inserted row ", decimal_text(row + 1).as_str());
                self.push_redo(EditAction::RowInsert { row, data });
                self.remove_sheet_row(row);
                self.reset_row_order();
                self.clamp_selection();
                self.set_message(Some(m));
            },
            Some(EditAction::RowDelete { row, data }) => {
                let m = concat2("Undo: restored row ", decimal_text(row + 1).as_str());
                self.push_redo(EditAction::RowDelete { row, data: crate::data::grid::copy_texts(&data) });
                self.insert_filled(row, &data);
                self.reset_row_order();
                self.select_restored(row);
                self.set_message(Some(m));
            },
            None => {
                self.set_message(Some("Nothing to undo".to_owned()));
            },
        }
    }

    /// `post` is `pre` after redoing the edit on top of its redo stack, which
    /// moves back to the undo stack: a cell change writes the new text again
    /// and selects the cell; an added row is inserted again with its cells
    /// and selected; a removed row is removed again, the selection kept
    /// within the rows. After a row edit every row is shown in file order.
    /// With an empty redo stack, `pre` reporting that there is nothing to
    /// redo.
    pub open spec fn redo_done(pre: App, post: App) -> bool {
        if pre.editing.redo@.len() == 0 {
            post == (App { message: post.message, ..pre }) && says(
                post.message,
                "Nothing to redo"@,
            )
        } else {
            let a = edits(pre.editing.redo@).last();
            &&& edits(post.editing.redo@) == edits(pre.editing.redo@).drop_last()
            &&& edits(post.editing.undo@) == edits(pre.editing.undo@).push(a)
            &&& match a {
                EditView::CellChange { row, col, old_value, new_value } => {
                    let mid = App {
                        data: post.data,
                        editing: Editing {
                            undo: post.editing.undo,
                            redo: post.editing.redo,
                            ..pre.editing
                        },
                        ..pre
                    };
                    &&& written(pre.data, post.data, row as int, col as int, new_value)
                    &&& App::navigated(
                        mid,
                        App { message: pre.message, ..post },
                        row as usize,
                        col as usize,
                    )
                    &&& says(post.message, "Redo: cell changed to '"@ + new_value + "'"@)
                },
                EditView::RowInsert { row, data } => {
                    let n = post.data.spec_rows().len();
                    &&& post.rows.order@ == identity_order(n)
                    &&& restored(pre.data, post.data, row as int, data)
                    &&& says(post.message, "Redo: inserted row "@ + decimal(row + 1))
                    &&& post == (App {
                        data: post.data,
                        editing: Editing {
                            undo: post.editing.undo,
                            redo: post.editing.redo,
                            ..pre.editing
                        },
                        rows: Rows { order: post.rows.order, ..pre.rows },
                        cursor: App::in_view(
                            Cursor {
                                selected_row: App::clamped(row as usize, n),
                                ..pre.cursor
                            },
                        ),
                        message: post.message,
                        ..pre
                    })
                },
                EditView::RowDelete { row, data } => {
                    let n = post.data.spec_rows().len();
                    &&& post.rows.order@ == identity_order(n)
                    &&& removed(pre.data, post.data, row as int)
                    &&& says(post.message, "Redo: deleted row "@ + decimal(row + 1))
                    &&& post == (App {
                        data: post.data,
                        editing: Editing {
                            undo: post.editing.undo,
                            redo: post.editing.redo,
                            ..pre.editing
                        },
                        rows: Rows { order: post.rows.order, ..pre.rows },
                        cursor: Cursor {
                            selected_row: App::clamped(pre.cursor.selected_row, n),
                            ..pre.cursor
                        },
                        message: post.message,
                        ..pre
                    })
                },
            }
        }
    }

    #[verifier::rlimit(30)]
    fn redo(&mut self)
        requires
            old(self).wf(),
            old(self).redo_ok(),
        ensures
            App::redo_done(*old(self), *final(self)),
            final(self).wf(),
    {
        proof {
            reveal(order_ok);
        }
        match self.pop_redo() {
            Some(EditAction::CellChange { row, col, old_value, new_value }) => {
                let m = concat3("Redo: cell changed to '", new_value.as_str(), "'");
                self.push_undo(
                    EditAction::CellChange {
                        row,
                        col,
                        old_value: old_value.clone(),
                        new_value: new_value.clone(),
                    },
                );
                self.write_cell(row, col, new_value.as_str());
                self.navigate_to_cell(row, col);
                self.set_message(Some(m));
            },
            Some(EditAction::RowInsert { row, data }) => {
                let m = concat2("Redo: inserted row ", decimal_text(row + 1).as_str());
                self.push_undo(EditAction::RowInsert { row, data: crate::data::grid::copy_texts(&data) });
                self.insert_filled(row, &data);
                self.reset_row_order();
                self.select_restored(row);
                self.set_message(Some(m));
            },
            Some(EditAction::RowDelete { row, data }) => {
                let m = concat2("Redo: deleted row ", decimal_text(row + 1).as_str());
                self.push_undo(EditAction::RowDelete { row, data });
                self.remove_sheet_row(row);
                self.reset_row_order();
                self.clamp_selection();
                self.set_message(Some(m));
            },
            None => {
                self.set_message(Some("Nothing to redo".to_owned()));
            },
        }
    }
}

} // verus!

verus! {

impl App {
    /// Committing the edit buffer changes the selected cell, which exists.
    pub open spec fn edit_changes_cell(self) -> bool {
        let r = self.current_row();
        let c = self.cursor.selected_col as int;
        &&& cell_at(self.data.spec_rows(), r, c) is Some
        &&& cell_or_empty(self.data.spec_rows(), r, c) != self.editing.buffer@
    }

    /// The selected row has one cell per header, and there is at least one.
    pub open spec fn selected_row_full(self) -> bool {
        let row = self.data.spec_rows()[self.current_row()];
        row.len() == self.data.spec_headers().len() && row.len() > 0
    }
}

/// Undo takes back a committed edit: the sheet's cells are as they were
/// before the edit.
pub proof fn law_undo_reverts_edit(a0: App, a1: App, a2: App)
    requires
        a0.wf(),
        a0.has_selection(),
        a0.edit_changes_cell(),
        App::commit_edit_done(a0, a1),
        App::undo_done(a1, a2),
    ensures
        a2.sheet_rows() == a0.sheet_rows(),
{
    reveal(written);
    a0.lemma_current_row();
    let r = a0.current_row();
    let c = a0.cursor.selected_col as int;
    let rows0 = a0.data.spec_rows();
    let rows1 = a1.data.spec_rows();
    let buf = a0.editing.buffer@;
    let old_v = rows0[r][c];
    assert(edits(a1.editing.undo@).last() == (EditView::CellChange {
        row: r as nat,
        col: c as nat,
        old_value: old_v,
        new_value: buf,
    }));
    assert(rows1 == rows0.update(r, rows0[r].update(c, buf)));
    assert(rows1[r] == rows0[r].update(c, buf));
    assert(rows0[r].update(c, buf).update(c, old_v) =~= rows0[r]);
    assert(a2.data.spec_rows() =~= rows0);
}

/// Redo after undo puts a committed edit back: the sheet's cells are as
/// the edit left them.
pub proof fn law_redo_reapplies_edit(a0: App, a1: App, a2: App, a3: App)
    requires
        a0.wf(),
        a0.has_selection(),
        a0.edit_changes_cell(),
        App::commit_edit_done(a0, a1),
        App::undo_done(a1, a2),
        App::redo_done(a2, a3),
    ensures
        a3.sheet_rows() == a1.sheet_rows(),
{
    reveal(written);
    a0.lemma_current_row();
    let r = a0.current_row();
    let c = a0.cursor.selected_col as int;
    let rows0 = a0.data.spec_rows();
    let rows1 = a1.data.spec_rows();
    law_undo_reverts_edit(a0, a1, a2);
    assert(edits(a2.editing.redo@).last() == edits(a1.editing.undo@).last());
    assert(a3.data.spec_rows() =~= rows1);
}

/// Undo takes back a row deletion: the sheet's cells are as they were,
/// where the deleted row had one cell per header (and at least one).
pub proof fn law_undo_restores_deleted_row(a0: App, a1: App, a2: App)
    requires
        a0.wf(),
        a0.has_selection(),
        a0.selected_row_full(),
        App::delete_row_done(a0, a1),
        App::undo_done(a1, a2),
    ensures
        a2.sheet_rows() == a0.sheet_rows(),
{
    reveal(removed);
    reveal(restored);
    a0.lemma_current_row();
    let r = a0.current_row();
    let rows0 = a0.data.spec_rows();
    let w = a0.data.spec_headers().len();
    assert(crate::data::grid::filled_row(rows0[r], w) =~= rows0[r]);
    assert(rows0.remove(r).insert(r, rows0[r]) =~= rows0);
}

/// Redo after undo deletes the row again: the sheet's cells are as the
/// deletion left them.
pub proof fn law_redo_deletes_row_again(a0: App, a1: App, a2: App, a3: App)
    requires
        a0.wf(),
        a0.has_selection(),
        a0.selected_row_full(),
        App::delete_row_done(a0, a1),
        App::undo_done(a1, a2),
        App::redo_done(a2, a3),
    ensures
        a3.sheet_rows() == a1.sheet_rows(),
{
    law_undo_restores_deleted_row(a0, a1, a2);
    reveal(removed);
    assert(edits(a2.editing.redo@).last() == edits(a1.editing.undo@).last());
}

/// Undo takes back a row paste: the sheet's cells are as they were.
pub proof fn law_undo_removes_pasted_row(a0: App, a1: App, a2: App)
    requires
        a0.wf(),
        a0.has_selection(),
        a0.has_copied_row(),
        App::paste_row_done(a0, a1),
        App::undo_done(a1, a2),
    ensures
        a2.sheet_rows() == a0.sheet_rows(),
{
    reveal(restored);
    reveal(removed);
    a0.lemma_current_row();
    let at = a0.current_row() + 1;
    let rows0 = a0.data.spec_rows();
    let v = a0.editing.clipboard_row.unwrap().deep_view();
    let w = a0.data.spec_headers().len();
    assert(rows0.insert(at, crate::data::grid::filled_row(v, w)).remove(at) =~= rows0);
}

/// Redo after undoing a row insertion made inside the sheet inserts the
/// blank row again: the sheet's cells are as the insertion left them.
pub proof fn law_redo_reinserts_row(a0: App, a1: App, a2: App, a3: App, at: int, msg: Seq<char>)
    requires
        a0.wf(),
        0 <= at <= a0.sheet_rows().len(),
        App::row_inserted_at(a0, a1, at, msg),
        App::undo_done(a1, a2),
        App::redo_done(a2, a3),
    ensures
        a3.sheet_rows() == a1.sheet_rows(),
{
    law_undo_removes_inserted_row(a0, a1, a2, at, msg);
    reveal(blank_inserted);
    reveal(restored);
    reveal(removed);
    assert(edits(a2.editing.redo@).last() == edits(a1.editing.undo@).last());
    let w = a0.data.spec_headers().len();
    assert(crate::data::grid::filled_row(seq![], w) =~= blank_row(w));
}

/// Undo takes back a row insertion made inside the sheet: the sheet's cells
/// are as they were.
pub proof fn law_undo_removes_inserted_row(a0: App, a1: App, a2: App, at: int, msg: Seq<char>)
    requires
        a0.wf(),
        0 <= at <= a0.sheet_rows().len(),
        App::row_inserted_at(a0, a1, at, msg),
        App::undo_done(a1, a2),
    ensures
        a2.sheet_rows() == a0.sheet_rows(),
{
    reveal(blank_inserted);
    reveal(removed);
    let rows0 = a0.data.spec_rows();
    let w = a0.data.spec_headers().len();
    assert(rows0.insert(at, blank_row(w)).remove(at) =~= rows0);
}

} // verus!

verus! {

/// The cell at sheet row `r`, column `c` exists and matches.
pub open spec fn cell_hit(
    rows: Seq<Seq<Seq<char>>>,
    r: int,
    c: usize,
    q: Seq<char>,
    case_sensitive: bool,
    regex: bool,
) -> bool {
    cell_at(rows, r, c as int) matches Some(t) && text_matches(t, q, case_sensitive, regex)
}

/// The first of the columns `cols` whose cell in sheet row `r` matches.
pub open spec fn first_hit(
    rows: Seq<Seq<Seq<char>>>,
    r: int,
    cols: Seq<usize>,
    q: Seq<char>,
    case_sensitive: bool,
    regex: bool,
) -> Option<usize>
    decreases cols.len(),
{
    if cols.len() == 0 {
        None
    } else if cell_hit(rows, r, cols[0], q, case_sensitive, regex) {
        Some(cols[0])
    } else {
        first_hit(rows, r, cols.drop_first(), q, case_sensitive, regex)
    }
}

/// The search results over the display order `order`: for each display
/// row, in order, that has a matching cell in one of `cols`, the row and
/// the first such column.
pub open spec fn search_hits(
    rows: Seq<Seq<Seq<char>>>,
    order: Seq<usize>,
    cols: Seq<usize>,
    q: Seq<char>,
    case_sensitive: bool,
    regex: bool,
) -> Seq<(usize, usize)>
    decreases order.len(),
{
    if order.len() == 0 {
        seq![]
    } else {
        let prev = search_hits(rows, order.drop_last(), cols, q, case_sensitive, regex);
        match first_hit(rows, order.last() as int, cols, q, case_sensitive, regex) {
            Some(c) => prev.push(((order.len() - 1) as usize, c)),
            None => prev,
        }
    }
}

/// The first result at or after display row `sel`, or the first result
/// where there is none.
pub open spec fn start_index(results: Seq<(usize, usize)>, sel: usize, i: int) -> int
    decreases results.len() - i,
{
    if i < 0 || i >= results.len() {
        0
    } else if results[i].0 >= sel {
        i
    } else {
        start_index(results, sel, i + 1)
    }
}

proof fn lemma_start_index(results: Seq<(usize, usize)>, sel: usize, i: int)
    requires
        0 <= i,
    ensures
        results.len() > 0 ==> 0 <= start_index(results, sel, i) < results.len(),
    decreases results.len() - i,
{
    if i < results.len() && results[i].0 < sel {
        lemma_start_index(results, sel, i + 1);
    }
}

proof fn lemma_search_hits(
    rows: Seq<Seq<Seq<char>>>,
    order: Seq<usize>,
    cols: Seq<usize>,
    q: Seq<char>,
    cs: bool,
    regex: bool,
    bound: nat,
)
    requires
        forall|i: int| 0 <= i < cols.len() ==> (#[trigger] cols[i]) <= bound,
    ensures
        search_hits(rows, order, cols, q, cs, regex).len() <= order.len(),
        forall|i: int|
            0 <= i < search_hits(rows, order, cols, q, cs, regex).len() ==> (#[trigger] search_hits(
                rows,
                order,
                cols,
                q,
                cs,
                regex,
            )[i]).0 < order.len() && search_hits(rows, order, cols, q, cs, regex)[i].1 <= bound,
    decreases order.len(),
{
    if order.len() > 0 {
        lemma_search_hits(rows, order.drop_last(), cols, q, cs, regex, bound);
        lemma_first_hit(rows, order.last() as int, cols, q, cs, regex, bound);
    }
}

proof fn lemma_first_hit(
    rows: Seq<Seq<Seq<char>>>,
    r: int,
    cols: Seq<usize>,
    q: Seq<char>,
    cs: bool,
    regex: bool,
    bound: nat,
)
    requires
        forall|i: int| 0 <= i < cols.len() ==> (#[trigger] cols[i]) <= bound,
    ensures
        first_hit(rows, r, cols, q, cs, regex) matches Some(c) ==> c <= bound,
    decreases cols.len(),
{
    if cols.len() > 0 && !cell_hit(rows, r, cols[0], q, cs, regex) {
        assert forall|i: int| 0 <= i < cols.drop_first().len() implies (#[trigger] cols.drop_first()[i]) <= bound by {
            assert(cols.drop_first()[i] == cols[i + 1]);
        }
        lemma_first_hit(rows, r, cols.drop_first(), q, cs, regex, bound);
    }
}

/// The first of the columns `cols` whose cell in sheet row `r` matches;
/// in regex mode `compiled` holds the search's expression, where it
/// compiles.
fn row_first_hit(
    data: &DataSourceType,
    r: usize,
    cols: &Vec<usize>,
    q: &Vec<char>,
    lq: &Vec<char>,
    case_sensitive: bool,
    regex: bool,
    compiled: &Option<Pattern>,
) -> (h: Option<usize>)
    requires
        lq@ == lowercase(q@),
        regex ==> (compiled is Some == regex_valid(search_pattern(q@, case_sensitive))),
        compiled matches Some(p) ==> p.source() == search_pattern(q@, case_sensitive),
    ensures
        h == first_hit(data.spec_rows(), r as int, cols@, q@, case_sensitive, regex),
{
    let ghost rows = data.spec_rows();
    let n = cols.len();
    assert(cols@.skip(0) == cols@);
    if regex {
        match compiled {
            None => {
                proof {
                    lemma_first_hit_none(rows, r as int, cols@, q@, case_sensitive);
                }
                None
            },
            Some(re) => {
                let mut k: usize = 0;
                while k < n
                    invariant
                        n == cols@.len(),
                        k <= n,
                        regex,
                        regex_valid(search_pattern(q@, case_sensitive)),
                        re.source() == search_pattern(q@, case_sensitive),
                        first_hit(rows, r as int, cols@, q@, case_sensitive, true) == first_hit(
                            rows,
                            r as int,
                            cols@.skip(k as int),
                            q@,
                            case_sensitive,
                            true,
                        ),
                        rows == data.spec_rows(),
                    decreases n - k,
                {
                    assert(cols@.skip(k as int)[0] == cols@[k as int]);
                    assert(cols@.skip(k as int).drop_first() == cols@.skip(k + 1));
                    if let Some(t) = data.get_cell(r, cols[k]) {
                        if re.is_match(t.as_str()) {
                            assert(cell_hit(rows, r as int, cols@[k as int], q@, case_sensitive, true));
                            assert(first_hit(rows, r as int, cols@.skip(k as int), q@, case_sensitive, true)
                                == Some(cols@[k as int]));
                            return Some(cols[k]);
                        }
                    }
                    k = k + 1;
                }
                assert(cols@.skip(n as int) =~= Seq::<usize>::empty());
                None
            },
        }
    } else {
        let mut k: usize = 0;
        while k < n
            invariant
                n == cols@.len(),
                k <= n,
                !regex,
                lq@ == lowercase(q@),
                first_hit(rows, r as int, cols@, q@, case_sensitive, false) == first_hit(
                    rows,
                    r as int,
                    cols@.skip(k as int),
                    q@,
                    case_sensitive,
                    false,
                ),
                rows == data.spec_rows(),
            decreases n - k,
        {
            assert(cols@.skip(k as int)[0] == cols@[k as int]);
            assert(cols@.skip(k as int).drop_first() == cols@.skip(k + 1));
            if let Some(t) = data.get_cell(r, cols[k]) {
                if plain_match(t.as_str(), q, lq, case_sensitive) {
                    assert(cell_hit(rows, r as int, cols@[k as int], q@, case_sensitive, false));
                    assert(first_hit(rows, r as int, cols@.skip(k as int), q@, case_sensitive, false)
                        == Some(cols@[k as int]));
                    return Some(cols[k]);
                }
            }
            k = k + 1;
        }
        assert(cols@.skip(n as int) =~= Seq::<usize>::empty());
        None
    }
}

proof fn lemma_first_hit_none(rows: Seq<Seq<Seq<char>>>, r: int, cols: Seq<usize>, q: Seq<char>, cs: bool)
    requires
        !regex_valid(search_pattern(q, cs)),
    ensures
        first_hit(rows, r, cols, q, cs, true) is None,
    decreases cols.len(),
{
    if cols.len() > 0 {
        lemma_first_hit_none(rows, r, cols.drop_first(), q, cs);
    }
}

} // verus!

verus! {

/// The search results over the display order: see `search_hits`.
fn compute_hits(
    data: &DataSourceType,
    order: &Vec<usize>,
    cols: &Vec<usize>,
    q: &Vec<char>,
    lq: &Vec<char>,
    case_sensitive: bool,
    regex: bool,
    pattern: &str,
) -> (hits: Vec<(usize, usize)>)
    requires
        lq@ == lowercase(q@),
        pattern@ == search_pattern(q@, case_sensitive),
    ensures
        hits@ == search_hits(data.spec_rows(), order@, cols@, q@, case_sensitive, regex),
{
    let compiled = if regex {
        compile(pattern)
    } else {
        None
    };
    let mut hits: Vec<(usize, usize)> = Vec::new();
    let n = order.len();
    let mut k: usize = 0;
    assert(order@.take(0) =~= Seq::<usize>::empty());
    while k < n
        invariant
            n == order@.len(),
            k <= n,
            lq@ == lowercase(q@),
            pattern@ == search_pattern(q@, case_sensitive),
            regex ==> (compiled is Some == regex_valid(search_pattern(q@, case_sensitive))),
            compiled matches Some(p) ==> p.source() == search_pattern(q@, case_sensitive),
            hits@ == search_hits(data.spec_rows(), order@.take(k as int), cols@, q@, case_sensitive, regex),
        decreases n - k,
    {
        let h = row_first_hit(data, order[k], cols, q, lq, case_sensitive, regex, &compiled);
        assert(order@.take(k + 1).drop_last() == order@.take(k as int));
        assert(order@.take(k + 1).last() == order@[k as int]);
        if let Some(c) = h {
            hits.push((k, c));
        }
        k = k + 1;
    }
    assert(order@.take(n as int) == order@);
    hits
}

impl App {
    /// The columns a search looks in: its own column where it has one,
    /// every column of the sheet otherwise.
    pub open spec fn search_columns(self) -> Seq<usize> {
        match self.search.column {
            Some(c) => seq![c],
            None => identity_order(self.data.spec_headers().len()),
        }
    }

    fn columns_to_search(&self) -> (cols: Vec<usize>)
        requires
            self.wf(),
        ensures
            cols@ == self.search_columns(),
            forall|i: int| 0 <= i < cols@.len() ==> (#[trigger] cols@[i]) <= LIMIT,
    {
        match self.search.column {
            Some(c) => {
                let v = vec![c];
                assert(v@ =~= seq![c]);
                v
            },
            None => identity_vec(self.data.column_count()),
        }
    }

    /// The message for `n` search results, the current one at `i`.
    pub open spec fn found_message(i: int, n: nat) -> Seq<char> {
        "["@ + decimal((i + 1) as nat) + "/"@ + decimal(n) + "] Found "@ + decimal(n) + " matches"@
    }

    /// `post` is `pre` after searching: with an empty query the results are
    /// just emptied; otherwise the results are `search_hits` over the display
    /// order, the searched columns and the query with its options, and where
    /// there are any, the first at or after the selected row (or the first
    /// of all) becomes the current result and is selected, and the count is
    /// reported; where there are none, that is reported.
    #[verifier::opaque]
    pub open spec fn search_done(pre: App, post: App) -> bool {
        let q = pre.search.query@;
        if q.len() == 0 {
            &&& post.search.results@.len() == 0
            &&& post == (App { search: Search { results: post.search.results, ..pre.search }, ..pre })
        } else {
            let hits = search_hits(
                pre.data.spec_rows(),
                pre.rows.order@,
                pre.search_columns(),
                q,
                pre.search.case_sensitive,
                pre.search.regex_mode,
            );
            &&& post.search.results@ == hits
            &&& if hits.len() > 0 {
                let i = start_index(hits, pre.cursor.selected_row, 0);
                &&& post.search.current == i
                &&& post.cursor == App::in_view(
                    Cursor { selected_row: hits[i].0, selected_col: hits[i].1, ..pre.cursor },
                )
                &&& says(post.message, App::found_message(i, hits.len()))
            } else {
                &&& post.search.current == pre.search.current
                &&& post.cursor == pre.cursor
                &&& says(post.message, "No matches found"@)
            }
            &&& post == (App {
                search: Search {
                    results: post.search.results,
                    current: post.search.current,
                    ..pre.search
                },
                cursor: post.cursor,
                message: post.message,
                ..pre
            })
        }
    }

    fn set_results(&mut self, results: Vec<(usize, usize)>, current: usize)
        ensures
            *final(self) == (App { search: Search { results, current, ..old(self).search }, ..*old(self) }),
    {
        self.search.results = results;
        self.search.current = current;
    }

    #[verifier::rlimit(40)]
    fn perform_search(&mut self)
        requires
            old(self).wf(),
        ensures
            App::search_done(*old(self), *final(self)),
            final(self).wf(),
            *final(self) == (App {
                search: final(self).search,
                cursor: final(self).cursor,
                message: final(self).message,
                ..*old(self)
            }),
            final(self).search.query == old(self).search.query,
    {
        reveal(App::search_done);
        let q = chars_of(self.search.query.as_str());
        if q.len() == 0 {
            let cur = self.search.current;
            self.set_results(Vec::new(), cur);
            proof {
                reveal(results_ok);
            }
            return;
        }
        let lower = to_lowercase(self.search.query.as_str());
        let lq = chars_of(lower.as_str());
        let cols = self.columns_to_search();
        let cs = self.search.case_sensitive;
        let pattern = if cs {
            self.search.query.clone()
        } else {
            concat2("(?i)", self.search.query.as_str())
        };
        let hits = compute_hits(
            &self.data,
            &self.rows.order,
            &cols,
            &q,
            &lq,
            cs,
            self.search.regex_mode,
            pattern.as_str(),
        );
        proof {
            lemma_search_hits(
                self.data.spec_rows(),
                self.rows.order@,
                cols@,
                q@,
                cs,
                self.search.regex_mode,
                LIMIT as nat,
            );
            reveal(order_ok);
            lemma_start_index(hits@, self.cursor.selected_row, 0);
        }
        let count = hits.len();
        if count > 0 {
            let sel = self.cursor.selected_row;
            let mut i: usize = 0;
            while i < count && hits[i].0 < sel
                invariant
                    count == hits@.len(),
                    i <= count,
                    sel == self.cursor.selected_row,
                    start_index(hits@, sel, 0) == start_index(hits@, sel, i as int),
                decreases count - i,
            {
                i = i + 1;
            }
            let start = if i < count {
                i
            } else {
                0
            };
            let (row, col) = hits[start];
            let mut c = self.cursor;
            c.selected_row = row;
            c.selected_col = col;
            let mut m = "[".to_owned();
            append_str(&mut m, decimal_text(start + 1).as_str());
            append_str(&mut m, "/");
            append_str(&mut m, decimal_text(count).as_str());
            append_str(&mut m, "] Found ");
            append_str(&mut m, decimal_text(count).as_str());
            append_str(&mut m, " matches");
            self.set_results(hits, start);
            self.set_cursor(c);
            self.ensure_selection_visible();
            self.set_message(Some(m));
        } else {
            let cur = self.search.current;
            self.set_results(hits, cur);
            self.set_message(Some("No matches found".to_owned()));
        }
        proof {
            reveal(results_ok);
        }
    }
}

} // verus!

verus! {

/// Replacing in the cell at sheet row `r`, column `c`, where it exists and
/// matches: the cells with the replacement written and the edit recorded
/// after `acc`'s edits; `acc` where the cell does not match; `None` where
/// `replacement` gives no text.
pub open spec fn replace_cell(
    acc: (Seq<Seq<Seq<char>>>, Seq<EditView>),
    r: int,
    c: usize,
    q: Seq<char>,
    rep: Seq<char>,
    cs: bool,
    regex: bool,
) -> Option<(Seq<Seq<Seq<char>>>, Seq<EditView>)> {
    match cell_at(acc.0, r, c as int) {
        Some(v) => if text_matches(v, q, cs, regex) {
            match replacement(v, q, rep, cs, regex) {
                Some(nv) => Some(
                    (
                        cell_written(acc.0, r, c as int, nv),
                        acc.1.push(
                            EditView::CellChange { row: r as nat, col: c as nat, old_value: v, new_value: nv },
                        ),
                    ),
                ),
                None => None,
            }
        } else {
            Some(acc)
        },
        None => Some(acc),
    }
}

/// Replace-all over sheet row `r`: each of the columns `cols` in turn.
pub open spec fn replace_in_row(
    acc: (Seq<Seq<Seq<char>>>, Seq<EditView>),
    r: int,
    cols: Seq<usize>,
    q: Seq<char>,
    rep: Seq<char>,
    cs: bool,
    regex: bool,
) -> Option<(Seq<Seq<Seq<char>>>, Seq<EditView>)>
    decreases cols.len(),
{
    if cols.len() == 0 {
        Some(acc)
    } else {
        match replace_in_row(acc, r, cols.drop_last(), q, rep, cs, regex) {
            Some(a) => replace_cell(a, r, cols.last(), q, rep, cs, regex),
            None => None,
        }
    }
}

/// Replace-all over the display order `order`: each row in turn, and in it
/// each of the columns `cols`. The cells afterwards and the edits made, in
/// order, or `None` where `replacement` gives no text for a cell.
pub open spec fn replace_in_rows(
    acc: (Seq<Seq<Seq<char>>>, Seq<EditView>),
    order: Seq<usize>,
    cols: Seq<usize>,
    q: Seq<char>,
    rep: Seq<char>,
    cs: bool,
    regex: bool,
) -> Option<(Seq<Seq<Seq<char>>>, Seq<EditView>)>
    decreases order.len(),
{
    if order.len() == 0 {
        Some(acc)
    } else {
        match replace_in_rows(acc, order.drop_last(), cols, q, rep, cs, regex) {
            Some(a) => replace_in_row(a, order.last() as int, cols, q, rep, cs, regex),
            None => None,
        }
    }
}

proof fn lemma_row_prefix(
    acc: (Seq<Seq<Seq<char>>>, Seq<EditView>),
    r: int,
    cols: Seq<usize>,
    q: Seq<char>,
    rep: Seq<char>,
    cs: bool,
    regex: bool,
    k: int,
)
    requires
        0 <= k <= cols.len(),
        replace_in_row(acc, r, cols, q, rep, cs, regex) is Some,
    ensures
        replace_in_row(acc, r, cols.take(k), q, rep, cs, regex) is Some,
    decreases cols.len(),
{
    if k == cols.len() {
        assert(cols.take(k) =~= cols);
    } else {
        assert(cols.drop_last().take(k) =~= cols.take(k));
        lemma_row_prefix(acc, r, cols.drop_last(), q, rep, cs, regex, k);
    }
}

proof fn lemma_rows_prefix(
    acc: (Seq<Seq<Seq<char>>>, Seq<EditView>),
    order: Seq<usize>,
    cols: Seq<usize>,
    q: Seq<char>,
    rep: Seq<char>,
    cs: bool,
    regex: bool,
    k: int,
)
    requires
        0 <= k <= order.len(),
        replace_in_rows(acc, order, cols, q, rep, cs, regex) is Some,
    ensures
        replace_in_rows(acc, order.take(k), cols, q, rep, cs, regex) is Some,
    decreases order.len(),
{
    if k == order.len() {
        assert(order.take(k) =~= order);
    } else {
        assert(order.drop_last().take(k) =~= order.take(k));
        lemma_rows_prefix(acc, order.drop_last(), cols, q, rep, cs, regex, k);
    }
}

impl App {
    /// Replacing the current search result can run: where there is one and
    /// a query, its display row is shown, and `replacement` gives a text
    /// for its cell, where that matches.
    pub open spec fn replace_current_ok(self) -> bool {
        let res = self.search.results@;
        res.len() > 0 && self.replace.query@.len() > 0 ==> {
            let (d, c) = res[self.search.current as int];
            &&& d < self.rows.order@.len()
            &&& replace_cell(
                (self.data.spec_rows(), seq![]),
                self.rows.order@[d as int] as int,
                c,
                self.replace.query@,
                self.replace.with@,
                self.search.case_sensitive,
                self.search.regex_mode,
            ) is Some
        }
    }

    /// `post` is `pre` after replacing in the current search result: where
    /// there is a result and a query and the result's cell matches the
    /// query, the cell holds its replacement, the change is recorded for
    /// undo, the redo stack emptied and the replacement reported; otherwise
    /// `pre`.
    pub open spec fn replace_current_done(pre: App, post: App) -> bool {
        let res = pre.search.results@;
        if res.len() == 0 || pre.replace.query@.len() == 0 {
            post == pre
        } else {
            let (d, c) = res[pre.search.current as int];
            let r = pre.rows.order@[d as int] as int;
            let q = pre.replace.query@;
            let w = pre.replace.with@;
            let cs = pre.search.case_sensitive;
            let rx = pre.search.regex_mode;
            match cell_at(pre.data.spec_rows(), r, c as int) {
                Some(v) => if text_matches(v, q, cs, rx) {
                    let nv = replacement(v, q, w, cs, rx)->0;
                    &&& written(pre.data, post.data, r, c as int, nv)
                    &&& edits(post.editing.undo@) == edits(pre.editing.undo@).push(
                        EditView::CellChange { row: r as nat, col: c as nat, old_value: v, new_value: nv },
                    )
                    &&& post.editing.redo@.len() == 0
                    &&& says(post.message, "Replaced: '"@ + v + "' with '"@ + nv + "'"@)
                    &&& post == (App {
                        data: post.data,
                        editing: Editing {
                            undo: post.editing.undo,
                            redo: post.editing.redo,
                            ..pre.editing
                        },
                        message: post.message,
                        ..pre
                    })
                } else {
                    post == pre
                },
                None => post == pre,
            }
        }
    }

    #[verifier::rlimit(30)]
    fn replace_current(&mut self)
        requires
            old(self).wf(),
            old(self).replace_current_ok(),
        ensures
            App::replace_current_done(*old(self), *final(self)),
            final(self).wf(),
    {
        if self.search.results.len() == 0 || self.replace.query.as_str().is_empty() {
            return;
        }
        proof {
            reveal(results_ok);
            reveal(order_ok);
        }
        let (d, col) = self.search.results[self.search.current];
        let row = self.rows.order[d];
        let cs = self.search.case_sensitive;
        let rx = self.search.regex_mode;
        if let Some(cell) = self.data.get_cell(row, col) {
            if cell_matches(cell.as_str(), self.replace.query.as_str(), cs, rx) {
                let nv = match replacement_text(
                    cell.as_str(),
                    self.replace.query.as_str(),
                    self.replace.with.as_str(),
                    cs,
                    rx,
                ) {
                    Some(t) => t,
                    None => {
                        proof {
                            assert(false);
                        }
                        String::new()
                    },
                };
                let mut m = "Replaced: '".to_owned();
                append_str(&mut m, cell.as_str());
                append_str(&mut m, "' with '");
                append_str(&mut m, nv.as_str());
                append_str(&mut m, "'");
                let nv2 = nv.clone();
                self.record(EditAction::CellChange { row, col, old_value: cell, new_value: nv2 });
                self.write_cell(row, col, nv.as_str());
                self.set_message(Some(m));
            }
        }
    }
}

} // verus!

verus! {

impl App {
    /// What replace-all makes of the sheet: `replace_in_rows` over the
    /// display order and the searched columns, from the sheet's cells and
    /// no edits.
    pub open spec fn replace_all_outcome(self) -> Option<(Seq<Seq<Seq<char>>>, Seq<EditView>)> {
        replace_in_rows(
            (self.data.spec_rows(), seq![]),
            self.rows.order@,
            self.search_columns(),
            self.replace.query@,
            self.replace.with@,
            self.search.case_sensitive,
            self.search.regex_mode,
        )
    }

    /// Replace-all can run: where there are results and a query,
    /// `replacement` gives a text for every cell it replaces in.
    pub open spec fn replace_all_ok(self) -> bool {
        self.search.results@.len() > 0 && self.replace.query@.len() > 0
            ==> self.replace_all_outcome() is Some
    }

    /// `post` is `pre` after replace-all: where there are results and a
    /// query, every matching cell of the searched columns, display row by
    /// display row, holds its replacement, each change is recorded for undo
    /// in that order, and the count is reported (the redo stack emptied
    /// where it is not zero); otherwise `pre`.
    pub open spec fn replace_all_done(pre: App, post: App) -> bool {
        if pre.search.results@.len() == 0 || pre.replace.query@.len() == 0 {
            post == pre
        } else {
            let out = pre.replace_all_outcome()->0;
            let n = out.1.len();
            &&& post.data.spec_rows() == out.0
            &&& post.data.same_sheet(&pre.data)
            &&& post.data.spec_modified() == (pre.data.spec_modified() || n > 0)
            &&& edits(post.editing.undo@) == edits(pre.editing.undo@) + out.1
            &&& if n > 0 {
                &&& post.editing.redo@.len() == 0
                &&& says(post.message, "Replaced "@ + decimal(n) + " occurrences"@)
            } else {
                &&& post.editing.redo == pre.editing.redo
                &&& says(post.message, "No matches found for replace"@)
            }
            &&& post == (App {
                data: post.data,
                editing: Editing {
                    undo: post.editing.undo,
                    redo: post.editing.redo,
                    ..pre.editing
                },
                message: post.message,
                ..pre
            })
        }
    }

    /// Replaces the matches in one sheet row, column by column.
    #[verifier::rlimit(30)]
    fn replace_row(&mut self, r: usize, cols: &Vec<usize>, Ghost(out0): Ghost<Seq<EditView>>)
        requires
            stack_ok(old(self).editing.undo@),
            r <= LIMIT,
            forall|i: int| 0 <= i < cols@.len() ==> (#[trigger] cols@[i]) <= LIMIT,
            replace_in_row(
                (old(self).data.spec_rows(), out0),
                r as int,
                cols@,
                old(self).replace.query@,
                old(self).replace.with@,
                old(self).search.case_sensitive,
                old(self).search.regex_mode,
            ) is Some,
            old(self).replace.query@.len() > 0,
        ensures
            ({
                let out = replace_in_row(
                    (old(self).data.spec_rows(), out0),
                    r as int,
                    cols@,
                    old(self).replace.query@,
                    old(self).replace.with@,
                    old(self).search.case_sensitive,
                    old(self).search.regex_mode,
                )->0;
                &&& final(self).data.spec_rows() == out.0
                &&& out.1 == out0 + edits(final(self).editing.undo@).skip(edits(old(self).editing.undo@).len() as int)
            }),
            edits(final(self).editing.undo@).subrange(0, edits(old(self).editing.undo@).len() as int) == edits(old(self).editing.undo@),
            final(self).data.same_sheet(&old(self).data),
            final(self).data.spec_rows().len() == old(self).data.spec_rows().len(),
            final(self).data.spec_modified() == (old(self).data.spec_modified() || edits(final(self).editing.undo@).len() > edits(old(self).editing.undo@).len()),
            edits(final(self).editing.undo@).len() >= edits(old(self).editing.undo@).len(),
            stack_ok(final(self).editing.undo@),
            *final(self) == (App {
                data: final(self).data,
                editing: Editing { undo: final(self).editing.undo, ..old(self).editing },
                ..*old(self)
            }),
    {
        let ghost pre = *self;
        let ghost q = self.replace.query@;
        let ghost w = self.replace.with@;
        let cs = self.search.case_sensitive;
        let rx = self.search.regex_mode;
        let n = cols.len();
        let mut j: usize = 0;
        assert(cols@.take(0) =~= Seq::<usize>::empty());
        while j < n
            invariant
                n == cols@.len(),
                j <= n,
                r <= LIMIT,
                forall|i: int| 0 <= i < cols@.len() ==> (#[trigger] cols@[i]) <= LIMIT,
                q == pre.replace.query@,
                w == pre.replace.with@,
                q.len() > 0,
                cs == pre.search.case_sensitive,
                rx == pre.search.regex_mode,
                replace_in_row((pre.data.spec_rows(), out0), r as int, cols@, q, w, cs, rx) is Some,
                replace_in_row((pre.data.spec_rows(), out0), r as int, cols@.take(j as int), q, w, cs, rx)
                    == Some((self.data.spec_rows(), out0 + edits(self.editing.undo@).skip(edits(pre.editing.undo@).len() as int))),
                edits(self.editing.undo@).subrange(0, edits(pre.editing.undo@).len() as int) == edits(pre.editing.undo@),
                edits(self.editing.undo@).len() >= edits(pre.editing.undo@).len(),
                stack_ok(self.editing.undo@),
                self.data.same_sheet(&pre.data),
                self.data.spec_rows().len() == pre.data.spec_rows().len(),
                self.data.spec_modified() == (pre.data.spec_modified() || edits(self.editing.undo@).len() > edits(pre.editing.undo@).len()),
                *self == (App {
                    data: self.data,
                    editing: Editing { undo: self.editing.undo, ..pre.editing },
                    ..pre
                }),
            decreases n - j,
        {
            let ghost k0 = edits(pre.editing.undo@).len() as int;
            let ghost prev = out0 + edits(self.editing.undo@).skip(k0);
            proof {
                lemma_row_prefix((pre.data.spec_rows(), out0), r as int, cols@, q, w, cs, rx, j + 1);
                assert(cols@.take(j + 1).drop_last() =~= cols@.take(j as int));
                assert(cols@.take(j + 1).last() == cols@[j as int]);
            }
            let c = cols[j];
            if let Some(cell) = self.data.get_cell(r, c) {
                if cell_matches(cell.as_str(), self.replace.query.as_str(), cs, rx) {
                    let nv = match replacement_text(
                        cell.as_str(),
                        self.replace.query.as_str(),
                        self.replace.with.as_str(),
                        cs,
                        rx,
                    ) {
                        Some(t) => t,
                        None => {
                            proof {
                                assert(false);
                            }
                            String::new()
                        },
                    };
                    let ghost before = *self;
                    let nv2 = nv.clone();
                    self.push_undo(EditAction::CellChange { row: r, col: c, old_value: cell, new_value: nv2 });
                    self.write_cell(r, c, nv.as_str());
                    proof {
                        reveal(written);
                        assert(edits(self.editing.undo@).subrange(0, k0) =~= edits(pre.editing.undo@)) by {
                            assert(edits(self.editing.undo@).subrange(0, k0) =~= edits(before.editing.undo@).subrange(0, k0));
                        }
                        assert(edits(self.editing.undo@).skip(k0) =~= edits(before.editing.undo@).skip(k0).push(
                            edits(self.editing.undo@).last(),
                        ));
                        assert(prev.push(edits(self.editing.undo@).last()) =~= out0 + edits(self.editing.undo@).skip(k0));
                    }
                }
            }
            j = j + 1;
        }
        assert(cols@.take(n as int) =~= cols@);
    }
}

} // verus!

verus! {

impl App {
    #[verifier::rlimit(30)]
    fn replace_all(&mut self)
        requires
            old(self).wf(),
            old(self).replace_all_ok(),
        ensures
            App::replace_all_done(*old(self), *final(self)),
            final(self).wf(),
    {
        if self.search.results.len() == 0 || self.replace.query.as_str().is_empty() {
            return;
        }
        let ghost pre = *self;
        let ghost k0 = edits(pre.editing.undo@).len() as int;
        let cols = self.columns_to_search();
        let ghost q = self.replace.query@;
        let ghost w = self.replace.with@;
        let ghost cs = self.search.case_sensitive;
        let ghost rx = self.search.regex_mode;
        let ghost rows0 = self.data.spec_rows();
        let order = self.rows.order.clone();
        let n = order.len();
        let start = self.editing.undo.len();
        proof {
            reveal(order_ok);
            assert(order@.take(0) =~= Seq::<usize>::empty());
            assert(edits(self.editing.undo@).skip(k0) =~= Seq::<EditView>::empty());
            assert(edits(self.editing.undo@).subrange(0, k0) =~= edits(pre.editing.undo@));
        }
        let mut k: usize = 0;
        while k < n
            invariant
                n == order@.len(),
                order@ == pre.rows.order@,
                k <= n,
                forall|i: int| 0 <= i < order@.len() ==> (#[trigger] order@[i]) < rows0.len(),
                rows0.len() <= LIMIT,
                rows0 == pre.data.spec_rows(),
                cols@ == pre.search_columns(),
                forall|i: int| 0 <= i < cols@.len() ==> (#[trigger] cols@[i]) <= LIMIT,
                q == pre.replace.query@,
                w == pre.replace.with@,
                q.len() > 0,
                cs == pre.search.case_sensitive,
                rx == pre.search.regex_mode,
                k0 == edits(pre.editing.undo@).len(),
                start == k0,
                replace_in_rows((rows0, seq![]), order@, cols@, q, w, cs, rx) is Some,
                replace_in_rows((rows0, seq![]), order@.take(k as int), cols@, q, w, cs, rx)
                    == Some((self.data.spec_rows(), edits(self.editing.undo@).skip(k0))),
                edits(self.editing.undo@).subrange(0, k0) == edits(pre.editing.undo@),
                edits(self.editing.undo@).len() >= k0,
                stack_ok(self.editing.undo@),
                self.data.same_sheet(&pre.data),
                self.data.spec_rows().len() == rows0.len(),
                self.data.spec_modified() == (pre.data.spec_modified() || edits(self.editing.undo@).len() > k0),
                *self == (App {
                    data: self.data,
                    editing: Editing { undo: self.editing.undo, ..pre.editing },
                    ..pre
                }),
            decreases n - k,
        {
            proof {
                lemma_rows_prefix((rows0, seq![]), order@, cols@, q, w, cs, rx, k + 1);
                assert(order@.take(k + 1).drop_last() =~= order@.take(k as int));
                assert(order@.take(k + 1).last() == order@[k as int]);
            }
            let ghost mid = *self;
            self.replace_row(order[k], &cols, Ghost(edits(self.editing.undo@).skip(k0)));
            proof {
                let k1 = edits(mid.editing.undo@).len() as int;
                assert(edits(self.editing.undo@).subrange(0, k0) =~= edits(self.editing.undo@).subrange(0, k1).subrange(0, k0));
                assert(edits(self.editing.undo@).skip(k0) =~= edits(mid.editing.undo@).skip(k0) + edits(self.editing.undo@).skip(k1)) by {
                    assert(edits(self.editing.undo@).subrange(0, k1) == edits(mid.editing.undo@));
                }
            }
            k = k + 1;
        }
        proof {
            assert(order@.take(n as int) =~= order@);
            assert(edits(self.editing.undo@) =~= edits(pre.editing.undo@) + edits(self.editing.undo@).skip(k0)) by {
                assert(edits(self.editing.undo@) =~= edits(self.editing.undo@).subrange(0, k0) + edits(self.editing.undo@).skip(k0));
            }
        }
        let count = self.editing.undo.len() - start;
        if count > 0 {
            self.editing.redo.clear();
            proof {
                lemma_stack_empty(self.editing.redo@);
            }
            let mut m = "Replaced ".to_owned();
            append_str(&mut m, decimal_text(count).as_str());
            append_str(&mut m, " occurrences");
            self.set_message(Some(m));
        } else {
            self.set_message(Some("No matches found for replace".to_owned()));
        }
        proof {
            reveal(order_ok);
        }
    }
}

} // verus!

verus! {

/// The sort key of sheet row `r`: its cell, or the empty text, in each of
/// the sort columns `sc`.
pub open spec fn sort_key(rows: Seq<Seq<Seq<char>>>, r: int, sc: Seq<(usize, bool)>) -> Seq<Seq<char>> {
    Seq::new(sc.len(), |k: int| cell_or_empty(rows, r, sc[k].0 as int))
}

/// The sort keys of the rows of the display order `order`, by position.
pub open spec fn sort_keys(rows: Seq<Seq<Seq<char>>>, order: Seq<usize>, sc: Seq<(usize, bool)>) -> Seq<
    Seq<Seq<char>>,
> {
    Seq::new(order.len(), |p: int| sort_key(rows, order[p] as int, sc))
}

/// Whether each sort column sorts ascending.
pub open spec fn sort_dirs(sc: Seq<(usize, bool)>) -> Seq<bool> {
    Seq::new(sc.len(), |k: int| sc[k].1)
}

/// The first sort column from `i` on that is `col`.
pub open spec fn column_index(sc: Seq<(usize, bool)>, col: usize, i: int) -> Option<int>
    decreases sc.len() - i,
{
    if i < 0 || i >= sc.len() {
        None
    } else if sc[i].0 == col {
        Some(i)
    } else {
        column_index(sc, col, i + 1)
    }
}

/// The sort columns after sorting by `col`: a column already sorted by
/// turns the other way, another is added, ascending, after the others.
pub open spec fn toggled_columns(sc: Seq<(usize, bool)>, col: usize) -> Seq<(usize, bool)> {
    match column_index(sc, col, 0) {
        Some(i) => sc.update(i, (col, !sc[i].1)),
        None => sc.push((col, true)),
    }
}

/// How a sort column is shown: its number from 1, then `asc` or `desc`.
pub open spec fn column_label(c: (usize, bool)) -> Seq<char> {
    decimal((c.0 + 1) as nat) + ":"@ + if c.1 {
        "asc"@
    } else {
        "desc"@
    }
}

/// The message after sorting by `sc`.
pub open spec fn sorted_message(sc: Seq<(usize, bool)>) -> Seq<char> {
    "Sorted by ["@ + joined(Seq::new(sc.len(), |k: int| column_label(sc[k])), ", "@) + "]"@
}

/// `new_order` is `order` sorted by the keys of `sc`: the stable
/// arrangement of its positions.
pub open spec fn sorted_by(
    rows: Seq<Seq<Seq<char>>>,
    order: Seq<usize>,
    sc: Seq<(usize, bool)>,
    new_order: Seq<usize>,
) -> bool {
    exists|pos: Seq<usize>|
        arranged(pos, sort_keys(rows, order, sc), sort_dirs(sc), order.len()) && new_order == Seq::new(
            order.len(),
            |i: int| order[pos[i] as int],
        )
}

/// A copy of the sort columns.
fn copy_columns(v: &Vec<(usize, bool)>) -> (r: Vec<(usize, bool)>)
    ensures
        r@ == v@,
{
    let mut r: Vec<(usize, bool)> = Vec::new();
    let mut i: usize = 0;
    while i < v.len()
        invariant
            i <= v@.len(),
            r@ == v@.take(i as int),
        decreases v@.len() - i,
    {
        r.push(v[i]);
        i = i + 1;
        assert(r@ =~= v@.take(i as int));
    }
    assert(v@.take(i as int) =~= v@);
    r
}

impl App {
    /// `post` is `pre` sorted by the selected column as well: the sort
    /// columns toggled (see `toggled_columns`), the display order sorted by
    /// them (see `sorted_by`), the first row selected and shown, and the
    /// sort columns reported.
    pub open spec fn toggle_sort_done(pre: App, post: App) -> bool {
        let sc = toggled_columns(pre.rows.sort_columns@, pre.cursor.selected_col);
        &&& post.rows.sort_columns@ == sc
        &&& sorted_by(pre.data.spec_rows(), pre.rows.order@, sc, post.rows.order@)
        &&& post.cursor == (Cursor { selected_row: 0, scroll_offset: 0, ..pre.cursor })
        &&& says(post.message, sorted_message(sc))
        &&& post == (App { rows: post.rows, cursor: post.cursor, message: post.message, ..pre })
    }

    #[verifier::rlimit(30)]
    fn toggle_sort(&mut self)
        requires
            old(self).wf(),
        ensures
            App::toggle_sort_done(*old(self), *final(self)),
            final(self).wf(),
    {
        let ghost pre = *self;
        let col = self.cursor.selected_col;
        let mut sc = copy_columns(&self.rows.sort_columns);
        let nsc = sc.len();
        let mut i: usize = 0;
        while i < nsc && sc[i].0 != col
            invariant
                i <= nsc,
                nsc == sc@.len(),
                sc@ == pre.rows.sort_columns@,
                column_index(sc@, col, 0) == column_index(sc@, col, i as int),
            decreases nsc - i,
        {
            i = i + 1;
        }
        if i < nsc {
            let asc = sc[i].1;
            sc.set(i, (col, !asc));
        } else {
            sc.push((col, true));
        }
        assert(sc@ == toggled_columns(pre.rows.sort_columns@, col));
        let ghost rows = self.data.spec_rows();
        let n = self.rows.order.len();
        let mut keys: Vec<Vec<Vec<char>>> = Vec::new();
        let mut p: usize = 0;
        while p < n
            invariant
                p <= n,
                n == self.rows.order@.len(),
                rows == self.data.spec_rows(),
                *self == pre,
                keys@.len() == p,
                forall|x: int| 0 <= x < p ==> (#[trigger] keys@[x])@.len() == sc@.len(),
                forall|x: int| 0 <= x < p ==> (#[trigger] keys.deep_view()[x]) == sort_key(rows, self.rows.order@[x] as int, sc@),
            decreases n - p,
        {
            let r = self.rows.order[p];
            let mut key: Vec<Vec<char>> = Vec::new();
            let mut k: usize = 0;
            while k < sc.len()
                invariant
                    k <= sc@.len(),
                    key@.len() == k,
                    rows == self.data.spec_rows(),
                    forall|y: int| 0 <= y < k ==> (#[trigger] key.deep_view()[y]) == cell_or_empty(rows, r as int, sc@[y].0 as int),
                decreases sc@.len() - k,
            {
                let text = match self.data.get_cell(r, sc[k].0) {
                    Some(t) => chars_of(t.as_str()),
                    None => Vec::new(),
                };
                let ghost kd = key.deep_view();
                key.push(text);
                proof {
                    assert forall|y: int| 0 <= y < k + 1 implies (#[trigger] key.deep_view()[y]) == cell_or_empty(rows, r as int, sc@[y].0 as int) by {
                        if y < k {
                            assert(key.deep_view()[y] == kd[y]);
                        }
                    }
                }
                k = k + 1;
            }
            proof {
                assert(key.deep_view() =~= sort_key(rows, r as int, sc@));
            }
            let ghost kv0 = keys.deep_view();
            keys.push(key);
            proof {
                assert forall|x: int| 0 <= x < p + 1 implies (#[trigger] keys.deep_view()[x]) == sort_key(rows, self.rows.order@[x] as int, sc@) by {
                    if x < p {
                        assert(keys.deep_view()[x] == kv0[x]);
                    }
                }
            }
            p = p + 1;
        }
        let mut dirs: Vec<bool> = Vec::new();
        let mut k: usize = 0;
        while k < sc.len()
            invariant
                k <= sc@.len(),
                dirs@ == sort_dirs(sc@).take(k as int),
            decreases sc@.len() - k,
        {
            dirs.push(sc[k].1);
            k = k + 1;
            assert(dirs@ =~= sort_dirs(sc@).take(k as int));
        }
        proof {
            assert(dirs@ =~= sort_dirs(sc@));
            assert(keys.deep_view() =~= sort_keys(rows, self.rows.order@, sc@));
        }
        let pos = sort_positions(&keys, &dirs);
        let mut order: Vec<usize> = Vec::new();
        let mut j: usize = 0;
        while j < n
            invariant
                j <= n,
                n == self.rows.order@.len(),
                *self == pre,
                pos@.len() == n,
                forall|x: int| 0 <= x < n ==> (#[trigger] pos@[x]) < n,
                order@ == Seq::new(j as nat, |x: int| self.rows.order@[pos@[x] as int]),
            decreases n - j,
        {
            order.push(self.rows.order[pos[j]]);
            j = j + 1;
            assert(order@ =~= Seq::new(j as nat, |x: int| self.rows.order@[pos@[x] as int]));
        }
        proof {
            let keysv = sort_keys(rows, pre.rows.order@, sc@);
            let dv = sort_dirs(sc@);
            assert(order@ == Seq::new(n as nat, |x: int| pre.rows.order@[pos@[x] as int]));
            reveal(order_ok);
            assert forall|x: int, y: int| 0 <= x < order@.len() && 0 <= y < order@.len() && x != y implies order@[x] != order@[y] by {
                lemma_precedes(keysv, dv, pos@[x] as int, pos@[y] as int, 0);
                if x < y {
                    assert(precedes(keysv, dv, pos@[x] as int, pos@[y] as int));
                } else {
                    assert(precedes(keysv, dv, pos@[y] as int, pos@[x] as int));
                    lemma_precedes(keysv, dv, pos@[y] as int, pos@[x] as int, 0);
                }
            }
            assert(order_ok(order@, rows.len()));
            reveal(columns_ok);
            assert forall|x: int| 0 <= x < sc@.len() implies (#[trigger] sc@[x]).0 <= LIMIT by {
                if x < pre.rows.sort_columns@.len() {
                    assert(sc@[x].0 == col || sc@[x] == pre.rows.sort_columns@[x]);
                }
            }
        }
        let mut labels: Vec<String> = Vec::new();
        let mut k: usize = 0;
        proof {
            reveal(columns_ok);
        }
        while k < sc.len()
            invariant
                k <= sc@.len(),
                columns_ok(sc@),
                labels@.len() == k,
                forall|y: int| 0 <= y < k ==> (#[trigger] labels@[y])@ == column_label(sc@[y]),
            decreases sc@.len() - k,
        {
            proof {
                reveal(columns_ok);
                assert(sc@[k as int].0 <= LIMIT);
            }
            let (c, a) = sc[k];
            let mut l = decimal_text(c + 1);
            append_str(&mut l, ":");
            if a {
                append_str(&mut l, "asc");
            } else {
                append_str(&mut l, "desc");
            }
            labels.push(l);
            k = k + 1;
        }
        assert(labels.deep_view() =~= Seq::new(sc@.len(), |y: int| column_label(sc@[y])));
        let mut m = "Sorted by [".to_owned();
        append_str(&mut m, join_text(&labels, ", ").as_str());
        append_str(&mut m, "]");
        self.rows.sort_columns = sc;
        self.set_order(order);
        let mut c = self.cursor;
        c.selected_row = 0;
        c.scroll_offset = 0;
        self.set_cursor(c);
        self.set_message(Some(m));
    }

    /// `post` is `pre` with no sort: every row shown in file order, the
    /// first row selected and shown, and that reported.
    pub open spec fn clear_sort_done(pre: App, post: App) -> bool {
        &&& post.rows.sort_columns@.len() == 0
        &&& post.rows.order@ == identity_order(pre.data.spec_rows().len())
        &&& post.cursor == (Cursor { selected_row: 0, scroll_offset: 0, ..pre.cursor })
        &&& says(post.message, "Sort cleared"@)
        &&& post == (App { rows: post.rows, cursor: post.cursor, message: post.message, ..pre })
    }

    fn clear_sort(&mut self)
        requires
            old(self).wf(),
        ensures
            App::clear_sort_done(*old(self), *final(self)),
            final(self).wf(),
    {
        proof {
            reveal(order_ok);
        }
        self.rows.sort_columns = Vec::new();
        self.reset_row_order();
        let mut c = self.cursor;
        c.selected_row = 0;
        c.scroll_offset = 0;
        self.set_cursor(c);
        self.set_message(Some("Sort cleared".to_owned()));
        proof {
            reveal(columns_ok);
        }
    }
}

} // verus!

verus! {

/// `v` is a non-empty text of column `col` in a row of the display order.
pub open spec fn shown_value(rows: Seq<Seq<Seq<char>>>, order: Seq<usize>, col: usize, v: Seq<char>) -> bool {
    v.len() > 0 && exists|i: int| 0 <= i < order.len() && cell_at(rows, order[i] as int, col as int) == Some(v)
}

/// The message that tells how the filter popup is used.
pub open spec fn filter_help() -> Seq<char> {
    "Filter mode: SPACE=toggle, Enter=apply, Esc=cancel"@
}

impl App {
    /// `post` is `pre` after the filter command: an open filter popup
    /// closes; with a filter applied, the popup opens on it again; otherwise
    /// the popup opens on the selected column, offering its non-empty texts
    /// in the shown rows, each once, sorted, all ticked, where there are
    /// any, and reports that there are none where there are not.
    pub open spec fn toggle_column_filter_done(pre: App, post: App) -> bool {
        if pre.modes.filter_mode {
            &&& post == (App { modes: Modes { filter_mode: false, ..pre.modes }, message: post.message, ..pre })
            &&& says(post.message, "Filter popup closed"@)
        } else if pre.filter.active {
            &&& post == (App {
                modes: Modes { filter_mode: true, ..pre.modes },
                filter: Filter { cursor: 0, ..pre.filter },
                message: post.message,
                ..pre
            })
            &&& says(post.message, filter_help())
        } else {
            let col = pre.cursor.selected_col;
            let rows = pre.data.spec_rows();
            if exists|v: Seq<char>| shown_value(rows, pre.rows.order@, col, v) {
                let vals = post.filter.values.deep_view();
                &&& strictly_sorted(vals)
                &&& forall|v: Seq<char>| vals.contains(v) <==> shown_value(rows, pre.rows.order@, col, v)
                &&& post.filter.selected@ == Seq::new(vals.len(), |i: int| true)
                &&& post == (App {
                    modes: Modes { filter_mode: true, ..pre.modes },
                    filter: Filter {
                        col: Some(col),
                        values: post.filter.values,
                        selected: post.filter.selected,
                        cursor: 0,
                        ..pre.filter
                    },
                    message: post.message,
                    ..pre
                })
                &&& says(post.message, filter_help())
            } else {
                &&& post == (App { message: post.message, ..pre })
                &&& says(post.message, "No filter values in column"@)
            }
        }
    }

    #[verifier::rlimit(80)]
    fn toggle_column_filter(&mut self)
        requires
            old(self).wf(),
        ensures
            App::toggle_column_filter_done(*old(self), *final(self)),
            final(self).wf(),
    {
        if self.modes.filter_mode {
            let mut m = self.modes;
            m.filter_mode = false;
            self.set_modes(m);
            self.set_message(Some("Filter popup closed".to_owned()));
            return;
        }
        if self.filter.active {
            let mut m = self.modes;
            m.filter_mode = true;
            self.set_modes(m);
            self.filter.cursor = 0;
            self.set_message(Some("Filter mode: SPACE=toggle, Enter=apply, Esc=cancel".to_owned()));
            return;
        }
        let ghost pre = *self;
        let ghost rows = self.data.spec_rows();
        let col = self.cursor.selected_col;
        let n = self.rows.order.len();
        let mut texts: Vec<String> = Vec::new();
        let mut k: usize = 0;
        while k < n
            invariant
                k <= n,
                n == self.rows.order@.len(),
                *self == pre,
                rows == pre.data.spec_rows(),
                col == pre.cursor.selected_col,
                texts@.len() <= k,
                forall|v: Seq<char>| texts.deep_view().contains(v) <==> (v.len() > 0 && exists|i: int|
                    0 <= i < k && cell_at(rows, self.rows.order@[i] as int, col as int) == Some(v)),
            decreases n - k,
        {
            let ghost td = texts.deep_view();
            if let Some(t) = self.data.get_cell(self.rows.order[k], col) {
                if !t.as_str().is_empty() {
                    texts.push(t);
                    proof {
                        assert(texts.deep_view() =~= td.push(t@));
                    }
                }
            }
            proof {
                assert forall|v: Seq<char>| texts.deep_view().contains(v) <==> (v.len() > 0 && exists|i: int|
                    0 <= i < k + 1 && cell_at(rows, self.rows.order@[i] as int, col as int) == Some(v)) by {
                    if texts.deep_view().contains(v) && !td.contains(v) {
                        assert(cell_at(rows, self.rows.order@[k as int] as int, col as int) == Some(v));
                    }
                    if v.len() > 0 && exists|i: int|
                        0 <= i < k + 1 && cell_at(rows, self.rows.order@[i] as int, col as int) == Some(v) {
                        let i = choose|i: int|
                            0 <= i < k + 1 && cell_at(rows, self.rows.order@[i] as int, col as int) == Some(v);
                        if i == k {
                            assert(texts.deep_view().last() == v);
                        } else {
                            assert(exists|i2: int|
                                0 <= i2 < k && cell_at(rows, self.rows.order@[i2] as int, col as int) == Some(v));
                            assert(td.contains(v));
                            let y = choose|y: int| 0 <= y < td.len() && td[y] == v;
                            assert(texts.deep_view()[y] == v);
                        }
                    }
                }
            }
            k = k + 1;
        }
        let values = sorted_unique(&texts);
        proof {
            reveal(order_ok);
        }
        if values.len() == 0 {
            proof {
                assert forall|v: Seq<char>| !shown_value(rows, pre.rows.order@, col, v) by {
                    if shown_value(rows, pre.rows.order@, col, v) {
                        assert(texts.deep_view().contains(v));
                        assert(values.deep_view().contains(v));
                    }
                }
            }
            self.set_message(Some("No filter values in column".to_owned()));
            return;
        }
        proof {
            let v0 = values.deep_view()[0];
            assert(values.deep_view().contains(v0));
            assert(shown_value(rows, pre.rows.order@, col, v0));
        }
        let nv = values.len();
        let mut selected: Vec<bool> = Vec::new();
        let mut i: usize = 0;
        while i < nv
            invariant
                i <= nv,
                selected@ == Seq::new(i as nat, |x: int| true),
            decreases nv - i,
        {
            selected.push(true);
            i = i + 1;
            assert(selected@ =~= Seq::new(i as nat, |x: int| true));
        }
        let mut m = self.modes;
        m.filter_mode = true;
        self.set_modes(m);
        self.filter.col = Some(col);
        self.filter.values = values;
        self.filter.selected = selected;
        self.filter.cursor = 0;
        self.set_message(Some("Filter mode: SPACE=toggle, Enter=apply, Esc=cancel".to_owned()));
    }
}

} // verus!

verus! {

/// Sheet row `r` holds, in column `col`, one of the ticked values.
pub open spec fn passes_filter(
    rows: Seq<Seq<Seq<char>>>,
    r: int,
    col: usize,
    values: Seq<Seq<char>>,
    ticked: Seq<bool>,
) -> bool {
    cell_at(rows, r, col as int) matches Some(v) && exists|i: int|
        0 <= i < values.len() && i < ticked.len() && ticked[i] && values[i] == v
}

/// The characters of each text.
fn char_lists(texts: &Vec<String>) -> (v: Vec<Vec<char>>)
    ensures
        v.deep_view() == texts.deep_view(),
{
    let mut v: Vec<Vec<char>> = Vec::new();
    let mut i: usize = 0;
    while i < texts.len()
        invariant
            i <= texts@.len(),
            v@.len() == i,
            forall|x: int| 0 <= x < i ==> (#[trigger] v@[x])@ == texts@[x]@,
        decreases texts@.len() - i,
    {
        v.push(chars_of(texts[i].as_str()));
        i = i + 1;
    }
    assert forall|x: int| 0 <= x < i implies (#[trigger] v.deep_view()[x]) == texts.deep_view()[x] by {
        assert(v@[x].deep_view() =~= v@[x]@);
    }
    assert(v.deep_view() =~= texts.deep_view());
    v
}

/// The rows of the display order `order` that pass the filter, in order.
pub open spec fn filtered(
    rows: Seq<Seq<Seq<char>>>,
    order: Seq<usize>,
    col: usize,
    values: Seq<Seq<char>>,
    ticked: Seq<bool>,
) -> Seq<usize>
    decreases order.len(),
{
    if order.len() == 0 {
        seq![]
    } else {
        let prev = filtered(rows, order.drop_last(), col, values, ticked);
        if passes_filter(rows, order.last() as int, col, values, ticked) {
            prev.push(order.last())
        } else {
            prev
        }
    }
}

proof fn lemma_filtered(
    rows: Seq<Seq<Seq<char>>>,
    order: Seq<usize>,
    col: usize,
    values: Seq<Seq<char>>,
    ticked: Seq<bool>,
)
    requires
        distinct(order),
    ensures
        distinct(filtered(rows, order, col, values, ticked)),
        filtered(rows, order, col, values, ticked).len() <= order.len(),
        forall|i: int|
            0 <= i < filtered(rows, order, col, values, ticked).len() ==> order.contains(
                #[trigger] filtered(rows, order, col, values, ticked)[i],
            ),
    decreases order.len(),
{
    if order.len() > 0 {
        let d = order.drop_last();
        assert(distinct(d)) by {
            assert forall|i: int, j: int| 0 <= i < d.len() && 0 <= j < d.len() && i != j implies d[i] != d[j] by {
                assert(d[i] == order[i] && d[j] == order[j]);
            }
        }
        lemma_filtered(rows, d, col, values, ticked);
        let prev = filtered(rows, d, col, values, ticked);
        let f = filtered(rows, order, col, values, ticked);
        assert forall|i: int| 0 <= i < prev.len() implies order.contains(#[trigger] prev[i]) by {
            let j = choose|j: int| 0 <= j < d.len() && d[j] == prev[i];
            assert(order[j] == prev[i]);
        }
        if passes_filter(rows, order.last() as int, col, values, ticked) {
            assert forall|i: int| 0 <= i < prev.len() implies prev[i] != order.last() by {
                let j = choose|j: int| 0 <= j < d.len() && d[j] == prev[i];
                assert(order[j] == prev[i]);
                assert(j != order.len() - 1);
            }
            assert forall|i: int| 0 <= i < f.len() implies order.contains(#[trigger] f[i]) by {
                if i < prev.len() {
                    assert(f[i] == prev[i]);
                } else {
                    assert(order[order.len() - 1] == f[i]);
                }
            }
            assert forall|i: int, j: int| 0 <= i < f.len() && 0 <= j < f.len() && i != j implies f[i] != f[j] by {
                if i < prev.len() && j < prev.len() {
                    assert(f[i] == prev[i] && f[j] == prev[j]);
                } else if i < prev.len() {
                    assert(f[i] == prev[i]);
                } else if j < prev.len() {
                    assert(f[j] == prev[j]);
                }
            }
        }
    }
}

impl App {
    /// The column the filter looks at: its own, or the first.
    pub open spec fn filter_column(self) -> usize {
        match self.filter.col {
            Some(c) => c,
            None => 0,
        }
    }

    /// `post` is `pre` with the filter applied: the display order keeps the
    /// rows that hold a ticked value in the filter's column, in order; the
    /// filter counts as applied where that leaves out rows of the sheet; the
    /// first row is selected and shown.
    pub open spec fn apply_filter_done(pre: App, post: App) -> bool {
        let order = filtered(
            pre.data.spec_rows(),
            pre.rows.order@,
            pre.filter_column(),
            pre.filter.values.deep_view(),
            pre.filter.selected@,
        );
        &&& post.rows.order@ == order
        &&& post.filter.active == (order.len() < pre.data.spec_rows().len())
        &&& post.cursor == (Cursor { selected_row: 0, scroll_offset: 0, ..pre.cursor })
        &&& post == (App {
            rows: Rows { order: post.rows.order, ..pre.rows },
            filter: Filter { active: post.filter.active, ..pre.filter },
            cursor: post.cursor,
            ..pre
        })
    }

    #[verifier::rlimit(30)]
    fn apply_filter(&mut self)
        requires
            old(self).wf(),
        ensures
            App::apply_filter_done(*old(self), *final(self)),
            final(self).wf(),
    {
        let ghost pre = *self;
        let ghost rows = self.data.spec_rows();
        let col = match self.filter.col {
            Some(c) => c,
            None => 0,
        };
        let ghost vals = self.filter.values.deep_view();
        let sorted = char_lists(&self.filter.values);
        let n = self.rows.order.len();
        let mut order: Vec<usize> = Vec::new();
        let mut k: usize = 0;
        assert(self.rows.order@.take(0) =~= Seq::<usize>::empty());
        while k < n
            invariant
                k <= n,
                n == self.rows.order@.len(),
                *self == pre,
                rows == pre.data.spec_rows(),
                vals == pre.filter.values.deep_view(),
                col == pre.filter_column(),
                self.filter.selected@.len() == self.filter.values@.len(),
                sorted.deep_view() == vals,
                strictly_sorted(vals),
                order@ == filtered(rows, self.rows.order@.take(k as int), col, vals, self.filter.selected@),
            decreases n - k,
        {
            let r = self.rows.order[k];
            let mut pass = false;
            if let Some(v) = self.data.get_cell(r, col) {
                let vc = chars_of(v.as_str());
                match find_sorted(&sorted, vc.as_slice()) {
                    Some(i) => {
                        pass = self.filter.selected[i];
                        proof {
                            assert forall|x: int| 0 <= x < vals.len() && vals[x] == v@ implies x == i by {
                                if x < i {
                                    assert(text_order(vals[x], vals[i as int]) == Order::Less);
                                    lemma_text_order_refl(vals[x]);
                                } else if x > i {
                                    assert(text_order(vals[i as int], vals[x]) == Order::Less);
                                    lemma_text_order_refl(vals[x]);
                                }
                            }
                        }
                    },
                    None => {},
                }
            }
            proof {
                assert(self.rows.order@.take(k + 1).drop_last() =~= self.rows.order@.take(k as int));
                assert(self.rows.order@.take(k + 1).last() == r);
                assert(pass == passes_filter(rows, r as int, col, vals, self.filter.selected@));
            }
            if pass {
                order.push(r);
            }
            k = k + 1;
        }
        proof {
            assert(self.rows.order@.take(n as int) =~= self.rows.order@);
            reveal(order_ok);
            lemma_filtered(rows, self.rows.order@, col, vals, self.filter.selected@);
            assert forall|i: int| 0 <= i < order@.len() implies (#[trigger] order@[i]) < rows.len() by {
                let j = choose|j: int| 0 <= j < self.rows.order@.len() && self.rows.order@[j] == order@[i];
            }
        }
        let active = order.len() < self.data.row_count();
        self.set_order(order);
        self.filter.active = active;
        let mut c = self.cursor;
        c.selected_row = 0;
        c.scroll_offset = 0;
        self.set_cursor(c);
    }
}

} // verus!

verus! {

/// The text by which rows are told apart: the key (see `cells_key`) of the
/// cells of the sheet row shown at each display position. Two rows have
/// the same key exactly when they hold the same cells
/// (`lemma_shown_keys_tell_rows`).
pub open spec fn display_keys(rows: Seq<Seq<Seq<char>>>, order: Seq<usize>) -> Seq<Seq<char>> {
    Seq::new(order.len(), |d: int| cells_key(rows[order[d] as int]))
}

/// The positions below `n` whose key is `k`, in order.
pub open spec fn positions_with(keys: Seq<Seq<char>>, k: Seq<char>, n: int) -> Seq<usize>
    decreases n,
{
    if n <= 0 {
        seq![]
    } else {
        let prev = positions_with(keys, k, n - 1);
        if keys[n - 1] == k {
            prev.push((n - 1) as usize)
        } else {
            prev
        }
    }
}

/// No position before `d` has `d`'s key.
pub open spec fn first_of_key(keys: Seq<Seq<char>>, d: int) -> bool {
    forall|e: int| 0 <= e < d ==> keys[e] != keys[d]
}

/// The positions below `n` that are the first with their key, in order.
pub open spec fn leaders(keys: Seq<Seq<char>>, n: int) -> Seq<usize>
    decreases n,
{
    if n <= 0 {
        seq![]
    } else {
        let prev = leaders(keys, n - 1);
        if first_of_key(keys, n - 1) {
            prev.push((n - 1) as usize)
        } else {
            prev
        }
    }
}

/// For each of the leaders `ls` whose key occurs more than once among the
/// first `n` positions: the leader and all the positions with its key.
pub open spec fn groups_of(keys: Seq<Seq<char>>, ls: Seq<usize>, n: int) -> Seq<(usize, Seq<usize>)>
    decreases ls.len(),
{
    if ls.len() == 0 {
        seq![]
    } else {
        let prev = groups_of(keys, ls.drop_last(), n);
        let ms = positions_with(keys, keys[ls.last() as int], n);
        if ms.len() > 1 {
            prev.push((ls.last(), ms))
        } else {
            prev
        }
    }
}

/// The groups of display positions with the same key, that is, whose rows
/// hold the same cells: for each key held by more than one shown row, the
/// first position holding it and all of them, in order; the groups in the
/// order of their first positions.
pub open spec fn duplicate_groups(keys: Seq<Seq<char>>) -> Seq<(usize, Seq<usize>)> {
    groups_of(keys, leaders(keys, keys.len() as int), keys.len() as int)
}

/// How many rows repeat one shown before them: each group's size less one.
pub open spec fn repeats(groups: Seq<(usize, Seq<usize>)>) -> int
    decreases groups.len(),
{
    if groups.len() == 0 {
        0
    } else {
        repeats(groups.drop_last()) + groups.last().1.len() - 1
    }
}

impl App {
    /// The keys of the shown rows.
    pub open spec fn shown_keys(self) -> Seq<Seq<char>> {
        display_keys(self.data.spec_rows(), self.rows.order@)
    }

    /// Two shown rows have the same key exactly when they hold the same
    /// cells.
    pub proof fn lemma_shown_keys_tell_rows(self, d: int, e: int)
        requires
            0 <= d < self.order().len(),
            0 <= e < self.order().len(),
        ensures
            (self.shown_keys()[d] == self.shown_keys()[e]) <==> (self.sheet_rows()[self.order()[d] as int]
                == self.sheet_rows()[self.order()[e] as int]),
    {
        let rows = self.data.spec_rows();
        let o = self.rows.order@;
        if self.shown_keys()[d] == self.shown_keys()[e] {
            lemma_cells_key_injective(rows[o[d] as int], rows[o[e] as int]);
        }
    }
}

/// A copy of a list of positions.
fn copy_positions(v: &Vec<usize>) -> (r: Vec<usize>)
    ensures
        r@ == v@,
{
    let mut r: Vec<usize> = Vec::new();
    let mut i: usize = 0;
    while i < v.len()
        invariant
            i <= v@.len(),
            r@ == v@.take(i as int),
        decreases v@.len() - i,
    {
        r.push(v[i]);
        i = i + 1;
        assert(r@ =~= v@.take(i as int));
    }
    assert(v@.take(i as int) =~= v@);
    r
}

/// Every position below `n` has a leader with its key.
proof fn lemma_leader_of(keys: Seq<Seq<char>>, n: int, e: int)
    requires
        0 <= e < n <= LIMIT,
    ensures
        exists|x: int| 0 <= x < leaders(keys, n).len() && keys[#[trigger] leaders(keys, n)[x] as int] == keys[e],
    decreases n,
{
    if e < n - 1 {
        lemma_leader_of(keys, n - 1, e);
        let x = choose|x: int| 0 <= x < leaders(keys, n - 1).len() && keys[#[trigger] leaders(keys, n - 1)[x] as int] == keys[e];
        assert(leaders(keys, n)[x] == leaders(keys, n - 1)[x]);
    } else if first_of_key(keys, e) {
        assert(leaders(keys, n).last() == e);
    } else {
        let f = choose|f: int| 0 <= f < e && keys[f] == keys[e];
        lemma_leader_of(keys, n - 1, f);
        let x = choose|x: int| 0 <= x < leaders(keys, n - 1).len() && keys[#[trigger] leaders(keys, n - 1)[x] as int] == keys[f];
        assert(leaders(keys, n)[x] == leaders(keys, n - 1)[x]);
    }
}

proof fn lemma_positions_none(keys: Seq<Seq<char>>, k: Seq<char>, n: int)
    requires
        forall|e: int| 0 <= e < n ==> keys[e] != k,
    ensures
        positions_with(keys, k, n) == Seq::<usize>::empty(),
    decreases n,
{
    if n > 0 {
        lemma_positions_none(keys, k, n - 1);
    }
}

proof fn lemma_positions_start(keys: Seq<Seq<char>>, k: Seq<char>, d: int, n: int)
    requires
        0 <= d < n <= LIMIT,
        keys[d] == k,
        forall|e: int| 0 <= e < d ==> keys[e] != k,
    ensures
        positions_with(keys, k, n).len() > 0,
        positions_with(keys, k, n)[0] == d,
    decreases n,
{
    if n - 1 > d {
        lemma_positions_start(keys, k, d, n - 1);
    } else {
        lemma_positions_none(keys, k, d);
    }
}

} // verus!

verus! {

/// The groups as positions and their members.
pub open spec fn group_list(v: Seq<(usize, Vec<usize>)>) -> Seq<(usize, Seq<usize>)> {
    Seq::new(v.len(), |i: int| (v[i].0, v[i].1@))
}

impl App {
    /// `post` is `pre` with duplicate highlighting switched: on, with the
    /// duplicate groups of the shown rows and how many rows repeat an
    /// earlier one reported; off, with the groups dropped and that
    /// reported.
    pub open spec fn toggle_duplicates_done(pre: App, post: App) -> bool {
        &&& post.duplicates.highlight == !pre.duplicates.highlight
        &&& if !pre.duplicates.highlight {
            let gs = duplicate_groups(pre.shown_keys());
            &&& group_list(post.duplicates.groups@) == gs
            &&& says(post.message, "Found "@ + decimal(repeats(gs) as nat) + " duplicate rows"@)
        } else {
            &&& post.duplicates.groups@.len() == 0
            &&& says(post.message, "Duplicate highlight cleared"@)
        }
        &&& post == (App { duplicates: post.duplicates, message: post.message, ..pre })
    }

    #[verifier::rlimit(30)]
    fn toggle_duplicate_highlight(&mut self)
        requires
            old(self).wf(),
        ensures
            App::toggle_duplicates_done(*old(self), *final(self)),
            final(self).wf(),
    {
        if !self.duplicates.highlight {
            let groups = self.find_duplicate_rows();
            let ghost gs = duplicate_groups(self.shown_keys());
            let ng = groups.len();
            let mut count: usize = 0;
            let mut i: usize = 0;
            assert(gs.take(0) =~= Seq::<(usize, Seq<usize>)>::empty());
            proof {
                let keys = self.shown_keys();
                lemma_groups_of_sizes(keys, leaders(keys, keys.len() as int), keys.len() as int);
                assert forall|x: int| 0 <= x <= ng implies repeats(#[trigger] gs.take(x)) <= LIMIT by {
                    lemma_repeats_prefix(gs, x);
                }
            }
            while i < ng
                invariant
                    i <= ng,
                    ng == groups@.len(),
                    ng == gs.len(),
                    gs == duplicate_groups(self.shown_keys()),
                    forall|x: int| 0 <= x < groups@.len() ==> (#[trigger] groups@[x]).1@ == gs[x].1,
                    forall|x: int| 0 <= x <= ng ==> repeats(#[trigger] gs.take(x)) <= LIMIT,
                    forall|x: int| 0 <= x < ng ==> (#[trigger] gs[x]).1.len() > 1,
                    count == repeats(gs.take(i as int)),
                decreases ng - i,
            {
                proof {
                    assert(gs.take(i + 1).drop_last() =~= gs.take(i as int));
                    assert(groups@[i as int].1@ == gs[i as int].1);
                    assert(repeats(gs.take(i + 1)) <= LIMIT);
                    lemma_repeats_step(gs, i as int);
                }
                let m = groups[i].1.len();
                count = count + m - 1;
                i = i + 1;
            }
            proof {
                assert(gs.take(ng as int) =~= gs);
                assert(group_list(groups@) =~= gs);
            }
            let mut m = "Found ".to_owned();
            append_str(&mut m, decimal_text(count).as_str());
            append_str(&mut m, " duplicate rows");
            self.duplicates.highlight = true;
            self.duplicates.groups = groups;
            self.set_message(Some(m));
        } else {
            self.duplicates.highlight = false;
            self.duplicates.groups = Vec::new();
            self.set_message(Some("Duplicate highlight cleared".to_owned()));
        }
    }

    /// Where a search has results: `post` is `pre` with the next result
    /// (after the last, the first) current, selected and shown, and its
    /// place reported; otherwise `pre`.
    pub open spec fn jump_next_done(pre: App, post: App) -> bool {
        let res = pre.search.results@;
        if res.len() == 0 {
            post == pre
        } else {
            let i = (pre.search.current + 1) % (res.len() as int);
            App::jumped(pre, post, i)
        }
    }

    /// Where a search has results: `post` is `pre` with the previous result
    /// (before the first, the last) current, selected and shown, and its
    /// place reported; otherwise `pre`.
    pub open spec fn jump_prev_done(pre: App, post: App) -> bool {
        let res = pre.search.results@;
        if res.len() == 0 {
            post == pre
        } else {
            let i = if pre.search.current == 0 {
                res.len() - 1
            } else {
                pre.search.current - 1
            };
            App::jumped(pre, post, i)
        }
    }

    /// `post` is `pre` with search result `i` current, selected and shown,
    /// and `[i+1/n]` reported.
    pub open spec fn jumped(pre: App, post: App, i: int) -> bool {
        let res = pre.search.results@;
        &&& post == (App {
            search: Search { current: i as usize, ..pre.search },
            cursor: App::in_view(Cursor { selected_row: res[i].0, selected_col: res[i].1, ..pre.cursor }),
            message: post.message,
            ..pre
        })
        &&& says(post.message, "["@ + decimal((i + 1) as nat) + "/"@ + decimal(res.len()) + "]"@)
    }

    fn jump_to(&mut self, i: usize)
        requires
            old(self).wf(),
            i < old(self).search.results@.len(),
        ensures
            App::jumped(*old(self), *final(self), i as int),
            final(self).wf(),
    {
        proof {
            reveal(results_ok);
        }
        let (row, col) = self.search.results[i];
        let total = self.search.results.len();
        self.search.current = i;
        let mut c = self.cursor;
        c.selected_row = row;
        c.selected_col = col;
        self.set_cursor(c);
        self.ensure_selection_visible();
        let mut m = "[".to_owned();
        append_str(&mut m, decimal_text(i + 1).as_str());
        append_str(&mut m, "/");
        append_str(&mut m, decimal_text(total).as_str());
        append_str(&mut m, "]");
        self.set_message(Some(m));
        proof {
            reveal(results_ok);
        }
    }

    fn jump_to_next_search_result(&mut self)
        requires
            old(self).wf(),
        ensures
            App::jump_next_done(*old(self), *final(self)),
            final(self).wf(),
    {
        proof {
            reveal(results_ok);
        }
        let n = self.search.results.len();
        if n == 0 {
            return;
        }
        let i = (self.search.current + 1) % n;
        self.jump_to(i);
    }

    fn jump_to_prev_search_result(&mut self)
        requires
            old(self).wf(),
        ensures
            App::jump_prev_done(*old(self), *final(self)),
            final(self).wf(),
    {
        proof {
            reveal(results_ok);
        }
        let n = self.search.results.len();
        if n == 0 {
            return;
        }
        let i = if self.search.current == 0 {
            n - 1
        } else {
            self.search.current - 1
        };
        self.jump_to(i);
    }

    /// The number of rows shown.
    pub fn effective_row_count(&self) -> (n: usize)
        ensures
            n == self.order().len(),
    {
        self.rows.order.len()
    }

    /// `post` is `pre` a page up: the selected row moves up by a page, to
    /// the first row at most, and is shown.
    pub open spec fn page_up_done(pre: App, post: App) -> bool {
        let s = pre.cursor.selected_row;
        let t = if s > VISIBLE_ROWS {
            (s - VISIBLE_ROWS) as usize
        } else {
            0usize
        };
        post == (App { cursor: App::in_view(Cursor { selected_row: t, ..pre.cursor }), ..pre })
    }

    fn page_up(&mut self)
        requires
            old(self).wf(),
        ensures
            App::page_up_done(*old(self), *final(self)),
            final(self).wf(),
    {
        let mut c = self.cursor;
        if c.selected_row > VISIBLE_ROWS {
            c.selected_row = c.selected_row - VISIBLE_ROWS;
        } else {
            c.selected_row = 0;
        }
        self.set_cursor(c);
        self.ensure_selection_visible();
    }

    /// `post` is `pre` a page down: the selected row moves down by a page,
    /// to the last shown row at most, and is shown.
    pub open spec fn page_down_done(pre: App, post: App) -> bool {
        let s = pre.cursor.selected_row;
        let last = last_index(pre.rows.order@.len());
        let t = if s + VISIBLE_ROWS < last {
            (s + VISIBLE_ROWS) as usize
        } else {
            last as usize
        };
        post == (App { cursor: App::in_view(Cursor { selected_row: t, ..pre.cursor }), ..pre })
    }

    fn page_down(&mut self)
        requires
            old(self).wf(),
        ensures
            App::page_down_done(*old(self), *final(self)),
            final(self).wf(),
    {
        proof {
            reveal(order_ok);
        }
        let n = self.rows.order.len();
        let last = if n > 0 {
            n - 1
        } else {
            0
        };
        let mut c = self.cursor;
        if c.selected_row + VISIBLE_ROWS < last {
            c.selected_row = c.selected_row + VISIBLE_ROWS;
        } else {
            c.selected_row = last;
        }
        self.set_cursor(c);
        self.ensure_selection_visible();
    }
}

proof fn lemma_groups_of_sizes(keys: Seq<Seq<char>>, ls: Seq<usize>, n: int)
    ensures
        forall|i: int| 0 <= i < groups_of(keys, ls, n).len() ==> (#[trigger] groups_of(keys, ls, n)[i]).1.len() > 1,
    decreases ls.len(),
{
    if ls.len() > 0 {
        lemma_groups_of_sizes(keys, ls.drop_last(), n);
        let prev = groups_of(keys, ls.drop_last(), n);
        let cur = groups_of(keys, ls, n);
        assert forall|i: int| 0 <= i < cur.len() implies (#[trigger] cur[i]).1.len() > 1 by {
            if i < prev.len() {
                assert(cur[i] == prev[i]);
            }
        }
    }
}

proof fn lemma_repeats_prefix(gs: Seq<(usize, Seq<usize>)>, x: int)
    requires
        0 <= x <= gs.len(),
        forall|i: int| 0 <= i < gs.len() ==> (#[trigger] gs[i]).1.len() > 1,
    ensures
        repeats(gs.take(x)) <= repeats(gs),
    decreases gs.len(),
{
    if x < gs.len() {
        assert(gs.drop_last().take(x) =~= gs.take(x));
        assert forall|i: int| 0 <= i < gs.drop_last().len() implies (#[trigger] gs.drop_last()[i]).1.len() > 1 by {
            assert(gs.drop_last()[i] == gs[i]);
        }
        lemma_repeats_prefix(gs.drop_last(), x);
        assert(gs[gs.len() - 1].1.len() > 1);
    } else {
        assert(gs.take(x) =~= gs);
    }
}

proof fn lemma_repeats_step(gs: Seq<(usize, Seq<usize>)>, i: int)
    requires
        0 <= i < gs.len(),
    ensures
        repeats(gs.take(i + 1)) == repeats(gs.take(i)) + gs[i].1.len() - 1,
{
    assert(gs.take(i + 1).drop_last() =~= gs.take(i));
}

} // verus!

verus! {

/// The sheet data after asking to show sheet `index` with `loaded` read
/// for it (see `DataSourceType::switch_sheet`): a text file stays as it
/// is; a workbook stays as it is where there is no such sheet, and
/// otherwise shows that sheet, with the cells read where reading worked
/// and its former cells where it did not.
pub open spec fn data_switched(
    pre: DataSourceType,
    post: DataSourceType,
    index: usize,
    loaded: Result<Vec<Vec<String>>, String>,
) -> bool {
    match pre {
        DataSourceType::Csv(_) => post == pre,
        DataSourceType::Excel(_) => if index >= pre.spec_sheet_names().len() {
            post == pre
        } else {
            &&& post is Excel
            &&& post.spec_current_sheet() == index
            &&& post.spec_sheet_names() == pre.spec_sheet_names()
            &&& post.spec_file_path() == pre.spec_file_path()
            &&& post.spec_file_name() == pre.spec_file_name()
            &&& match loaded {
                Ok(cells) => post.spec_headers() == header_of(cells.deep_view()) && post.spec_rows()
                    == body_of(cells.deep_view()) && !post.spec_modified(),
                Err(_) => post.spec_headers() == pre.spec_headers() && post.spec_rows() == pre.spec_rows()
                    && post.spec_modified() == pre.spec_modified(),
            }
        },
    }
}

/// Why showing sheet `index` fails, where it does.
pub open spec fn switch_error(pre: DataSourceType, index: usize, loaded: Result<Vec<Vec<String>>, String>) -> Option<
    Seq<char>,
> {
    match pre {
        DataSourceType::Csv(_) => if index == 0 {
            None
        } else {
            Some("CSV has only one sheet"@)
        },
        DataSourceType::Excel(_) => if index >= pre.spec_sheet_names().len() {
            Some("Sheet index out of bounds"@)
        } else {
            match loaded {
                Ok(_) => None,
                Err(e) => Some(e@),
            }
        },
    }
}

impl App {
    /// The sheet after the current one, or the first after the last, in a
    /// workbook of more than one sheet.
    pub open spec fn next_sheet_index(self) -> Option<usize> {
        let n = self.data.spec_sheet_names().len();
        if n > 1 {
            Some(((self.data.spec_current_sheet() as int + 1) % (n as int)) as usize)
        } else {
            None
        }
    }

    /// The sheet before the current one, or the last before the first, in
    /// a workbook of more than one sheet.
    pub open spec fn prev_sheet_index(self) -> Option<usize> {
        let n = self.data.spec_sheet_names().len();
        if n > 1 {
            Some(
                if self.data.spec_current_sheet() == 0 {
                    (n - 1) as usize
                } else {
                    (self.data.spec_current_sheet() - 1) as usize
                },
            )
        } else {
            None
        }
    }

    /// Asks for the next sheet to be read, where there is one to go to.
    fn next_sheet(&self) -> (effect: Effect)
        ensures
            match self.next_sheet_index() {
                Some(i) => effect == (Effect::LoadSheet { index: i }),
                None => effect is Nothing,
            },
    {
        let n = self.data.sheet_count();
        if n > 1 {
            let cur = self.data.current_sheet();
            proof {
                assert(cur < n || cur >= n);
            }
            let next = if cur >= n - 1 {
                if cur == n - 1 {
                    0
                } else {
                    ((cur % n) + 1) % n
                }
            } else {
                cur + 1
            };
            proof {
                if cur < n - 1 {
                    assert((cur as int + 1) % (n as int) == cur + 1) by (nonlinear_arith)
                        requires
                            cur + 1 < n,
                    ;
                } else if cur == n - 1 {
                    assert((cur as int + 1) % (n as int) == 0) by (nonlinear_arith)
                        requires
                            cur + 1 == n,
                            n > 1,
                    ;
                } else {
                    assert(((cur as int % (n as int)) + 1) % (n as int) == (cur as int + 1) % (n as int)) by (nonlinear_arith)
                        requires
                            n > 1,
                    ;
                }
            }
            Effect::LoadSheet { index: next }
        } else {
            Effect::Nothing
        }
    }

    /// Asks for the previous sheet to be read, where there is one to go to.
    fn prev_sheet(&self) -> (effect: Effect)
        ensures
            match self.prev_sheet_index() {
                Some(i) => effect == (Effect::LoadSheet { index: i }),
                None => effect is Nothing,
            },
    {
        let n = self.data.sheet_count();
        if n > 1 {
            let cur = self.data.current_sheet();
            let prev = if cur == 0 {
                n - 1
            } else {
                cur - 1
            };
            Effect::LoadSheet { index: prev }
        } else {
            Effect::Nothing
        }
    }

    /// `post` is `pre` after asking to show sheet `index` with `loaded`
    /// read for it: the data as `data_switched` says; where that worked,
    /// every row shown in file order and the first selected and shown;
    /// where it failed, the reason reported.
    pub open spec fn sheet_switched(
        pre: App,
        post: App,
        index: usize,
        loaded: Result<Vec<Vec<String>>, String>,
    ) -> bool {
        &&& data_switched(pre.data, post.data, index, loaded)
        &&& match switch_error(pre.data, index, loaded) {
            None => {
                &&& post.rows.order@ == identity_order(post.data.spec_rows().len())
                &&& post == (App {
                    data: post.data,
                    rows: Rows { order: post.rows.order, ..pre.rows },
                    cursor: Cursor { selected_row: 0, scroll_offset: 0, ..pre.cursor },
                    ..pre
                })
            },
            Some(e) => {
                &&& says(post.message, "Error: "@ + e)
                &&& post == (App { data: post.data, message: post.message, ..pre })
            },
        }
    }

    /// Shows sheet `index`, whose cells `loaded` holds as read from the
    /// workbook (or why reading failed).
    #[verifier::rlimit(30)]
    pub fn finish_sheet_switch(&mut self, index: usize, loaded: Result<Vec<Vec<String>>, String>)
        requires
            old(self).wf(),
            loaded matches Ok(c) ==> c@.len() <= LIMIT && (c@.len() > 0 ==> c@[0]@.len() <= LIMIT),
        ensures
            App::sheet_switched(*old(self), *final(self), index, loaded),
            final(self).wf(),
    {
        let ghost pre = *self;
        let ghost ld = loaded;
        let r = self.data.switch_sheet(index, loaded);
        proof {
            reveal(order_ok);
            if pre.data is Excel && index < pre.data.spec_sheet_names().len() {
                match ld {
                    Ok(c) => {
                        assert(c.deep_view().len() == c@.len());
                        if c@.len() > 0 {
                            assert(c.deep_view()[0].len() == c@[0]@.len());
                        }
                    },
                    Err(_) => {},
                }
            }
        }
        match r {
            Err(e) => {
                let m = concat2("Error: ", e.as_str());
                self.set_message(Some(m));
            },
            Ok(()) => {
                self.reset_row_order();
                let mut c = self.cursor;
                c.selected_row = 0;
                c.scroll_offset = 0;
                self.set_cursor(c);
            },
        }
    }
}

} // verus!

verus! {

impl App {
    /// `post` is `pre` after a save that succeeded: the undo and redo
    /// stacks emptied and the save reported.
    pub open spec fn saved(pre: App, post: App) -> bool {
        &&& post.editing.undo@.len() == 0
        &&& post.editing.redo@.len() == 0
        &&& says(post.message, "File saved successfully"@)
        &&& post == (App {
            data: post.data,
            editing: Editing { undo: post.editing.undo, redo: post.editing.redo, ..pre.editing },
            message: post.message,
            ..pre
        })
    }

    /// `post` and `effect` after the save command: a changed text file is
    /// to be written (`Effect::Save`), the state left as it is; an
    /// unchanged one counts as saved at once; a workbook is not written,
    /// which is reported.
    pub open spec fn save_done(pre: App, post: App, effect: Effect) -> bool {
        match pre.data {
            DataSourceType::Csv(ds) => if ds.spec_modified() {
                effect is Save && post == pre
            } else {
                effect is Nothing && App::saved(pre, post) && post.data == pre.data
            },
            DataSourceType::Excel(_) => {
                &&& effect is Nothing
                &&& says(post.message, "Error saving: Excel saving not supported yet"@)
                &&& post == (App { message: post.message, ..pre })
            },
        }
    }

    fn clear_stacks(&mut self)
        ensures
            final(self).editing.undo@.len() == 0,
            final(self).editing.redo@.len() == 0,
            stack_ok(final(self).editing.undo@),
            stack_ok(final(self).editing.redo@),
            *final(self) == (App {
                editing: Editing { undo: final(self).editing.undo, redo: final(self).editing.redo, ..old(self).editing },
                ..*old(self)
            }),
    {
        self.editing.undo.clear();
        self.editing.redo.clear();
        proof {
            lemma_stack_empty(self.editing.undo@);
            lemma_stack_empty(self.editing.redo@);
        }
    }

    fn save(&mut self) -> (effect: Effect)
        requires
            old(self).wf(),
        ensures
            App::save_done(*old(self), *final(self), effect),
            final(self).wf(),
    {
        match self.data.save_plan() {
            SavePlan::Write => Effect::Save,
            SavePlan::Unchanged => {
                self.clear_stacks();
                self.set_message(Some("File saved successfully".to_owned()));
                Effect::Nothing
            },
            SavePlan::Unsupported => {
                self.set_message(Some("Error saving: Excel saving not supported yet".to_owned()));
                Effect::Nothing
            },
        }
    }

    /// `post` is `pre` once writing the file gave `result`: where it
    /// worked, the sheet counts as unchanged since it was written and the
    /// save succeeded (see `saved`); where it failed, the error is
    /// reported.
    pub open spec fn save_finished(pre: App, post: App, result: Result<(), String>) -> bool {
        match result {
            Ok(()) => {
                &&& App::saved(pre, post)
                &&& post.data.spec_rows() == pre.data.spec_rows()
                &&& post.data.same_sheet(&pre.data)
                &&& (pre.data is Csv ==> !post.data.spec_modified())
                &&& (pre.data is Excel ==> post.data.spec_modified() == pre.data.spec_modified())
            },
            Err(e) => {
                &&& says(post.message, "Error saving: "@ + e@)
                &&& post == (App { message: post.message, ..pre })
            },
        }
    }

    /// Takes the outcome of writing the file that `Effect::Save` asked for.
    pub fn finish_save(&mut self, result: Result<(), String>)
        requires
            old(self).wf(),
        ensures
            App::save_finished(*old(self), *final(self), result),
            final(self).wf(),
    {
        match result {
            Ok(()) => {
                self.data.mark_saved();
                self.clear_stacks();
                self.set_message(Some("File saved successfully".to_owned()));
            },
            Err(e) => {
                let m = concat2("Error saving: ", e.as_str());
                self.set_message(Some(m));
            },
        }
    }
}

} // verus!

verus! {

/// A command typed after `:`.
pub enum Command {
    /// `q!`: quit without asking.
    ForceQuit,
    /// `q`: quit, unless there are unsaved edits.
    Quit,
    /// `w`: save.
    Write,
    /// `wq`: save, then quit.
    WriteQuit,
    /// `f`: the column filter.
    Filter,
    /// `export <path>`.
    Export { path: String },
    /// `replace <query>` and `replaceall <query>`.
    Replace { query: String, all: bool },
    /// A usage hint or an unknown command: the text to report.
    Report { text: String },
}

/// A command, its texts as sequences.
pub enum CommandView {
    ForceQuit,
    Quit,
    Write,
    WriteQuit,
    Filter,
    Export { path: Seq<char> },
    Replace { query: Seq<char>, all: bool },
    Report { text: Seq<char> },
}

impl View for Command {
    type V = CommandView;

    open spec fn view(&self) -> CommandView {
        match self {
            Command::ForceQuit => CommandView::ForceQuit,
            Command::Quit => CommandView::Quit,
            Command::Write => CommandView::Write,
            Command::WriteQuit => CommandView::WriteQuit,
            Command::Filter => CommandView::Filter,
            Command::Export { path } => CommandView::Export { path: path@ },
            Command::Replace { query, all } => CommandView::Replace { query: query@, all: *all },
            Command::Report { text } => CommandView::Report { text: text@ },
        }
    }
}

/// The command that the command line `line` holds, taken without its
/// surrounding white space.
pub open spec fn command_of(line: Seq<char>) -> CommandView {
    let c = trimmed(line);
    if c == "q!"@ {
        CommandView::ForceQuit
    } else if c == "q"@ {
        CommandView::Quit
    } else if c == "w"@ {
        CommandView::Write
    } else if c == "wq"@ {
        CommandView::WriteQuit
    } else if c == "f"@ {
        CommandView::Filter
    } else if starts_with(c, "export "@) {
        let p = trimmed(c.skip("export "@.len() as int));
        if p.len() == 0 {
            CommandView::Report { text: "Usage: export <filepath>"@ }
        } else {
            CommandView::Export { path: p }
        }
    } else if starts_with(c, "replace "@) {
        let q = trimmed(c.skip("replace "@.len() as int));
        if q.len() == 0 {
            CommandView::Report { text: "Usage: :replace <query>"@ }
        } else {
            CommandView::Replace { query: q, all: false }
        }
    } else if starts_with(c, "replaceall "@) {
        let q = trimmed(c.skip("replaceall "@.len() as int));
        if q.len() == 0 {
            CommandView::Report { text: "Usage: :replaceall <query>"@ }
        } else {
            CommandView::Replace { query: q, all: true }
        }
    } else {
        CommandView::Report { text: "Unknown command: "@ + c }
    }
}

/// The text of `c` after the prefix `p`, trimmed, where `c` starts with
/// `p`.
fn rest_after(c: &Vec<char>, p: &str) -> (r: Option<String>)
    ensures
        match r {
            Some(s) => starts_with(c@, p@) && s@ == trimmed(c@.skip(p@.len() as int)),
            None => !starts_with(c@, p@),
        },
{
    let pv = chars_of(p);
    if text_starts_with(c.as_slice(), pv.as_slice()) {
        let rest = string_of_range(c.as_slice(), pv.len(), c.len());
        assert(rest@ == c@.skip(p@.len() as int));
        Some(trim(rest.as_str()))
    } else {
        None
    }
}

/// Reads the command line (see `command_of`).
pub fn parse_command(line: &str) -> (c: Command)
    ensures
        c@ == command_of(line@),
{
    let t = trim(line);
    let s = t.as_str();
    if text_eq(s, "q!") {
        return Command::ForceQuit;
    }
    if text_eq(s, "q") {
        return Command::Quit;
    }
    if text_eq(s, "w") {
        return Command::Write;
    }
    if text_eq(s, "wq") {
        return Command::WriteQuit;
    }
    if text_eq(s, "f") {
        return Command::Filter;
    }
    let cv = chars_of(s);
    if let Some(p) = rest_after(&cv, "export ") {
        if p.as_str().is_empty() {
            return Command::Report { text: "Usage: export <filepath>".to_owned() };
        }
        return Command::Export { path: p };
    }
    if let Some(q) = rest_after(&cv, "replace ") {
        if q.as_str().is_empty() {
            return Command::Report { text: "Usage: :replace <query>".to_owned() };
        }
        return Command::Replace { query: q, all: false };
    }
    if let Some(q) = rest_after(&cv, "replaceall ") {
        if q.as_str().is_empty() {
            return Command::Report { text: "Usage: :replaceall <query>".to_owned() };
        }
        return Command::Replace { query: q, all: true };
    }
    Command::Report { text: concat2("Unknown command: ", s) }
}

/// An export to `path` writes a workbook: the path, in lower case, ends
/// with `.xlsx` or `.xls`.
pub open spec fn exports_workbook(path: Seq<char>) -> bool {
    ends_with(lowercase(path), ".xlsx"@) || ends_with(lowercase(path), ".xls"@)
}

/// Whether an export to `path` writes a workbook (see `exports_workbook`).
pub fn is_workbook_path(path: &str) -> (b: bool)
    ensures
        b == exports_workbook(path@),
{
    let low = to_lowercase(path);
    let lv = chars_of(low.as_str());
    let x = chars_of(".xlsx");
    let y = chars_of(".xls");
    text_ends_with(lv.as_slice(), x.as_slice()) || text_ends_with(lv.as_slice(), y.as_slice())
}

} // verus!

verus! {

impl App {
    /// `post` is `pre` with the replace prompt open on `q`: the search
    /// looks for `q`, the replacement is empty and takes input, and all
    /// matches are replaced at once where `all` holds.
    pub open spec fn replace_started(pre: App, post: App, q: Seq<char>, all: bool) -> bool {
        &&& post.replace.query@ == q
        &&& post.search.query@ == q
        &&& post.replace.with@.len() == 0
        &&& post == (App {
            replace: Replace {
                query: post.replace.query,
                with: post.replace.with,
                all_mode: all,
                cursor: 1,
            },
            search: Search { query: post.search.query, ..pre.search },
            modes: Modes { replace_active: true, ..pre.modes },
            ..pre
        })
    }

    /// The report after opening the replace prompt on `q` with `n` matches.
    pub open spec fn replace_report(n: nat, q: Seq<char>, all: bool) -> Seq<char> {
        "Found "@ + decimal(n) + " matches for '"@ + q + if all {
            "'. Enter to replace all."@
        } else {
            "'. Press n/N to navigate, Enter to replace."@
        }
    }

    /// `post` is `pre` after the `replace` command on `q`: the prompt
    /// opened (see `replace_started`), the search run (see `search_done`),
    /// and the matches reported.
    pub open spec fn replace_command_done(pre: App, post: App, q: Seq<char>, all: bool) -> bool {
        exists|mid: App, s: App|
            App::replace_started(pre, mid, q, all) && #[trigger] App::search_done(mid, s) && post == (App {
                message: post.message,
                ..s
            }) && says(post.message, App::replace_report(s.search.results@.len(), q, all))
    }

    /// `post` and `effect` after running the command line (see
    /// `command_of`): quitting sets the quit flags; `w` and `wq` save (see
    /// `save_done`), `wq` then quits; `f` runs the filter command; `export`
    /// asks for the table to be written (`Effect::Export`); `replace` opens
    /// the replace prompt; anything else is reported.
    #[verifier::opaque]
    pub open spec fn command_done(pre: App, post: App, effect: Effect) -> bool {
        match command_of(pre.commands.buffer@) {
            CommandView::ForceQuit => effect is Nothing && post == (App {
                modes: Modes { should_quit: true, force_quit: true, ..pre.modes },
                ..pre
            }),
            CommandView::Quit => effect is Nothing && post == (App {
                modes: Modes { should_quit: true, ..pre.modes },
                ..pre
            }),
            CommandView::Write => App::save_done(pre, post, effect),
            CommandView::WriteQuit => exists|mid: App|
                #[trigger] App::save_done(pre, mid, effect) && post == (App {
                    modes: Modes { should_quit: true, ..mid.modes },
                    ..mid
                }),
            CommandView::Filter => effect is Nothing && App::toggle_column_filter_done(pre, post),
            CommandView::Export { path } => post == pre && (effect matches Effect::Export { path: p, excel }
                && p@ == path && excel == exports_workbook(path)),
            CommandView::Replace { query, all } => effect is Nothing && App::replace_command_done(
                pre,
                post,
                query,
                all,
            ),
            CommandView::Report { text } => effect is Nothing && says(post.message, text) && post == (App {
                message: post.message,
                ..pre
            }),
        }
    }

    #[verifier::rlimit(30)]
    fn replace_command(&mut self, query: String, all: bool)
        requires
            old(self).wf(),
        ensures
            App::replace_command_done(*old(self), *final(self), query@, all),
            final(self).wf(),
    {
        let ghost pre = *self;
        let q2 = query.clone();
        self.replace.query = query;
        self.search.query = q2;
        self.replace.with = String::new();
        self.replace.cursor = 1;
        self.replace.all_mode = all;
        let mut m = self.modes;
        m.replace_active = true;
        self.set_modes(m);
        let ghost mid = *self;
        assert(App::replace_started(pre, mid, query@, all));
        self.perform_search();
        let ghost s = *self;
        let count = self.search.results.len();
        let mut msg = "Found ".to_owned();
        append_str(&mut msg, decimal_text(count).as_str());
        append_str(&mut msg, " matches for '");
        append_str(&mut msg, self.replace.query.as_str());
        if all {
            append_str(&mut msg, "'. Enter to replace all.");
        } else {
            append_str(&mut msg, "'. Press n/N to navigate, Enter to replace.");
        }
        self.set_message(Some(msg));
        assert(App::search_done(mid, s));
    }

    #[verifier::rlimit(30)]
    fn execute_command(&mut self) -> (effect: Effect)
        requires
            old(self).wf(),
        ensures
            App::command_done(*old(self), *final(self), effect),
            final(self).wf(),
    {
        reveal(App::command_done);
        let ghost pre = *self;
        match parse_command(self.commands.buffer.as_str()) {
            Command::ForceQuit => {
                let mut m = self.modes;
                m.should_quit = true;
                m.force_quit = true;
                self.set_modes(m);
                Effect::Nothing
            },
            Command::Quit => {
                let mut m = self.modes;
                m.should_quit = true;
                self.set_modes(m);
                Effect::Nothing
            },
            Command::Write => self.save(),
            Command::WriteQuit => {
                let e = self.save();
                let ghost mid = *self;
                let mut m = self.modes;
                m.should_quit = true;
                self.set_modes(m);
                assert(App::save_done(pre, mid, e));
                e
            },
            Command::Filter => {
                self.toggle_column_filter();
                Effect::Nothing
            },
            Command::Export { path } => {
                let excel = is_workbook_path(path.as_str());
                Effect::Export { path, excel }
            },
            Command::Replace { query, all } => {
                self.replace_command(query, all);
                Effect::Nothing
            },
            Command::Report { text } => {
                self.set_message(Some(text));
                Effect::Nothing
            },
        }
    }

    /// What an export writes: the headers, then the shown rows in display
    /// order.
    #[verifier::rlimit(30)]
    pub fn export_table(&self) -> (t: (Vec<String>, Vec<Vec<String>>))
        requires
            self.wf(),
        ensures
            t.0.deep_view() == self.sheet().spec_headers(),
            t.1.deep_view() == Seq::new(
                self.order().len(),
                |i: int| self.sheet_rows()[self.order()[i] as int],
            ),
    {
        proof {
            reveal(order_ok);
        }
        let h = self.data.headers();
        let mut headers: Vec<String> = Vec::new();
        let mut i: usize = 0;
        while i < h.len()
            invariant
                i <= h@.len(),
                headers@.len() == i,
                forall|x: int| 0 <= x < i ==> (#[trigger] headers@[x])@ == h@[x]@,
            decreases h@.len() - i,
        {
            headers.push(h[i].clone());
            i = i + 1;
        }
        assert(headers.deep_view() =~= h.deep_view());
        let n = self.rows.order.len();
        let mut rows: Vec<Vec<String>> = Vec::new();
        let mut k: usize = 0;
        while k < n
            invariant
                k <= n,
                n == self.rows.order@.len(),
                order_ok(self.rows.order@, self.data.spec_rows().len()),
                rows@.len() == k,
                forall|x: int| 0 <= x < k ==> (#[trigger] rows@[x]).deep_view() == self.data.spec_rows()[self.rows.order@[x] as int],
            decreases n - k,
        {
            proof {
                reveal(order_ok);
            }
            let r = match self.data.get_row(self.rows.order[k]) {
                Some(r) => r,
                None => {
                    proof {
                        assert(false);
                    }
                    Vec::new()
                },
            };
            rows.push(r);
            k = k + 1;
        }
        assert(rows.deep_view() =~= Seq::new(n as nat, |x: int| self.data.spec_rows()[self.rows.order@[x] as int]));
        (headers, rows)
    }

    /// `post` is `pre` once the export to `path` gave `result`: the rows
    /// written and the path reported, or the error.
    pub open spec fn export_finished(pre: App, post: App, path: Seq<char>, result: Result<(), String>) -> bool {
        &&& post == (App { message: post.message, ..pre })
        &&& match result {
            Ok(()) => says(post.message, "Exported "@ + decimal(pre.rows.order@.len()) + " rows to "@ + path),
            Err(e) => says(post.message, e@),
        }
    }

    /// Takes the outcome of the export that `Effect::Export` asked for.
    pub fn finish_export(&mut self, path: &str, result: Result<(), String>)
        ensures
            App::export_finished(*old(self), *final(self), path@, result),
            final(self).wf() == old(self).wf(),
    {
        match result {
            Ok(()) => {
                let mut m = "Exported ".to_owned();
                append_str(&mut m, decimal_text(self.rows.order.len()).as_str());
                append_str(&mut m, " rows to ");
                append_str(&mut m, path);
                self.set_message(Some(m));
            },
            Err(e) => {
                self.set_message(Some(e));
            },
        }
    }
}

} // verus!

verus! {

/// The number of commands the palette offers.
pub const PALETTE_SIZE: usize = 13;

/// The name of palette command `i`, by which the palette's query finds it.
pub open spec fn palette_name(i: int) -> Seq<char> {
    if i == 0 {
        "save"@
    } else if i == 1 {
        "quit"@
    } else if i == 2 {
        "export"@
    } else if i == 3 {
        "filter"@
    } else if i == 4 {
        "clear filter"@
    } else if i == 5 {
        "sort"@
    } else if i == 6 {
        "clear sort"@
    } else if i == 7 {
        "sheet next"@
    } else if i == 8 {
        "sheet prev"@
    } else if i == 9 {
        "duplicates"@
    } else if i == 10 {
        "help"@
    } else if i == 11 {
        "replace"@
    } else {
        "replace all"@
    }
}

/// How palette command `i` is listed.
pub open spec fn palette_label(i: int) -> Seq<char> {
    if i == 0 {
        "save (Ctrl+S)"@
    } else if i == 1 {
        "quit (q/Esc)"@
    } else if i == 2 {
        "export (:export <file>)"@
    } else if i == 3 {
        "filter (:f)"@
    } else if i == 4 {
        "clear filter"@
    } else if i == 5 {
        "sort (s)"@
    } else if i == 6 {
        "clear sort (R)"@
    } else if i == 7 {
        "sheet next (t)"@
    } else if i == 8 {
        "sheet prev (T)"@
    } else if i == 9 {
        "duplicates (U)"@
    } else if i == 10 {
        "help (?)"@
    } else if i == 11 {
        "replace (:replace)"@
    } else {
        "replace all (:replaceall)"@
    }
}

fn palette_name_text(i: usize) -> (s: &'static str)
    requires
        i < PALETTE_SIZE,
    ensures
        s@ == palette_name(i as int),
{
    if i == 0 {
        "save"
    } else if i == 1 {
        "quit"
    } else if i == 2 {
        "export"
    } else if i == 3 {
        "filter"
    } else if i == 4 {
        "clear filter"
    } else if i == 5 {
        "sort"
    } else if i == 6 {
        "clear sort"
    } else if i == 7 {
        "sheet next"
    } else if i == 8 {
        "sheet prev"
    } else if i == 9 {
        "duplicates"
    } else if i == 10 {
        "help"
    } else if i == 11 {
        "replace"
    } else {
        "replace all"
    }
}

fn palette_label_text(i: usize) -> (s: &'static str)
    requires
        i < PALETTE_SIZE,
    ensures
        s@ == palette_label(i as int),
{
    if i == 0 {
        "save (Ctrl+S)"
    } else if i == 1 {
        "quit (q/Esc)"
    } else if i == 2 {
        "export (:export <file>)"
    } else if i == 3 {
        "filter (:f)"
    } else if i == 4 {
        "clear filter"
    } else if i == 5 {
        "sort (s)"
    } else if i == 6 {
        "clear sort (R)"
    } else if i == 7 {
        "sheet next (t)"
    } else if i == 8 {
        "sheet prev (T)"
    } else if i == 9 {
        "duplicates (U)"
    } else if i == 10 {
        "help (?)"
    } else if i == 11 {
        "replace (:replace)"
    } else {
        "replace all (:replaceall)"
    }
}

/// The palette commands among the first `n` that the query `q` lists:
/// all of them for an empty query, otherwise those whose name holds the
/// query in lower case (`lq`).
pub open spec fn palette_picks(q: Seq<char>, lq: Seq<char>, n: int) -> Seq<usize>
    decreases n,
{
    if n <= 0 {
        seq![]
    } else {
        let prev = palette_picks(q, lq, n - 1);
        if q.len() == 0 || contains_text(palette_name(n - 1), lq) {
            prev.push((n - 1) as usize)
        } else {
            prev
        }
    }
}

/// The palette commands that the query `q` lists, in order.
pub open spec fn palette_listed(q: Seq<char>) -> Seq<usize> {
    palette_picks(q, lowercase(q), PALETTE_SIZE as int)
}

proof fn lemma_palette_picks(q: Seq<char>, lq: Seq<char>, n: int)
    requires
        n <= PALETTE_SIZE,
    ensures
        palette_picks(q, lq, n).len() <= if n < 0 {
            0
        } else {
            n
        },
        forall|i: int| 0 <= i < palette_picks(q, lq, n).len() ==> (#[trigger] palette_picks(q, lq, n)[i]) < n,
    decreases n,
{
    if n > 0 {
        lemma_palette_picks(q, lq, n - 1);
        let p = palette_picks(q, lq, n - 1);
        let c = palette_picks(q, lq, n);
        assert forall|i: int| 0 <= i < c.len() implies (#[trigger] c[i]) < n by {
            if i < p.len() {
                assert(c[i] == p[i]);
            }
        }
    }
}

/// The palette commands that the query `q` lists (see `palette_listed`).
fn palette_indices(q: &str) -> (v: Vec<usize>)
    ensures
        v@ == palette_listed(q@),
        v@.len() <= PALETTE_SIZE,
        forall|i: int| 0 <= i < v@.len() ==> (#[trigger] v@[i]) < PALETTE_SIZE,
{
    let lower = to_lowercase(q);
    let empty = q.is_empty();
    let mut v: Vec<usize> = Vec::new();
    let mut i: usize = 0;
    while i < PALETTE_SIZE
        invariant
            i <= PALETTE_SIZE,
            empty == (q@.len() == 0),
            lower@ == lowercase(q@),
            v@ == palette_picks(q@, lower@, i as int),
        decreases PALETTE_SIZE - i,
    {
        if empty || text_contains(palette_name_text(i), lower.as_str()) {
            v.push(i);
        }
        i = i + 1;
    }
    proof {
        lemma_palette_picks(q@, lower@, PALETTE_SIZE as int);
    }
    v
}

impl App {
    /// The palette's query.
    pub open spec fn palette_query(self) -> Seq<char> {
        self.commands.palette_query@
    }

    /// The commands the palette lists for its query, as listed.
    pub fn get_palette_commands(&self) -> (cmds: Vec<String>)
        ensures
            cmds.deep_view() == palette_listed(self.palette_query()).map_values(
                |i: usize| palette_label(i as int),
            ),
    {
        let idx = palette_indices(self.commands.palette_query.as_str());
        let mut cmds: Vec<String> = Vec::new();
        let mut k: usize = 0;
        while k < idx.len()
            invariant
                k <= idx@.len(),
                forall|i: int| 0 <= i < idx@.len() ==> (#[trigger] idx@[i]) < PALETTE_SIZE,
                cmds@.len() == k,
                forall|x: int| 0 <= x < k ==> (#[trigger] cmds@[x])@ == palette_label(idx@[x] as int),
            decreases idx@.len() - k,
        {
            cmds.push(palette_label_text(idx[k]).to_owned());
            k = k + 1;
        }
        assert(cmds.deep_view() =~= idx@.map_values(|i: usize| palette_label(i as int)));
        cmds
    }

    /// The palette command under the cursor, where there is one.
    pub open spec fn palette_choice(self) -> Option<usize> {
        let listed = palette_listed(self.commands.palette_query@);
        if self.commands.palette_cursor < listed.len() {
            Some(listed[self.commands.palette_cursor as int])
        } else {
            None
        }
    }

    /// `post` is `pre` with the column filter dropped: every row shown in
    /// file order, the popup closed, and that reported.
    pub open spec fn clear_filter_done(pre: App, post: App) -> bool {
        &&& post.filter.values@.len() == 0
        &&& post.filter.selected@.len() == 0
        &&& post.rows.order@ == identity_order(pre.data.spec_rows().len())
        &&& says(post.message, "Filter cleared"@)
        &&& post == (App {
            filter: Filter {
                active: false,
                col: None,
                values: post.filter.values,
                selected: post.filter.selected,
                ..pre.filter
            },
            modes: Modes { filter_mode: false, ..pre.modes },
            rows: Rows { order: post.rows.order, ..pre.rows },
            message: post.message,
            ..pre
        })
    }

    fn clear_filter(&mut self)
        requires
            old(self).wf(),
        ensures
            App::clear_filter_done(*old(self), *final(self)),
            final(self).wf(),
    {
        proof {
            reveal(order_ok);
        }
        self.filter.active = false;
        self.filter.col = None;
        self.filter.values = Vec::new();
        self.filter.selected = Vec::new();
        let mut m = self.modes;
        m.filter_mode = false;
        self.set_modes(m);
        self.reset_row_order();
        self.set_message(Some("Filter cleared".to_owned()));
    }

    /// `post` and `effect` after running the palette command under the
    /// cursor (nothing where there is none): each command does what its key
    /// or command does; `export` tells how to export; `replace` and `replace
    /// all` are only reported.
    #[verifier::opaque]
    pub open spec fn palette_done(pre: App, post: App, effect: Effect) -> bool {
        match pre.palette_choice() {
            None => post == pre && effect is Nothing,
            Some(i) => if i == 0 {
                App::save_done(pre, post, effect)
            } else if i == 1 {
                effect is Nothing && post == (App { modes: Modes { should_quit: true, ..pre.modes }, ..pre })
            } else if i == 2 {
                effect is Nothing && says(post.message, "Usage: :export <filepath>"@) && post == (App {
                    message: post.message,
                    ..pre
                })
            } else if i == 3 {
                effect is Nothing && App::toggle_column_filter_done(pre, post)
            } else if i == 4 {
                effect is Nothing && App::clear_filter_done(pre, post)
            } else if i == 5 {
                effect is Nothing && App::toggle_sort_done(pre, post)
            } else if i == 6 {
                effect is Nothing && App::clear_sort_done(pre, post)
            } else if i == 7 {
                post == pre && match pre.next_sheet_index() {
                    Some(k) => effect == (Effect::LoadSheet { index: k }),
                    None => effect is Nothing,
                }
            } else if i == 8 {
                post == pre && match pre.prev_sheet_index() {
                    Some(k) => effect == (Effect::LoadSheet { index: k }),
                    None => effect is Nothing,
                }
            } else if i == 9 {
                effect is Nothing && App::toggle_duplicates_done(pre, post)
            } else if i == 10 {
                effect is Nothing && post == (App { modes: Modes { show_help: true, ..pre.modes }, ..pre })
            } else {
                effect is Nothing && says(post.message, "Executing: "@ + palette_label(i as int)) && post == (App {
                    message: post.message,
                    ..pre
                })
            },
        }
    }

    #[verifier::rlimit(30)]
    fn execute_palette_command(&mut self) -> (effect: Effect)
        requires
            old(self).wf(),
        ensures
            App::palette_done(*old(self), *final(self), effect),
            final(self).wf(),
    {
        reveal(App::palette_done);
        let idx = palette_indices(self.commands.palette_query.as_str());
        if self.commands.palette_cursor >= idx.len() {
            return Effect::Nothing;
        }
        let i = idx[self.commands.palette_cursor];
        if i == 0 {
            self.save()
        } else if i == 1 {
            let mut m = self.modes;
            m.should_quit = true;
            self.set_modes(m);
            Effect::Nothing
        } else if i == 2 {
            self.set_message(Some("Usage: :export <filepath>".to_owned()));
            Effect::Nothing
        } else if i == 3 {
            self.toggle_column_filter();
            Effect::Nothing
        } else if i == 4 {
            self.clear_filter();
            Effect::Nothing
        } else if i == 5 {
            self.toggle_sort();
            Effect::Nothing
        } else if i == 6 {
            self.clear_sort();
            Effect::Nothing
        } else if i == 7 {
            self.next_sheet()
        } else if i == 8 {
            self.prev_sheet()
        } else if i == 9 {
            self.toggle_duplicate_highlight();
            Effect::Nothing
        } else if i == 10 {
            let mut m = self.modes;
            m.show_help = true;
            self.set_modes(m);
            Effect::Nothing
        } else {
            let m = concat2("Executing: ", palette_label_text(i));
            self.set_message(Some(m));
            Effect::Nothing
        }
    }
}

} // verus!

verus! {

/// The text after removing its last character, as `String::pop` leaves it.
pub open spec fn popped(s: Seq<char>) -> Seq<char> {
    if s.len() == 0 {
        s
    } else {
        s.drop_last()
    }
}

impl App {
    /// `post` is `pre` after key `key` while editing a cell: Esc leaves the
    /// edit, Enter commits it (see `commit_edit_done`), Backspace removes
    /// the buffer's last character, a character is appended to it.
    pub open spec fn edit_key_done(pre: App, post: App, key: KeyEvent) -> bool {
        match key.code {
            KeyCode::Esc => post.editing.buffer@.len() == 0 && post == (App {
                modes: Modes { edit_mode: false, ..pre.modes },
                editing: Editing { buffer: post.editing.buffer, ..pre.editing },
                ..pre
            }),
            KeyCode::Enter => App::commit_edit_done(pre, post),
            KeyCode::Backspace => post.editing.buffer@ == popped(pre.editing.buffer@) && post == (App {
                editing: Editing { buffer: post.editing.buffer, ..pre.editing },
                ..pre
            }),
            KeyCode::Char(c) => post.editing.buffer@ == pre.editing.buffer@.push(c) && post == (App {
                editing: Editing { buffer: post.editing.buffer, ..pre.editing },
                ..pre
            }),
            _ => post == pre,
        }
    }

    fn handle_edit_key(&mut self, key: KeyEvent)
        requires
            old(self).wf(),
            key.code == KeyCode::Enter ==> old(self).has_selection(),
        ensures
            App::edit_key_done(*old(self), *final(self), key),
            final(self).wf(),
    {
        match key.code {
            KeyCode::Esc => {
                let mut m = self.modes;
                m.edit_mode = false;
                self.set_modes(m);
                self.set_buffer(String::new());
            },
            KeyCode::Enter => {
                self.commit_edit();
            },
            KeyCode::Backspace => {
                let b = drop_last_char(self.editing.buffer.as_str());
                self.set_buffer(b);
            },
            KeyCode::Char(c) => {
                let mut b = self.editing.buffer.clone();
                push_char(&mut b, c);
                self.set_buffer(b);
            },
            _ => {},
        }
    }

    /// `post` and `effect` after key `key` on the command line: Esc leaves
    /// it, Enter runs the command (see `command_done`) and leaves it,
    /// Backspace removes the last character or, on an empty line, leaves
    /// it, a character is appended.
    pub open spec fn command_key_done(pre: App, post: App, key: KeyEvent, effect: Effect) -> bool {
        match key.code {
            KeyCode::Esc => effect is Nothing && post.commands.buffer@.len() == 0 && post == (App {
                modes: Modes { command_mode: false, ..pre.modes },
                commands: Commands { buffer: post.commands.buffer, ..pre.commands },
                ..pre
            }),
            KeyCode::Enter => exists|mid: App|
                #[trigger] App::command_done(pre, mid, effect) && post.commands.buffer@.len() == 0 && post
                    == (App {
                    modes: Modes { command_mode: false, ..mid.modes },
                    commands: Commands { buffer: post.commands.buffer, ..mid.commands },
                    ..mid
                }),
            KeyCode::Backspace => effect is Nothing && if pre.commands.buffer@.len() == 0 {
                post == (App { modes: Modes { command_mode: false, ..pre.modes }, ..pre })
            } else {
                post.commands.buffer@ == pre.commands.buffer@.drop_last() && post == (App {
                    commands: Commands { buffer: post.commands.buffer, ..pre.commands },
                    ..pre
                })
            },
            KeyCode::Char(c) => effect is Nothing && post.commands.buffer@ == pre.commands.buffer@.push(c)
                && post == (App { commands: Commands { buffer: post.commands.buffer, ..pre.commands }, ..pre }),
            _ => effect is Nothing && post == pre,
        }
    }

    fn set_command_buffer(&mut self, b: String)
        ensures
            *final(self) == (App { commands: Commands { buffer: b, ..old(self).commands }, ..*old(self) }),
    {
        self.commands.buffer = b;
    }

    #[verifier::rlimit(40)]
    fn handle_command_key(&mut self, key: KeyEvent) -> (effect: Effect)
        requires
            old(self).wf(),
        ensures
            App::command_key_done(*old(self), *final(self), key, effect),
            final(self).wf(),
    {
        match key.code {
            KeyCode::Esc => {
                let mut m = self.modes;
                m.command_mode = false;
                self.set_modes(m);
                self.set_command_buffer(String::new());
                Effect::Nothing
            },
            KeyCode::Enter => {
                let e = self.execute_command();
                let ghost mid = *self;
                let mut m = self.modes;
                m.command_mode = false;
                self.set_modes(m);
                self.set_command_buffer(String::new());
                assert(App::command_done(*old(self), mid, e));
                e
            },
            KeyCode::Backspace => {
                if self.commands.buffer.as_str().is_empty() {
                    let mut m = self.modes;
                    m.command_mode = false;
                    self.set_modes(m);
                } else {
                    let b = drop_last_char(self.commands.buffer.as_str());
                    self.set_command_buffer(b);
                }
                Effect::Nothing
            },
            KeyCode::Char(c) => {
                let mut b = self.commands.buffer.clone();
                push_char(&mut b, c);
                self.set_command_buffer(b);
                Effect::Nothing
            },
            _ => Effect::Nothing,
        }
    }
}

} // verus!

verus! {

impl App {
    /// The palette lists at least one command.
    pub open spec fn palette_lists_any(self) -> bool {
        palette_listed(self.commands.palette_query@).len() > 0
    }

    /// `post` and `effect` after key `key` in the command palette: Esc
    /// closes it, Enter runs the command under the cursor (see
    /// `palette_done`) and closes it, Up and `k` move the cursor up, Down
    /// and `j` down within the list, Backspace removes the query's last
    /// character (closing the palette on an empty query), a character is
    /// appended to the query; editing the query moves the cursor to the top.
    pub open spec fn palette_key_done(pre: App, post: App, key: KeyEvent, effect: Effect) -> bool {
        let cur = pre.commands.palette_cursor;
        let q = pre.commands.palette_query@;
        match key.code {
            KeyCode::Esc => effect is Nothing && post.commands.palette_query@.len() == 0 && post == (App {
                modes: Modes { command_palette_mode: false, ..pre.modes },
                commands: Commands { palette_query: post.commands.palette_query, ..pre.commands },
                ..pre
            }),
            KeyCode::Enter => exists|mid: App|
                #[trigger] App::palette_done(pre, mid, effect) && post.commands.palette_query@.len() == 0
                    && post == (App {
                    modes: Modes { command_palette_mode: false, ..mid.modes },
                    commands: Commands { palette_query: post.commands.palette_query, ..mid.commands },
                    ..mid
                }),
            KeyCode::Up | KeyCode::Char('k') => effect is Nothing && post == (App {
                commands: Commands {
                    palette_cursor: if cur > 0 {
                        (cur - 1) as usize
                    } else {
                        cur
                    },
                    ..pre.commands
                },
                ..pre
            }),
            KeyCode::Down | KeyCode::Char('j') => effect is Nothing && post == (App {
                commands: Commands {
                    palette_cursor: if cur < palette_listed(q).len() - 1 {
                        (cur + 1) as usize
                    } else {
                        cur
                    },
                    ..pre.commands
                },
                ..pre
            }),
            KeyCode::Backspace => effect is Nothing && if q.len() == 0 {
                post == (App { modes: Modes { command_palette_mode: false, ..pre.modes }, ..pre })
            } else {
                post.commands.palette_query@ == q.drop_last() && post == (App {
                    commands: Commands {
                        palette_query: post.commands.palette_query,
                        palette_cursor: 0,
                        ..pre.commands
                    },
                    ..pre
                })
            },
            KeyCode::Char(c) => effect is Nothing && post.commands.palette_query@ == q.push(c) && post == (App {
                commands: Commands { palette_query: post.commands.palette_query, palette_cursor: 0, ..pre.commands },
                ..pre
            }),
            _ => effect is Nothing && post == pre,
        }
    }

    fn set_palette_query(&mut self, q: String)
        ensures
            *final(self) == (App { commands: Commands { palette_query: q, ..old(self).commands }, ..*old(self) }),
    {
        self.commands.palette_query = q;
    }

    fn set_palette_cursor(&mut self, c: usize)
        ensures
            *final(self) == (App { commands: Commands { palette_cursor: c, ..old(self).commands }, ..*old(self) }),
    {
        self.commands.palette_cursor = c;
    }

    #[verifier::rlimit(100)]
    fn handle_command_palette_key(&mut self, key: KeyEvent) -> (effect: Effect)
        requires
            old(self).wf(),
            key.code == KeyCode::Down || key.code == KeyCode::Char('j') ==> old(self).palette_lists_any(),
        ensures
            App::palette_key_done(*old(self), *final(self), key, effect),
            final(self).wf(),
    {
        match key.code {
            KeyCode::Esc => {
                let mut m = self.modes;
                m.command_palette_mode = false;
                self.set_modes(m);
                self.set_palette_query(String::new());
                Effect::Nothing
            },
            KeyCode::Enter => {
                let e = self.execute_palette_command();
                let ghost mid = *self;
                let mut m = self.modes;
                m.command_palette_mode = false;
                self.set_modes(m);
                self.set_palette_query(String::new());
                assert(App::palette_done(*old(self), mid, e));
                e
            },
            KeyCode::Up | KeyCode::Char('k') => {
                if self.commands.palette_cursor > 0 {
                    let c = self.commands.palette_cursor - 1;
                    self.set_palette_cursor(c);
                }
                Effect::Nothing
            },
            KeyCode::Down | KeyCode::Char('j') => {
                let n = palette_indices(self.commands.palette_query.as_str()).len();
                if self.commands.palette_cursor < n - 1 {
                    let c = self.commands.palette_cursor + 1;
                    self.set_palette_cursor(c);
                }
                Effect::Nothing
            },
            KeyCode::Backspace => {
                if self.commands.palette_query.as_str().is_empty() {
                    let mut m = self.modes;
                    m.command_palette_mode = false;
                    self.set_modes(m);
                } else {
                    let q = drop_last_char(self.commands.palette_query.as_str());
                    self.set_palette_query(q);
                    self.set_palette_cursor(0);
                }
                Effect::Nothing
            },
            KeyCode::Char(c) => {
                let mut q = self.commands.palette_query.clone();
                push_char(&mut q, c);
                self.set_palette_query(q);
                self.set_palette_cursor(0);
                Effect::Nothing
            },
            _ => Effect::Nothing,
        }
    }
}

} // verus!

verus! {

impl App {
    fn set_search_query(&mut self, q: String)
        ensures
            *final(self) == (App { search: Search { query: q, ..old(self).search }, ..*old(self) }),
    {
        self.search.query = q;
    }

    fn set_search_options(&mut self, regex: bool, column: Option<usize>)
        ensures
            *final(self) == (App {
                search: Search { regex_mode: regex, column, ..old(self).search },
                ..*old(self)
            }),
    {
        self.search.regex_mode = regex;
        self.search.column = column;
    }

    /// `post` is `pre` after key `key` while typing a search: Esc leaves
    /// the search with its query and options cleared; Enter searches (see
    /// `search_done`) and leaves; Backspace removes the query's last
    /// character, and one `R` more where regex mode is on and the query
    /// then ends with `R`, turning regex mode off (on an empty query it
    /// leaves the search, options cleared); `R` turns regex mode over; `c`
    /// (and `f`) limit the search to the selected column or lift that; other
    /// characters are appended to the query.
    pub open spec fn search_key_done(pre: App, post: App, key: KeyEvent) -> bool {
        let q = pre.search.query@;
        match key.code {
            KeyCode::Esc => post.search.query@.len() == 0 && post == (App {
                modes: Modes { search_active: false, ..pre.modes },
                search: Search { query: post.search.query, regex_mode: false, column: None, ..pre.search },
                ..pre
            }),
            KeyCode::Enter => exists|mid: App|
                #[trigger] App::search_done(pre, mid) && post == (App {
                    modes: Modes { search_active: false, ..mid.modes },
                    ..mid
                }),
            KeyCode::Backspace => if q.len() == 0 {
                post == (App {
                    modes: Modes { search_active: false, ..pre.modes },
                    search: Search { regex_mode: false, column: None, ..pre.search },
                    ..pre
                })
            } else {
                let q1 = q.drop_last();
                let r_end = q1.len() > 0 && q1.last() == 'R';
                if r_end && pre.search.regex_mode {
                    post.search.query@ == q1.drop_last() && post == (App {
                        search: Search { query: post.search.query, regex_mode: false, ..pre.search },
                        ..pre
                    })
                } else {
                    post.search.query@ == q1 && post == (App {
                        search: Search { query: post.search.query, ..pre.search },
                        ..pre
                    })
                }
            },
            KeyCode::Char('R') => post == (App {
                search: Search { regex_mode: !pre.search.regex_mode, ..pre.search },
                message: post.message,
                ..pre
            }) && says(
                post.message,
                if pre.search.regex_mode {
                    "Regex mode: OFF"@
                } else {
                    "Regex mode: ON"@
                },
            ),
            KeyCode::Char(k) if k == 'c' || k == 'f' => match pre.search.column {
                Some(_) => post == (App { search: Search { column: None, ..pre.search }, message: post.message, ..pre })
                    && says(post.message, "Searching all columns"@),
                None => post == (App {
                    search: Search { column: Some(pre.cursor.selected_col), ..pre.search },
                    message: post.message,
                    ..pre
                }) && says(
                    post.message,
                    "Searching column "@ + decimal((pre.cursor.selected_col + 1) as nat) + " only"@,
                ),
            },
            KeyCode::Char(c) => post.search.query@ == q.push(c) && post == (App {
                search: Search { query: post.search.query, ..pre.search },
                ..pre
            }),
            _ => post == pre,
        }
    }

    #[verifier::rlimit(40)]
    fn handle_search_key(&mut self, key: KeyEvent)
        requires
            old(self).wf(),
        ensures
            App::search_key_done(*old(self), *final(self), key),
            final(self).wf(),
    {
        match key.code {
            KeyCode::Esc => {
                let mut m = self.modes;
                m.search_active = false;
                self.set_modes(m);
                self.set_search_query(String::new());
                self.set_search_options(false, None);
            },
            KeyCode::Enter => {
                self.perform_search();
                let ghost mid = *self;
                let mut m = self.modes;
                m.search_active = false;
                self.set_modes(m);
                assert(App::search_done(*old(self), mid));
            },
            KeyCode::Backspace => {
                if self.search.query.as_str().is_empty() {
                    let mut m = self.modes;
                    m.search_active = false;
                    self.set_modes(m);
                    self.set_search_options(false, None);
                } else {
                    let q1 = drop_last_char(self.search.query.as_str());
                    let v = chars_of(q1.as_str());
                    let r_end = v.len() > 0 && v[v.len() - 1] == 'R';
                    if r_end && self.search.regex_mode {
                        let q2 = drop_last_char(q1.as_str());
                        self.set_search_query(q2);
                        let col = self.search.column;
                        self.set_search_options(false, col);
                    } else {
                        self.set_search_query(q1);
                    }
                }
            },
            KeyCode::Char('R') => {
                let r = !self.search.regex_mode;
                let col = self.search.column;
                self.set_search_options(r, col);
                if r {
                    self.set_message(Some("Regex mode: ON".to_owned()));
                } else {
                    self.set_message(Some("Regex mode: OFF".to_owned()));
                }
            },
            KeyCode::Char(k) if k == 'c' || k == 'f' => {
                let r = self.search.regex_mode;
                if self.search.column.is_some() {
                    self.set_search_options(r, None);
                    self.set_message(Some("Searching all columns".to_owned()));
                } else {
                    let c = self.cursor.selected_col;
                    self.set_search_options(r, Some(c));
                    let mut m = "Searching column ".to_owned();
                    append_str(&mut m, decimal_text(c + 1).as_str());
                    append_str(&mut m, " only");
                    self.set_message(Some(m));
                }
            },
            KeyCode::Char(c) => {
                let mut q = self.search.query.clone();
                push_char(&mut q, c);
                self.set_search_query(q);
            },
            _ => {},
        }
    }
}

} // verus!

verus! {

impl App {
    fn set_replace(&mut self, r: Replace)
        ensures
            *final(self) == (App { replace: r, ..*old(self) }),
    {
        self.replace = r;
    }

    fn set_replace_with(&mut self, w: String)
        ensures
            *final(self) == (App { replace: Replace { with: w, ..old(self).replace }, ..*old(self) }),
    {
        self.replace.with = w;
    }

    fn set_replace_cursor(&mut self, c: usize)
        ensures
            *final(self) == (App { replace: Replace { cursor: c, ..old(self).replace }, ..*old(self) }),
    {
        self.replace.cursor = c;
    }

    fn set_replace_query(&mut self, q: String)
        ensures
            *final(self) == (App { replace: Replace { query: q, ..old(self).replace }, ..*old(self) }),
    {
        self.replace.query = q;
    }

    /// The replace prompt's Enter can run: with a replacement typed,
    /// `replacement` gives a text for every cell it replaces in.
    pub open spec fn replace_enter_ok(self) -> bool {
        self.replace.with@.len() > 0 ==> if self.replace.all_mode {
            self.replace_all_ok()
        } else {
            self.replace_current_ok()
        }
    }

    /// `post` is `pre` with the replace query changed to `q` and searched
    /// for: the search looks for `q` (see `search_done`).
    pub open spec fn requeried(pre: App, post: App, q: Seq<char>) -> bool {
        exists|mid: App|
            #[trigger] App::search_done(mid, post) && mid.replace.query@ == q && mid.search.query@ == q
                && mid == (App {
                replace: Replace { query: mid.replace.query, ..pre.replace },
                search: Search { query: mid.search.query, ..pre.search },
                ..pre
            })
    }

    /// `post` is `pre` after key `key` in the replace prompt: Esc closes
    /// it, both fields and its mode cleared; Enter replaces (the current
    /// result, or all of them in replace-all mode) and closes it, or asks
    /// for the replacement where none is typed; Tab moves between the two
    /// fields; in the query field `n` and `N` go to the next and previous
    /// result, and typing or Backspace edits the query and searches again;
    /// in the replacement field keys edit the replacement.
    pub open spec fn replace_key_done(pre: App, post: App, key: KeyEvent) -> bool {
        let cur = pre.replace.cursor;
        let q = pre.replace.query@;
        let w = pre.replace.with@;
        match key.code {
            KeyCode::Esc => post.replace.query@.len() == 0 && post.replace.with@.len() == 0 && post == (App {
                modes: Modes { replace_active: false, ..pre.modes },
                replace: Replace {
                    query: post.replace.query,
                    with: post.replace.with,
                    cursor: 0,
                    all_mode: false,
                },
                ..pre
            }),
            KeyCode::Enter => if w.len() == 0 {
                post == (App { message: post.message, ..pre }) && says(post.message, "Enter replacement text first"@)
            } else {
                exists|mid: App|
                    (if pre.replace.all_mode {
                        App::replace_all_done(pre, mid)
                    } else {
                        App::replace_current_done(pre, mid)
                    }) && #[trigger] mid.wf() && post == (App {
                        modes: Modes { replace_active: false, ..mid.modes },
                        replace: Replace { cursor: 0, ..mid.replace },
                        ..mid
                    })
            },
            KeyCode::Tab => post == (App {
                replace: Replace {
                    cursor: if cur == 0 {
                        1
                    } else {
                        0
                    },
                    ..pre.replace
                },
                ..pre
            }),
            KeyCode::Char('n') if cur == 0 => App::jump_next_done(pre, post),
            KeyCode::Char('N') if cur == 0 => App::jump_prev_done(pre, post),
            KeyCode::Backspace => if cur == 0 {
                if q.len() > 0 {
                    App::requeried(pre, post, q.drop_last())
                } else {
                    post == pre
                }
            } else if w.len() > 0 {
                post.replace.with@ == w.drop_last() && post == (App {
                    replace: Replace { with: post.replace.with, ..pre.replace },
                    ..pre
                })
            } else {
                post == pre
            },
            KeyCode::Char(c) => if cur == 0 {
                exists|s: App|
                    #[trigger] App::requeried(pre, s, q.push(c)) && post == (App { message: post.message, ..s })
                        && says(post.message, "Found "@ + decimal(s.search.results@.len()) + " matches"@)
            } else {
                post.replace.with@ == w.push(c) && post == (App {
                    replace: Replace { with: post.replace.with, ..pre.replace },
                    ..pre
                })
            },
            _ => post == pre,
        }
    }

    #[verifier::rlimit(30)]
    fn requery(&mut self, q: String)
        requires
            old(self).wf(),
        ensures
            App::requeried(*old(self), *final(self), q@),
            final(self).wf(),
            *final(self) == (App {
                search: final(self).search,
                cursor: final(self).cursor,
                message: final(self).message,
                replace: Replace { query: final(self).replace.query, ..old(self).replace },
                ..*old(self)
            }),
    {
        let q2 = q.clone();
        self.set_replace_query(q);
        self.set_search_query(q2);
        let ghost mid = *self;
        self.perform_search();
        assert(App::search_done(mid, *self));
    }

    #[verifier::rlimit(60)]
    fn handle_replace_key(&mut self, key: KeyEvent)
        requires
            old(self).wf(),
            key.code == KeyCode::Enter ==> old(self).replace_enter_ok(),
        ensures
            App::replace_key_done(*old(self), *final(self), key),
            final(self).wf(),
    {
        match key.code {
            KeyCode::Esc => {
                let mut m = self.modes;
                m.replace_active = false;
                self.set_modes(m);
                self.set_replace(Replace { query: String::new(), with: String::new(), all_mode: false, cursor: 0 });
            },
            KeyCode::Enter => {
                if self.replace.with.as_str().is_empty() {
                    self.set_message(Some("Enter replacement text first".to_owned()));
                    return;
                }
                if self.replace.all_mode {
                    self.replace_all();
                } else {
                    self.replace_current();
                }
                let ghost mid = *self;
                let mut m = self.modes;
                m.replace_active = false;
                self.set_modes(m);
                self.set_replace_cursor(0);
                assert(mid.wf());
            },
            KeyCode::Tab => {
                let c = if self.replace.cursor == 0 {
                    1
                } else {
                    0
                };
                self.set_replace_cursor(c);
            },
            KeyCode::Char('n') if self.replace.cursor == 0 => {
                self.jump_to_next_search_result();
            },
            KeyCode::Char('N') if self.replace.cursor == 0 => {
                self.jump_to_prev_search_result();
            },
            KeyCode::Backspace => {
                if self.replace.cursor == 0 {
                    if !self.replace.query.as_str().is_empty() {
                        let q = drop_last_char(self.replace.query.as_str());
                        self.requery(q);
                    }
                } else if !self.replace.with.as_str().is_empty() {
                    let w = drop_last_char(self.replace.with.as_str());
                    self.set_replace_with(w);
                }
            },
            KeyCode::Char(c) => {
                if self.replace.cursor == 0 {
                    let mut q = self.replace.query.clone();
                    push_char(&mut q, c);
                    self.requery(q);
                    let ghost s = *self;
                    let count = self.search.results.len();
                    let mut m = "Found ".to_owned();
                    append_str(&mut m, decimal_text(count).as_str());
                    append_str(&mut m, " matches");
                    self.set_message(Some(m));
                    assert(App::requeried(*old(self), s, old(self).replace.query@.push(c)));
                } else {
                    let mut w = self.replace.with.clone();
                    push_char(&mut w, c);
                    self.set_replace_with(w);
                }
            },
            _ => {},
        }
    }
}

} // verus!

verus! {

impl App {
    fn set_filter_selected(&mut self, s: Vec<bool>)
        ensures
            *final(self) == (App { filter: Filter { selected: s, ..old(self).filter }, ..*old(self) }),
    {
        self.filter.selected = s;
    }

    fn set_filter_cursor(&mut self, c: usize)
        ensures
            *final(self) == (App { filter: Filter { cursor: c, ..old(self).filter }, ..*old(self) }),
    {
        self.filter.cursor = c;
    }

    /// The filter popup offers at least one value.
    pub open spec fn filter_has_values(self) -> bool {
        self.filter.values@.len() > 0
    }

    /// `post` is `pre` after key `key` in the filter popup: Esc closes it;
    /// Enter applies the filter (see `apply_filter_done`), closes it and
    /// reports the rows left; Up and `k`, Down and `j` move the cursor
    /// within the values; Space ticks or unticks the value under the
    /// cursor; `a` ticks and `n` unticks them all; `c` drops the filter,
    /// showing every row in file order with the first selected.
    pub open spec fn filter_key_done(pre: App, post: App, key: KeyEvent) -> bool {
        let cur = pre.filter.cursor;
        let n = pre.filter.values@.len();
        match key.code {
            KeyCode::Esc => post == (App {
                modes: Modes { filter_mode: false, ..pre.modes },
                message: post.message,
                ..pre
            }) && says(post.message, "Filter cancelled"@),
            KeyCode::Enter => exists|mid: App|
                #[trigger] App::apply_filter_done(pre, mid) && post == (App {
                    modes: Modes { filter_mode: false, ..mid.modes },
                    message: post.message,
                    ..mid
                }) && says(post.message, "Filter applied: "@ + decimal(mid.rows.order@.len()) + " rows"@),
            KeyCode::Up | KeyCode::Char('k') => post == (App {
                filter: Filter {
                    cursor: if cur > 0 {
                        (cur - 1) as usize
                    } else {
                        cur
                    },
                    ..pre.filter
                },
                ..pre
            }),
            KeyCode::Down | KeyCode::Char('j') => post == (App {
                filter: Filter {
                    cursor: if cur < n - 1 {
                        (cur + 1) as usize
                    } else {
                        cur
                    },
                    ..pre.filter
                },
                ..pre
            }),
            KeyCode::Char(' ') => if cur < pre.filter.selected@.len() {
                post.filter.selected@ == pre.filter.selected@.update(cur as int, !pre.filter.selected@[cur as int])
                    && post == (App { filter: Filter { selected: post.filter.selected, ..pre.filter }, ..pre })
            } else {
                post == pre
            },
            KeyCode::Char('a') => post.filter.selected@ == Seq::new(n, |i: int| true) && post == (App {
                filter: Filter { selected: post.filter.selected, ..pre.filter },
                message: post.message,
                ..pre
            }) && says(post.message, "All values selected"@),
            KeyCode::Char('n') => post.filter.selected@ == Seq::new(n, |i: int| false) && post == (App {
                filter: Filter { selected: post.filter.selected, ..pre.filter },
                message: post.message,
                ..pre
            }) && says(post.message, "All values deselected"@),
            KeyCode::Char('c') => {
                &&& post.filter.values@.len() == 0
                &&& post.filter.selected@.len() == 0
                &&& post.rows.order@ == identity_order(pre.data.spec_rows().len())
                &&& says(post.message, "Column filter cleared"@)
                &&& post == (App {
                    filter: Filter {
                        active: false,
                        col: None,
                        values: post.filter.values,
                        selected: post.filter.selected,
                        ..pre.filter
                    },
                    modes: Modes { filter_mode: false, ..pre.modes },
                    rows: Rows { order: post.rows.order, ..pre.rows },
                    cursor: Cursor { selected_row: 0, scroll_offset: 0, ..pre.cursor },
                    message: post.message,
                    ..pre
                })
            },
            _ => post == pre,
        }
    }

    fn flags(n: usize, b: bool) -> (v: Vec<bool>)
        ensures
            v@ == Seq::new(n as nat, |i: int| b),
    {
        let mut v: Vec<bool> = Vec::new();
        let mut i: usize = 0;
        while i < n
            invariant
                i <= n,
                v@ == Seq::new(i as nat, |x: int| b),
            decreases n - i,
        {
            v.push(b);
            i = i + 1;
            assert(v@ =~= Seq::new(i as nat, |x: int| b));
        }
        v
    }

    #[verifier::rlimit(60)]
    fn handle_filter_key(&mut self, key: KeyEvent)
        requires
            old(self).wf(),
            key.code == KeyCode::Down || key.code == KeyCode::Char('j') ==> old(self).filter_has_values(),
        ensures
            App::filter_key_done(*old(self), *final(self), key),
            final(self).wf(),
    {
        match key.code {
            KeyCode::Esc => {
                let mut m = self.modes;
                m.filter_mode = false;
                self.set_modes(m);
                self.set_message(Some("Filter cancelled".to_owned()));
            },
            KeyCode::Enter => {
                self.apply_filter();
                let ghost mid = *self;
                let mut m = self.modes;
                m.filter_mode = false;
                self.set_modes(m);
                let mut msg = "Filter applied: ".to_owned();
                append_str(&mut msg, decimal_text(self.rows.order.len()).as_str());
                append_str(&mut msg, " rows");
                self.set_message(Some(msg));
                assert(App::apply_filter_done(*old(self), mid));
            },
            KeyCode::Up | KeyCode::Char('k') => {
                if self.filter.cursor > 0 {
                    let c = self.filter.cursor - 1;
                    self.set_filter_cursor(c);
                }
            },
            KeyCode::Down | KeyCode::Char('j') => {
                if self.filter.cursor < self.filter.values.len() - 1 {
                    let c = self.filter.cursor + 1;
                    self.set_filter_cursor(c);
                }
            },
            KeyCode::Char(' ') => {
                let cur = self.filter.cursor;
                if cur < self.filter.selected.len() {
                    let mut s = copy_flags(&self.filter.selected);
                    let b = !s[cur];
                    s.set(cur, b);
                    self.set_filter_selected(s);
                }
            },
            KeyCode::Char('a') => {
                let s = App::flags(self.filter.values.len(), true);
                self.set_filter_selected(s);
                self.set_message(Some("All values selected".to_owned()));
            },
            KeyCode::Char('n') => {
                let s = App::flags(self.filter.values.len(), false);
                self.set_filter_selected(s);
                self.set_message(Some("All values deselected".to_owned()));
            },
            KeyCode::Char('c') => {
                self.clear_filter();
                let mut c = self.cursor;
                c.selected_row = 0;
                c.scroll_offset = 0;
                self.set_cursor(c);
                self.set_message(Some("Column filter cleared".to_owned()));
            },
            _ => {},
        }
    }
}

/// A copy of a list of flags.
fn copy_flags(v: &Vec<bool>) -> (r: Vec<bool>)
    ensures
        r@ == v@,
{
    let mut r: Vec<bool> = Vec::new();
    let mut i: usize = 0;
    while i < v.len()
        invariant
            i <= v@.len(),
            r@ == v@.take(i as int),
        decreases v@.len() - i,
    {
        r.push(v[i]);
        i = i + 1;
        assert(r@ =~= v@.take(i as int));
    }
    assert(v@.take(i as int) =~= v@);
    r
}

} // verus!

verus! {

/// The value of a digit key from 1 to 9.
pub open spec fn digit_value(c: char) -> Option<nat> {
    if '1' <= c && c <= '9' {
        Some((c as nat - '0' as nat) as nat)
    } else {
        None
    }
}

/// The count a motion repeats by: the pending count, or 1.
pub open spec fn count_of(p: Option<usize>) -> nat {
    match p {
        Some(c) => c as nat,
        None => 1,
    }
}

/// `b` less `a`, or 0 where `a` is larger.
pub open spec fn minus(b: nat, a: nat) -> nat {
    if b >= a {
        (b - a) as nat
    } else {
        0
    }
}

/// The smaller of `a` and `b`.
pub open spec fn least(a: nat, b: nat) -> nat {
    if a <= b {
        a
    } else {
        b
    }
}

/// A second `g` at `now` (in milliseconds) follows one at `then` within
/// half a second; a clock that went back counts as no time passed.
pub open spec fn within_double_press(now: u64, then: u64) -> bool {
    now < then || now - then < 500
}

/// The key moves the selection or builds a count (see `motion_done`).
pub open spec fn is_motion(key: KeyEvent) -> bool {
    match key.code {
        KeyCode::Char(c) => digit_value(c) is Some || c == 'k' || c == 'j' || c == 'h' || c == 'l' || c == ';'
            || c == 'g' || c == 'G' || c == '0' || c == '$' || (key.ctrl && (c == 'b' || c == 'f')),
        KeyCode::Up | KeyCode::Down | KeyCode::Left | KeyCode::Right => true,
        _ => false,
    }
}

impl App {
    /// The pending count and the motions can be carried out without
    /// overflow.
    pub open spec fn motion_ok(self, key: KeyEvent) -> bool {
        let p = self.cursor.pending_count;
        let count = count_of(p);
        match key.code {
            KeyCode::Char(c) => if digit_value(c) is Some {
                p matches Some(v) ==> v * 10 + digit_value(c)->0 <= usize::MAX
            } else if c == '0' {
                p matches Some(v) ==> v * 10 <= usize::MAX
            } else if c == 'j' {
                self.cursor.selected_row + count <= usize::MAX
            } else if c == 'l' || c == ';' {
                self.cursor.selected_col + count <= usize::MAX
            } else {
                true
            },
            KeyCode::Down => self.cursor.selected_row + count <= usize::MAX,
            KeyCode::Right => self.cursor.selected_col + count <= usize::MAX,
            _ => true,
        }
    }

    /// `post` is `pre` after a motion key at `now`: digits build the
    /// pending count; up, down, left and right move by it (down and right
    /// to the last row and column at most) and drop it; Ctrl+B and Ctrl+F
    /// page; Ctrl+G and a second `g` within half a second go to the first
    /// row; `G` goes to the row the count names, or the last; `0` adds a
    /// zero to a pending count or goes to the first column; `$` goes to the
    /// last column. Moving the row keeps it in view.
    pub open spec fn motion_done(pre: App, post: App, key: KeyEvent, now: u64) -> bool {
        let c0 = pre.cursor;
        let p = c0.pending_count;
        let count = count_of(p);
        let last_row = last_index(pre.rows.order@.len());
        let last_col = last_index(pre.data.spec_headers().len());
        let up = KeyCode::Up == key.code || key.code == KeyCode::Char('k');
        let down = KeyCode::Down == key.code || key.code == KeyCode::Char('j');
        let left = KeyCode::Left == key.code || key.code == KeyCode::Char('h');
        let right = KeyCode::Right == key.code || key.code == KeyCode::Char('l') || key.code == KeyCode::Char(';');
        if key.code matches KeyCode::Char(c) && digit_value(c) is Some {
            let d = digit_value(key.code->Char_0)->0;
            post == (App {
                cursor: Cursor {
                    pending_count: Some(
                        match p {
                            Some(v) => (v * 10 + d) as usize,
                            None => d as usize,
                        },
                    ),
                    ..c0
                },
                ..pre
            })
        } else if up {
            post == (App {
                cursor: App::in_view(
                    Cursor { selected_row: minus(c0.selected_row as nat, count) as usize, pending_count: None, ..c0 },
                ),
                ..pre
            })
        } else if down {
            post == (App {
                cursor: App::in_view(
                    Cursor {
                        selected_row: least(c0.selected_row as nat + count, last_row) as usize,
                        pending_count: None,
                        ..c0
                    },
                ),
                ..pre
            })
        } else if left {
            post == (App {
                cursor: Cursor { selected_col: minus(c0.selected_col as nat, count) as usize, pending_count: None, ..c0 },
                ..pre
            })
        } else if right {
            post == (App {
                cursor: Cursor {
                    selected_col: least(c0.selected_col as nat + count, last_col) as usize,
                    pending_count: None,
                    ..c0
                },
                ..pre
            })
        } else if key.code == KeyCode::Char('b') && key.ctrl {
            App::page_up_done(pre, post)
        } else if key.code == KeyCode::Char('f') && key.ctrl {
            App::page_down_done(pre, post)
        } else if key.code == KeyCode::Char('g') && key.ctrl {
            post == (App { cursor: Cursor { selected_row: 0, scroll_offset: 0, ..c0 }, ..pre })
        } else if key.code == KeyCode::Char('g') {
            match c0.last_g_press {
                Some(t) if within_double_press(now, t) => post == (App {
                    cursor: Cursor { selected_row: 0, scroll_offset: 0, last_g_press: None, ..c0 },
                    ..pre
                }),
                _ => post == (App { cursor: Cursor { last_g_press: Some(now), ..c0 }, ..pre }),
            }
        } else if key.code == KeyCode::Char('G') {
            let target = match p {
                Some(v) => least((v - 1) as nat, last_row),
                None => last_row,
            };
            post == (App {
                cursor: App::in_view(Cursor { selected_row: target as usize, pending_count: None, ..c0 }),
                ..pre
            })
        } else if key.code == KeyCode::Char('0') {
            match p {
                Some(v) => post == (App { cursor: Cursor { pending_count: Some((v * 10) as usize), ..c0 }, ..pre }),
                None => post == (App { cursor: Cursor { selected_col: 0, ..c0 }, ..pre }),
            }
        } else if key.code == KeyCode::Char('$') {
            post == (App { cursor: Cursor { selected_col: last_col as usize, ..c0 }, ..pre })
        } else {
            post == pre
        }
    }

    #[verifier::rlimit(80)]
    fn handle_motion_key(&mut self, key: KeyEvent, now: u64)
        requires
            old(self).wf(),
            old(self).motion_ok(key),
        ensures
            App::motion_done(*old(self), *final(self), key, now),
            final(self).wf(),
    {
        proof {
            reveal(order_ok);
        }
        let mut c = self.cursor;
        let count = match c.pending_count {
            Some(v) => v,
            None => 1,
        };
        let n = self.rows.order.len();
        let last_row = if n > 0 {
            n - 1
        } else {
            0
        };
        let nc = self.data.column_count();
        let last_col = if nc > 0 {
            nc - 1
        } else {
            0
        };
        let code = key.code;
        if let KeyCode::Char(ch) = code {
            if '1' <= ch && ch <= '9' {
                let d = (ch as u32 - '0' as u32) as usize;
                assert(d == digit_value(ch)->0);
                c.pending_count = match c.pending_count {
                    Some(v) => Some(v * 10 + d),
                    None => Some(d),
                };
                self.set_cursor(c);
                return;
            }
        }
        if code == KeyCode::Up || code == KeyCode::Char('k') {
            c.selected_row = if c.selected_row >= count {
                c.selected_row - count
            } else {
                0
            };
            c.pending_count = None;
            self.set_cursor(c);
            self.ensure_selection_visible();
        } else if code == KeyCode::Down || code == KeyCode::Char('j') {
            let t = c.selected_row + count;
            c.selected_row = if t <= last_row {
                t
            } else {
                last_row
            };
            c.pending_count = None;
            self.set_cursor(c);
            self.ensure_selection_visible();
        } else if code == KeyCode::Left || code == KeyCode::Char('h') {
            c.selected_col = if c.selected_col >= count {
                c.selected_col - count
            } else {
                0
            };
            c.pending_count = None;
            self.set_cursor(c);
        } else if code == KeyCode::Right || code == KeyCode::Char('l') || code == KeyCode::Char(';') {
            let t = c.selected_col + count;
            c.selected_col = if t <= last_col {
                t
            } else {
                last_col
            };
            c.pending_count = None;
            self.set_cursor(c);
        } else if code == KeyCode::Char('b') && key.ctrl {
            self.page_up();
        } else if code == KeyCode::Char('f') && key.ctrl {
            self.page_down();
        } else if code == KeyCode::Char('g') && key.ctrl {
            c.selected_row = 0;
            c.scroll_offset = 0;
            self.set_cursor(c);
        } else if code == KeyCode::Char('g') {
            let double = match c.last_g_press {
                Some(t) => now < t || now - t < 500,
                None => false,
            };
            if double {
                c.selected_row = 0;
                c.scroll_offset = 0;
                c.last_g_press = None;
            } else {
                c.last_g_press = Some(now);
            }
            self.set_cursor(c);
        } else if code == KeyCode::Char('G') {
            c.selected_row = match c.pending_count {
                Some(v) => if v - 1 <= last_row {
                    v - 1
                } else {
                    last_row
                },
                None => last_row,
            };
            c.pending_count = None;
            self.set_cursor(c);
            self.ensure_selection_visible();
        } else if code == KeyCode::Char('0') {
            match c.pending_count {
                Some(v) => {
                    c.pending_count = Some(v * 10);
                },
                None => {
                    c.selected_col = 0;
                },
            }
            self.set_cursor(c);
        } else if code == KeyCode::Char('$') {
            c.selected_col = last_col;
            self.set_cursor(c);
        }
    }
}

} // verus!

verus! {

impl App {
    /// The action key can be carried out: the keys that work on the
    /// selected cell or row need a selected row, those that add a row need
    /// room for it, and pasting and undoing need what their own operations
    /// need.
    pub open spec fn action_ok(self, key: KeyEvent) -> bool {
        match key.code {
            KeyCode::Enter => self.has_selection(),
            KeyCode::Char(c) => if c == 'i' || c == 'y' || c == 'd' || c == 'x' || c == 'Y' {
                self.has_selection()
            } else if c == 'O' {
                self.has_selection() && self.has_room()
            } else if c == 'o' {
                self.has_room()
            } else if c == 'p' && !key.ctrl {
                self.paste_ok()
            } else if c == 'P' {
                self.paste_row_ok()
            } else if c == 'u' {
                self.undo_ok()
            } else if c == 'r' {
                self.redo_ok()
            } else {
                true
            },
            _ => true,
        }
    }

    /// `post` and `effect` after an action key: `q` and Esc quit where
    /// nothing is left to undo; `:` opens the command line, `?` the help,
    /// `/` a new search, Ctrl+P the palette; `n` and `N` go through the
    /// search results; Ctrl+S and `w` save; Ctrl+C turns case sensitivity
    /// over and searches again where there is a query; `t` and `T` ask for
    /// the next and the previous sheet, `U` turns duplicate highlighting
    /// over; the other keys run the operation they name. Other keys change
    /// nothing.
    pub open spec fn action_done(pre: App, post: App, key: KeyEvent, effect: Effect) -> bool {
        let code = key.code;
        let quiet = effect is Nothing;
        if code == KeyCode::Char('q') || code == KeyCode::Esc {
            quiet && if pre.editing.undo@.len() == 0 {
                post == (App { modes: Modes { should_quit: true, ..pre.modes }, ..pre })
            } else {
                post == pre
            }
        } else if code == KeyCode::Char(':') {
            quiet && post.commands.buffer@.len() == 0 && post == (App {
                modes: Modes { command_mode: true, ..pre.modes },
                commands: Commands { buffer: post.commands.buffer, ..pre.commands },
                ..pre
            })
        } else if code == KeyCode::Char('?') {
            quiet && post == (App { modes: Modes { show_help: true, ..pre.modes }, ..pre })
        } else if code == KeyCode::Char('/') {
            quiet && post.search.query@.len() == 0 && post.search.results@.len() == 0 && post == (App {
                modes: Modes { search_active: true, ..pre.modes },
                search: Search {
                    query: post.search.query,
                    results: post.search.results,
                    current: 0,
                    regex_mode: false,
                    column: None,
                    ..pre.search
                },
                ..pre
            })
        } else if code == KeyCode::Char('n') {
            quiet && App::jump_next_done(pre, post)
        } else if code == KeyCode::Char('N') {
            quiet && App::jump_prev_done(pre, post)
        } else if code == KeyCode::Char('s') && key.ctrl {
            App::save_done(pre, post, effect)
        } else if code == KeyCode::Char('p') && key.ctrl {
            quiet && post.commands.palette_query@.len() == 0 && post == (App {
                modes: Modes { command_palette_mode: true, ..pre.modes },
                commands: Commands { palette_query: post.commands.palette_query, palette_cursor: 0, ..pre.commands },
                ..pre
            })
        } else if code == KeyCode::Char('c') && key.ctrl {
            let mid = App { search: Search { case_sensitive: !pre.search.case_sensitive, ..pre.search }, ..pre };
            quiet && if pre.search.query@.len() > 0 {
                App::search_done(mid, post)
            } else {
                post == mid
            }
        } else if code == KeyCode::Char('w') {
            App::save_done(pre, post, effect)
        } else if code == KeyCode::Enter || code == KeyCode::Char('i') {
            quiet && App::start_edit_done(pre, post)
        } else if code == KeyCode::Char('y') {
            App::copy_selection_done(pre, post, effect)
        } else if code == KeyCode::Char('d') {
            App::cut_selection_done(pre, post, effect)
        } else if code == KeyCode::Char('p') {
            quiet && App::paste_done(pre, post)
        } else if code == KeyCode::Char('u') {
            quiet && App::undo_done(pre, post)
        } else if code == KeyCode::Char('r') {
            quiet && App::redo_done(pre, post)
        } else if code == KeyCode::Char('R') {
            quiet && App::clear_sort_done(pre, post)
        } else if code == KeyCode::Char('s') {
            quiet && App::toggle_sort_done(pre, post)
        } else if code == KeyCode::Char('o') {
            quiet && App::row_inserted_at(
                pre,
                post,
                pre.row_below(),
                "Inserted row below "@ + decimal((pre.row_below() + 1) as nat),
            )
        } else if code == KeyCode::Char('O') {
            quiet && App::row_inserted_at(
                pre,
                post,
                pre.current_row(),
                "Inserted row above "@ + decimal((pre.current_row() + 1) as nat),
            )
        } else if code == KeyCode::Char('x') {
            quiet && App::delete_row_done(pre, post)
        } else if code == KeyCode::Char('Y') {
            App::copy_row_done(pre, post, effect)
        } else if code == KeyCode::Char('P') {
            quiet && App::paste_row_done(pre, post)
        } else if code == KeyCode::Char('t') {
            post == pre && match pre.next_sheet_index() {
                Some(k) => effect == (Effect::LoadSheet { index: k }),
                None => effect is Nothing,
            }
        } else if code == KeyCode::Char('T') {
            post == pre && match pre.prev_sheet_index() {
                Some(k) => effect == (Effect::LoadSheet { index: k }),
                None => effect is Nothing,
            }
        } else if code == KeyCode::Char('U') {
            quiet && App::toggle_duplicates_done(pre, post)
        } else {
            quiet && post == pre
        }
    }

    fn set_search(&mut self, s: Search)
        ensures
            *final(self) == (App { search: s, ..*old(self) }),
    {
        self.search = s;
    }

    #[verifier::rlimit(100)]
    fn handle_action_key(&mut self, key: KeyEvent) -> (effect: Effect)
        requires
            old(self).wf(),
            old(self).action_ok(key),
        ensures
            App::action_done(*old(self), *final(self), key, effect),
            final(self).wf(),
    {
        let code = key.code;
        if code == KeyCode::Char('q') || code == KeyCode::Esc {
            if self.editing.undo.len() == 0 {
                let mut m = self.modes;
                m.should_quit = true;
                self.set_modes(m);
            }
            Effect::Nothing
        } else if code == KeyCode::Char(':') {
            let mut m = self.modes;
            m.command_mode = true;
            self.set_modes(m);
            self.set_command_buffer(String::new());
            Effect::Nothing
        } else if code == KeyCode::Char('?') {
            let mut m = self.modes;
            m.show_help = true;
            self.set_modes(m);
            Effect::Nothing
        } else if code == KeyCode::Char('/') {
            let mut m = self.modes;
            m.search_active = true;
            self.set_modes(m);
            let cs = self.search.case_sensitive;
            self.set_search(
                Search {
                    query: String::new(),
                    results: Vec::new(),
                    current: 0,
                    case_sensitive: cs,
                    regex_mode: false,
                    column: None,
                },
            );
            proof {
                reveal(results_ok);
            }
            Effect::Nothing
        } else if code == KeyCode::Char('n') {
            self.jump_to_next_search_result();
            Effect::Nothing
        } else if code == KeyCode::Char('N') {
            self.jump_to_prev_search_result();
            Effect::Nothing
        } else if code == KeyCode::Char('s') && key.ctrl {
            self.save()
        } else if code == KeyCode::Char('p') && key.ctrl {
            let mut m = self.modes;
            m.command_palette_mode = true;
            self.set_modes(m);
            self.set_palette_query(String::new());
            self.set_palette_cursor(0);
            Effect::Nothing
        } else if code == KeyCode::Char('c') && key.ctrl {
            self.search.case_sensitive = !self.search.case_sensitive;
            if !self.search.query.as_str().is_empty() {
                self.perform_search();
            }
            Effect::Nothing
        } else if code == KeyCode::Char('w') {
            self.save()
        } else if code == KeyCode::Enter || code == KeyCode::Char('i') {
            self.start_edit();
            Effect::Nothing
        } else if code == KeyCode::Char('y') {
            self.copy_selection()
        } else if code == KeyCode::Char('d') {
            self.cut_selection()
        } else if code == KeyCode::Char('p') {
            self.paste();
            Effect::Nothing
        } else if code == KeyCode::Char('u') {
            self.undo();
            Effect::Nothing
        } else if code == KeyCode::Char('r') {
            self.redo();
            Effect::Nothing
        } else if code == KeyCode::Char('R') {
            self.clear_sort();
            Effect::Nothing
        } else if code == KeyCode::Char('s') {
            self.toggle_sort();
            Effect::Nothing
        } else if code == KeyCode::Char('o') {
            self.insert_row();
            Effect::Nothing
        } else if code == KeyCode::Char('O') {
            self.insert_row_above();
            Effect::Nothing
        } else if code == KeyCode::Char('x') {
            self.delete_row();
            Effect::Nothing
        } else if code == KeyCode::Char('Y') {
            self.copy_row()
        } else if code == KeyCode::Char('P') {
            self.paste_row();
            Effect::Nothing
        } else if code == KeyCode::Char('t') {
            self.next_sheet()
        } else if code == KeyCode::Char('T') {
            self.prev_sheet()
        } else if code == KeyCode::Char('U') {
            self.toggle_duplicate_highlight();
            Effect::Nothing
        } else {
            Effect::Nothing
        }
    }
}

} // verus!

verus! {

/// The cell at row `r`, column `c` of `rows`, where there is one.
fn grid_cell(rows: &Vec<Vec<String>>, r: usize, c: usize) -> (cell: Option<String>)
    ensures
        match cell {
            Some(s) => cell_at(rows.deep_view(), r as int, c as int) == Some(s@),
            None => cell_at(rows.deep_view(), r as int, c as int) is None,
        },
{
    if r < rows.len() && c < rows[r].len() {
        Some(rows[r][c].clone())
    } else {
        None
    }
}

impl App {
    /// A copy of the sheet's rows.
    fn copy_rows(&self) -> (rows: Vec<Vec<String>>)
        ensures
            rows.deep_view() == self.data.spec_rows(),
    {
        let n = self.data.row_count();
        let mut rows: Vec<Vec<String>> = Vec::new();
        let mut i: usize = 0;
        while i < n
            invariant
                i <= n,
                n == self.data.spec_rows().len(),
                rows@.len() == i,
                forall|x: int| 0 <= x < i ==> (#[trigger] rows@[x]).deep_view() == self.data.spec_rows()[x],
            decreases n - i,
        {
            match self.data.get_row(i) {
                Some(r) => rows.push(r),
                None => {
                    proof {
                        assert(false);
                    }
                },
            }
            i = i + 1;
        }
        assert(rows.deep_view() =~= self.data.spec_rows());
        rows
    }

    /// Whether replace-all can run (see `replace_all_ok`): it is tried on
    /// a copy of the rows.
    #[verifier::rlimit(30)]
    fn replace_all_runs(&self) -> (b: bool)
        requires
            self.wf(),
        ensures
            b == self.replace_all_ok(),
    {
        if self.search.results.len() == 0 || self.replace.query.as_str().is_empty() {
            return true;
        }
        let cols = self.columns_to_search();
        let mut rows = self.copy_rows();
        let ghost q = self.replace.query@;
        let ghost w = self.replace.with@;
        let cs = self.search.case_sensitive;
        let rx = self.search.regex_mode;
        let ghost rows0 = self.data.spec_rows();
        let ghost mut es: Seq<EditView> = seq![];
        let n = self.rows.order.len();
        let mut k: usize = 0;
        assert(self.rows.order@.take(0) =~= Seq::<usize>::empty());
        while k < n
            invariant
                k <= n,
                n == self.rows.order@.len(),
                cols@ == self.search_columns(),
                q == self.replace.query@,
                w == self.replace.with@,
                q.len() > 0,
                cs == self.search.case_sensitive,
                rx == self.search.regex_mode,
                rows0 == self.data.spec_rows(),
                replace_in_rows((rows0, seq![]), self.rows.order@.take(k as int), cols@, q, w, cs, rx)
                    == Some((rows.deep_view(), es)),
                self.search.results@.len() > 0,
            decreases n - k,
        {
            let r = self.rows.order[k];
            let ghost acc_k = (rows.deep_view(), es);
            let nc = cols.len();
            let mut j: usize = 0;
            assert(cols@.take(0) =~= Seq::<usize>::empty());
            while j < nc
                invariant
                    j <= nc,
                    nc == cols@.len(),
                    q == self.replace.query@,
                    w == self.replace.with@,
                    q.len() > 0,
                    cs == self.search.case_sensitive,
                    rx == self.search.regex_mode,
                    replace_in_row(acc_k, r as int, cols@.take(j as int), q, w, cs, rx) == Some((rows.deep_view(), es)),
                    k < n,
                    n == self.rows.order@.len(),
                    r == self.rows.order@[k as int],
                    rows0 == self.data.spec_rows(),
                    cols@ == self.search_columns(),
                    replace_in_rows((rows0, seq![]), self.rows.order@.take(k as int), cols@, q, w, cs, rx)
                        == Some(acc_k),
                    self.search.results@.len() > 0,
                decreases nc - j,
            {
                proof {
                    assert(cols@.take(j + 1).drop_last() =~= cols@.take(j as int));
                    assert(cols@.take(j + 1).last() == cols@[j as int]);
                }
                let c = cols[j];
                if let Some(cell) = grid_cell(&rows, r, c) {
                    if cell_matches(cell.as_str(), self.replace.query.as_str(), cs, rx) {
                        match replacement_text(
                            cell.as_str(),
                            self.replace.query.as_str(),
                            self.replace.with.as_str(),
                            cs,
                            rx,
                        ) {
                            Some(nv) => {
                                proof {
                                    es = es.push(
                                        EditView::CellChange {
                                            row: r as nat,
                                            col: c as nat,
                                            old_value: cell@,
                                            new_value: nv@,
                                        },
                                    );
                                }
                                write_cell(&mut rows, r, c, nv.as_str());
                            },
                            None => {
                                proof {
                                    lemma_row_none(acc_k, r as int, cols@, q, w, cs, rx, j + 1);
                                    lemma_rows_none(
                                        (rows0, seq![]),
                                        self.rows.order@,
                                        cols@,
                                        q,
                                        w,
                                        cs,
                                        rx,
                                        k as int,
                                    );
                                    assert(cols@.take(nc as int) =~= cols@);
                                }
                                return false;
                            },
                        }
                    }
                }
                j = j + 1;
            }
            proof {
                assert(cols@.take(nc as int) =~= cols@);
                assert(self.rows.order@.take(k + 1).drop_last() =~= self.rows.order@.take(k as int));
                assert(self.rows.order@.take(k + 1).last() == r);
            }
            k = k + 1;
        }
        assert(self.rows.order@.take(n as int) =~= self.rows.order@);
        true
    }
}

/// A row fold that fails on a prefix of the columns fails on all of them.
proof fn lemma_row_none(
    acc: (Seq<Seq<Seq<char>>>, Seq<EditView>),
    r: int,
    cols: Seq<usize>,
    q: Seq<char>,
    rep: Seq<char>,
    cs: bool,
    regex: bool,
    k: int,
)
    requires
        0 <= k <= cols.len(),
        replace_in_row(acc, r, cols.take(k), q, rep, cs, regex) is None,
    ensures
        replace_in_row(acc, r, cols, q, rep, cs, regex) is None,
    decreases cols.len(),
{
    if k == cols.len() {
        assert(cols.take(k) =~= cols);
    } else {
        assert(cols.drop_last().take(k) =~= cols.take(k));
        lemma_row_none(acc, r, cols.drop_last(), q, rep, cs, regex, k);
    }
}

/// A fold over the rows that fails on a row fails on the whole order.
proof fn lemma_rows_none(
    acc: (Seq<Seq<Seq<char>>>, Seq<EditView>),
    order: Seq<usize>,
    cols: Seq<usize>,
    q: Seq<char>,
    rep: Seq<char>,
    cs: bool,
    regex: bool,
    k: int,
)
    requires
        0 <= k < order.len(),
        replace_in_rows(acc, order.take(k), cols, q, rep, cs, regex) matches Some(a) && replace_in_row(
            a,
            order[k] as int,
            cols,
            q,
            rep,
            cs,
            regex,
        ) is None,
    ensures
        replace_in_rows(acc, order, cols, q, rep, cs, regex) is None,
    decreases order.len(),
{
    if k == order.len() - 1 {
        assert(order.drop_last() =~= order.take(k));
    } else {
        assert(order.drop_last().take(k) =~= order.take(k));
        lemma_rows_none(acc, order.drop_last(), cols, q, rep, cs, regex, k);
    }
}

} // verus!

verus! {

impl App {
    /// Handling `key` can be done: every index it takes exists, every count
    /// fits, and every replacement it makes can be made.
    pub open spec fn key_ok(self, key: KeyEvent) -> bool {
        let down = key.code == KeyCode::Down || key.code == KeyCode::Char('j');
        if !key.press || self.modes.show_help || self.modes.search_active {
            true
        } else if self.modes.replace_active {
            key.code == KeyCode::Enter ==> self.replace_enter_ok()
        } else if self.modes.edit_mode {
            key.code == KeyCode::Enter ==> self.has_selection()
        } else if self.modes.command_mode {
            true
        } else if self.modes.filter_mode {
            down ==> self.filter_has_values()
        } else if self.modes.command_palette_mode {
            down ==> self.palette_lists_any()
        } else if is_motion(key) {
            self.motion_ok(key)
        } else {
            self.action_ok(key)
        }
    }

    /// `post` and `effect` after key `key` at `now` (in milliseconds): a
    /// key that is not a press does nothing; with the help shown, `?` and
    /// Esc hide it and other keys do nothing; otherwise the key goes to
    /// the search prompt, the replace prompt, the cell editor, the command
    /// line, the filter popup or the palette, whichever is open, in that
    /// order, and else moves the selection or runs an action.
    pub open spec fn key_done(pre: App, post: App, key: KeyEvent, now: u64, effect: Effect) -> bool {
        if !key.press {
            post == pre && effect is Nothing
        } else if pre.modes.show_help {
            effect is Nothing && if key.code == KeyCode::Char('?') || key.code == KeyCode::Esc {
                post == (App { modes: Modes { show_help: false, ..pre.modes }, ..pre })
            } else {
                post == pre
            }
        } else if pre.modes.search_active {
            effect is Nothing && App::search_key_done(pre, post, key)
        } else if pre.modes.replace_active {
            effect is Nothing && App::replace_key_done(pre, post, key)
        } else if pre.modes.edit_mode {
            effect is Nothing && App::edit_key_done(pre, post, key)
        } else if pre.modes.command_mode {
            App::command_key_done(pre, post, key, effect)
        } else if pre.modes.filter_mode {
            effect is Nothing && App::filter_key_done(pre, post, key)
        } else if pre.modes.command_palette_mode {
            App::palette_key_done(pre, post, key, effect)
        } else if is_motion(key) {
            effect is Nothing && App::motion_done(pre, post, key, now)
        } else {
            App::action_done(pre, post, key, effect)
        }
    }

    /// Handles a key pressed at `now` (in milliseconds, from any fixed
    /// start), and tells what the caller has to do outside.
    #[verifier::rlimit(30)]
    pub fn handle_key(&mut self, key: KeyEvent, now: u64) -> (effect: Effect)
        requires
            old(self).wf(),
            old(self).key_ok(key),
        ensures
            App::key_done(*old(self), *final(self), key, now, effect),
            final(self).wf(),
    {
        if !key.press {
            return Effect::Nothing;
        }
        if self.modes.show_help {
            if key.code == KeyCode::Char('?') || key.code == KeyCode::Esc {
                let mut m = self.modes;
                m.show_help = false;
                self.set_modes(m);
            }
            return Effect::Nothing;
        }
        if self.modes.search_active {
            self.handle_search_key(key);
            return Effect::Nothing;
        }
        if self.modes.replace_active {
            self.handle_replace_key(key);
            return Effect::Nothing;
        }
        if self.modes.edit_mode {
            self.handle_edit_key(key);
            return Effect::Nothing;
        }
        if self.modes.command_mode {
            return self.handle_command_key(key);
        }
        if self.modes.filter_mode {
            self.handle_filter_key(key);
            return Effect::Nothing;
        }
        if self.modes.command_palette_mode {
            return self.handle_command_palette_key(key);
        }
        if App::motion_key(key) {
            self.handle_motion_key(key, now);
            Effect::Nothing
        } else {
            self.handle_action_key(key)
        }
    }

    fn motion_key(key: KeyEvent) -> (b: bool)
        ensures
            b == is_motion(key),
    {
        match key.code {
            KeyCode::Char(c) => ('1' <= c && c <= '9') || c == 'k' || c == 'j' || c == 'h' || c == 'l' || c
                == ';' || c == 'g' || c == 'G' || c == '0' || c == '$' || (key.ctrl && (c == 'b' || c == 'f')),
            KeyCode::Up | KeyCode::Down | KeyCode::Left | KeyCode::Right => true,
            _ => false,
        }
    }

    fn selection_ok(&self) -> (b: bool)
        ensures
            b == self.has_selection(),
    {
        self.cursor.selected_row < self.rows.order.len()
    }

    fn room_ok(&self) -> (b: bool)
        ensures
            b == self.has_room(),
    {
        self.data.row_count() < LIMIT
    }

    fn replace_current_runs(&self) -> (b: bool)
        requires
            self.wf(),
        ensures
            b == self.replace_current_ok(),
    {
        if self.search.results.len() == 0 || self.replace.query.as_str().is_empty() {
            return true;
        }
        proof {
            reveal(results_ok);
        }
        let (d, c) = self.search.results[self.search.current];
        if d >= self.rows.order.len() {
            return false;
        }
        let r = self.rows.order[d];
        match self.data.get_cell(r, c) {
            None => true,
            Some(cell) => {
                let cs = self.search.case_sensitive;
                let rx = self.search.regex_mode;
                if !cell_matches(cell.as_str(), self.replace.query.as_str(), cs, rx) {
                    true
                } else {
                    replacement_text(
                        cell.as_str(),
                        self.replace.query.as_str(),
                        self.replace.with.as_str(),
                        cs,
                        rx,
                    ).is_some()
                }
            },
        }
    }

    fn motion_runs(&self, key: KeyEvent) -> (b: bool)
        ensures
            b == self.motion_ok(key),
    {
        let p = self.cursor.pending_count;
        let count = match p {
            Some(v) => v,
            None => 1,
        };
        match key.code {
            KeyCode::Char(c) => if '1' <= c && c <= '9' {
                let d = (c as u32 - '0' as u32) as usize;
                assert(d == digit_value(c)->0);
                match p {
                    Some(v) => match v.checked_mul(10) {
                        Some(t) => t.checked_add(d).is_some(),
                        None => false,
                    },
                    None => true,
                }
            } else if c == '0' {
                match p {
                    Some(v) => v.checked_mul(10).is_some(),
                    None => true,
                }
            } else if c == 'j' {
                self.cursor.selected_row.checked_add(count).is_some()
            } else if c == 'l' || c == ';' {
                self.cursor.selected_col.checked_add(count).is_some()
            } else {
                true
            },
            KeyCode::Down => self.cursor.selected_row.checked_add(count).is_some(),
            KeyCode::Right => self.cursor.selected_col.checked_add(count).is_some(),
            _ => true,
        }
    }

    fn action_runs(&self, key: KeyEvent) -> (b: bool)
        ensures
            b == self.action_ok(key),
    {
        match key.code {
            KeyCode::Enter => self.selection_ok(),
            KeyCode::Char(c) => if c == 'i' || c == 'y' || c == 'd' || c == 'x' || c == 'Y' {
                self.selection_ok()
            } else if c == 'O' {
                self.selection_ok() && self.room_ok()
            } else if c == 'o' {
                self.room_ok()
            } else if c == 'p' && !key.ctrl {
                self.editing.clipboard.is_none() || self.selection_ok()
            } else if c == 'P' {
                self.editing.clipboard_row.is_none() || (self.selection_ok() && self.room_ok())
            } else if c == 'u' {
                let n = self.editing.undo.len();
                if n == 0 {
                    true
                } else {
                    proof {
                        assert(edits(self.editing.undo@).last() == self.editing.undo@[n - 1]@);
                    }
                    match &self.editing.undo[n - 1] {
                        EditAction::RowDelete { .. } => self.room_ok(),
                        _ => true,
                    }
                }
            } else if c == 'r' {
                let n = self.editing.redo.len();
                if n == 0 {
                    true
                } else {
                    proof {
                        assert(edits(self.editing.redo@).last() == self.editing.redo@[n - 1]@);
                    }
                    match &self.editing.redo[n - 1] {
                        EditAction::RowInsert { .. } => self.room_ok(),
                        _ => true,
                    }
                }
            } else {
                true
            },
            _ => true,
        }
    }

    /// Whether `handle_key` can take `key` (see `key_ok`).
    #[verifier::rlimit(30)]
    pub fn can_handle(&self, key: KeyEvent) -> (b: bool)
        requires
            self.wf(),
        ensures
            b == self.key_ok(key),
    {
        let down = key.code == KeyCode::Down || key.code == KeyCode::Char('j');
        if !key.press || self.modes.show_help || self.modes.search_active {
            true
        } else if self.modes.replace_active {
            if key.code == KeyCode::Enter && !self.replace.with.as_str().is_empty() {
                if self.replace.all_mode {
                    self.replace_all_runs()
                } else {
                    self.replace_current_runs()
                }
            } else {
                true
            }
        } else if self.modes.edit_mode {
            key.code != KeyCode::Enter || self.selection_ok()
        } else if self.modes.command_mode {
            true
        } else if self.modes.filter_mode {
            !down || self.filter.values.len() > 0
        } else if self.modes.command_palette_mode {
            !down || palette_indices(self.commands.palette_query.as_str()).len() > 0
        } else if App::motion_key(key) {
            self.motion_runs(key)
        } else {
            self.action_runs(key)
        }
    }

    /// Handles `key` where `can_handle` allows it (see `handle_key`), and
    /// otherwise leaves the state as it is and returns `None`: a key that
    /// cannot be handled is a fault the caller has to report.
    pub fn handle_key_checked(&mut self, key: KeyEvent, now: u64) -> (effect: Option<Effect>)
        requires
            old(self).wf(),
        ensures
            final(self).wf(),
            old(self).key_ok(key) ==> (effect matches Some(e) && App::key_done(*old(self), *final(self), key, now, e)),
            !old(self).key_ok(key) ==> effect is None && *final(self) == *old(self),
    {
        if self.can_handle(key) {
            Some(self.handle_key(key, now))
        } else {
            None
        }
    }

    /// Decides, where a quit was asked for, whether the viewer ends: it
    /// does where nothing is left to undo or the quit was forced; otherwise
    /// the quit is called off with a warning. Without a quit asked for it
    /// goes on.
    pub fn confirm_quit(&mut self) -> (ends: bool)
        requires
            old(self).wf(),
        ensures
            final(self).wf(),
            ends == (old(self).quit_asked() && (old(self).undo_edits().len() == 0 || old(self).quit_forced())),
            ends ==> *final(self) == *old(self),
            !old(self).quit_asked() ==> *final(self) == *old(self),
            old(self).quit_asked() && !ends ==> App::quit_called_off(*old(self), *final(self)),
    {
        if !self.modes.should_quit {
            return false;
        }
        if self.editing.undo.len() > 0 && !self.modes.force_quit {
            let mut m = self.modes;
            m.should_quit = false;
            m.force_quit = false;
            self.set_modes(m);
            self.set_message(Some("Warning: Unsaved changes. Use :q! to force quit.".to_owned()));
            return false;
        }
        true
    }

    /// Whether a quit was asked for.
    pub fn should_quit(&self) -> (b: bool)
        ensures
            b == self.quit_asked(),
    {
        self.modes.should_quit
    }

    /// A quit was asked for.
    pub open spec fn quit_asked(self) -> bool {
        self.modes.should_quit
    }

    /// The quit asked for was forced (`:q!`).
    pub open spec fn quit_forced(self) -> bool {
        self.modes.force_quit
    }

    /// `post` is `pre` with the quit called off and the unsaved edits
    /// warned of.
    pub open spec fn quit_called_off(pre: App, post: App) -> bool {
        &&& post == (App {
            modes: Modes { should_quit: false, force_quit: false, ..pre.modes },
            message: post.message,
            ..pre
        })
        &&& says(post.message, "Warning: Unsaved changes. Use :q! to force quit."@)
    }
}

} // verus!

verus! {

impl App {
    /// The selection, scroll position, pending count and last `g`.
    pub open spec fn cursor_state(self) -> Cursor {
        self.cursor
    }

    /// The modes.
    pub open spec fn mode_flags(self) -> Modes {
        self.modes
    }

    /// The search state.
    pub open spec fn search_state(self) -> Search {
        self.search
    }

    /// The replace prompt.
    pub open spec fn replace_state(self) -> Replace {
        self.replace
    }

    /// The column filter.
    pub open spec fn filter_state(self) -> Filter {
        self.filter
    }

    /// The duplicate highlighting.
    pub open spec fn duplicates_state(self) -> Duplicates {
        self.duplicates
    }

    /// The edit buffer, the undo and redo stacks and the clipboards.
    pub open spec fn editing_state(self) -> Editing {
        self.editing
    }

    /// The command line and the palette.
    pub open spec fn commands_state(self) -> Commands {
        self.commands
    }

    /// The sort columns.
    pub open spec fn sort_state(self) -> Seq<(usize, bool)> {
        self.rows.sort_columns@
    }

    /// The sheet.
    pub fn data(&self) -> (d: &DataSourceType)
        ensures
            *d == self.sheet(),
    {
        &self.data
    }

    /// The number of rows shown.
    pub fn row_count(&self) -> (n: usize)
        ensures
            n == self.order().len(),
    {
        self.rows.order.len()
    }

    pub fn selected_row(&self) -> (r: usize)
        ensures
            r == self.cursor_state().selected_row,
    {
        self.cursor.selected_row
    }

    pub fn selected_col(&self) -> (c: usize)
        ensures
            c == self.cursor_state().selected_col,
    {
        self.cursor.selected_col
    }

    pub fn scroll_offset(&self) -> (s: usize)
        ensures
            s == self.cursor_state().scroll_offset,
    {
        self.cursor.scroll_offset
    }

    pub fn show_help(&self) -> (b: bool)
        ensures
            b == self.mode_flags().show_help,
    {
        self.modes.show_help
    }

    pub fn highlight_duplicates(&self) -> (b: bool)
        ensures
            b == self.duplicates_state().highlight,
    {
        self.duplicates.highlight
    }

    /// Whether a filter narrows the rows, whether its popup is open, its
    /// column, its values and their ticks, and its cursor.
    pub fn filter_info(&self) -> (info: (bool, bool, Option<usize>, &Vec<String>, &Vec<bool>, usize))
        ensures
            info.0 == self.filter_state().active,
            info.1 == self.mode_flags().filter_mode,
            info.2 == self.filter_state().col,
            *info.3 == self.filter_state().values,
            *info.4 == self.filter_state().selected,
            info.5 == self.filter_state().cursor,
    {
        (
            self.filter.active,
            self.modes.filter_mode,
            self.filter.col,
            &self.filter.values,
            &self.filter.selected,
            self.filter.cursor,
        )
    }

    /// The duplicate groups found when highlighting was switched on.
    pub fn duplicate_rows(&self) -> (g: &[(usize, Vec<usize>)])
        ensures
            g@ == self.duplicates_state().groups@,
    {
        self.duplicates.groups.as_slice()
    }

    /// The current sheet, the number of sheets and their names; the current
    /// sheet is always one of them.
    pub fn sheet_info(&self) -> (info: (usize, usize, Vec<String>))
        ensures
            info.0 == self.sheet().spec_current_sheet(),
            info.1 == self.sheet().spec_sheet_names().len(),
            info.2.deep_view() == self.sheet().spec_sheet_names(),
            info.0 < info.1,
    {
        (self.data.current_sheet(), self.data.sheet_count(), self.data.sheet_names())
    }

    pub fn message(&self) -> (m: Option<&String>)
        ensures
            match m {
                Some(s) => self.shown_message() == Some(*s),
                None => self.shown_message() is None,
            },
    {
        self.message.as_ref()
    }

    pub fn search_active(&self) -> (b: bool)
        ensures
            b == self.mode_flags().search_active,
    {
        self.modes.search_active
    }

    pub fn search_query(&self) -> (q: &str)
        ensures
            q@ == self.search_state().query@,
    {
        self.search.query.as_str()
    }

    pub fn edit_mode(&self) -> (b: bool)
        ensures
            b == self.mode_flags().edit_mode,
    {
        self.modes.edit_mode
    }

    pub fn edit_buffer(&self) -> (s: &str)
        ensures
            s@ == self.editing_state().buffer@,
    {
        self.editing.buffer.as_str()
    }

    pub fn command_mode(&self) -> (b: bool)
        ensures
            b == self.mode_flags().command_mode,
    {
        self.modes.command_mode
    }

    pub fn command_buffer(&self) -> (s: &str)
        ensures
            s@ == self.commands_state().buffer@,
    {
        self.commands.buffer.as_str()
    }

    pub fn replace_active(&self) -> (b: bool)
        ensures
            b == self.mode_flags().replace_active,
    {
        self.modes.replace_active
    }

    pub fn replace_query(&self) -> (s: &str)
        ensures
            s@ == self.replace_state().query@,
    {
        self.replace.query.as_str()
    }

    pub fn replace_with(&self) -> (s: &str)
        ensures
            s@ == self.replace_state().with@,
    {
        self.replace.with.as_str()
    }

    pub fn replace_all_mode(&self) -> (b: bool)
        ensures
            b == self.replace_state().all_mode,
    {
        self.replace.all_mode
    }

    /// Whether the palette is open, its query, its cursor and the commands
    /// it lists.
    pub fn command_palette_info(&self) -> (info: (bool, &str, usize, Vec<String>))
        ensures
            info.0 == self.mode_flags().command_palette_mode,
            info.1@ == self.palette_query(),
            info.2 == self.commands_state().palette_cursor,
            info.3.deep_view() == palette_listed(self.palette_query()).map_values(
                |i: usize| palette_label(i as int),
            ),
    {
        let cmds = self.get_palette_commands();
        (self.modes.command_palette_mode, self.commands.palette_query.as_str(), self.commands.palette_cursor, cmds)
    }

    /// The cells of the row shown at display position `display_idx`, where
    /// there is one.
    pub fn get_display_row(&self, display_idx: usize) -> (row: Option<Vec<String>>)
        requires
            self.wf(),
        ensures
            match row {
                Some(v) => display_idx < self.order().len() && v.deep_view() == self.sheet_rows()[self.order()[display_idx as int] as int],
                None => display_idx >= self.order().len(),
            },
    {
        proof {
            reveal(order_ok);
        }
        if display_idx >= self.rows.order.len() {
            return None;
        }
        self.data.get_row(self.rows.order[display_idx])
    }

    /// The cell in column `col` of the row shown at display position
    /// `display_row`, where there is one.
    pub fn get_display_cell(&self, display_row: usize, col: usize) -> (cell: Option<String>)
        ensures
            match cell {
                Some(s) => display_row < self.order().len() && cell_at(
                    self.sheet_rows(),
                    self.order()[display_row as int] as int,
                    col as int,
                ) == Some(s@),
                None => display_row >= self.order().len() || cell_at(
                    self.sheet_rows(),
                    self.order()[display_row as int] as int,
                    col as int,
                ) is None,
            },
    {
        if display_row >= self.rows.order.len() {
            return None;
        }
        self.data.get_cell(self.rows.order[display_row], col)
    }
}

/// The widest cell, in bytes, of column `col` among the `k` display rows
/// from `start`.
pub open spec fn widest(app: App, col: usize, start: int, k: int) -> nat
    decreases k,
{
    if k <= 0 {
        0
    } else {
        let prev = widest(app, col, start, k - 1);
        let d = start + k - 1;
        let w: nat = if 0 <= d < app.order().len() {
            match cell_at(app.sheet_rows(), app.order()[d] as int, col as int) {
                Some(t) => vstd::utf8::encode_utf8(t).len(),
                None => 0,
            }
        } else {
            0
        };
        if w > prev {
            w
        } else {
            prev
        }
    }
}

/// The width to draw column `col` at for the `num_rows` display rows from
/// `start_row`: its widest cell there, in bytes, and two more.
pub fn calculate_column_width(app: &App, col_idx: usize, start_row: usize, num_rows: usize) -> (w: usize)
    requires
        start_row + num_rows <= usize::MAX,
        widest(*app, col_idx, start_row as int, num_rows as int) + 2 <= usize::MAX,
    ensures
        w == widest(*app, col_idx, start_row as int, num_rows as int) + 2,
{
    let mut max_width: usize = 0;
    let mut k: usize = 0;
    while k < num_rows
        invariant
            k <= num_rows,
            start_row + num_rows <= usize::MAX,
            max_width == widest(*app, col_idx, start_row as int, k as int),
            widest(*app, col_idx, start_row as int, num_rows as int) + 2 <= usize::MAX,
        decreases num_rows - k,
    {
        proof {
            lemma_widest_grows(*app, col_idx, start_row as int, k + 1, num_rows as int);
        }
        if let Some(cell) = app.get_display_cell(start_row + k, col_idx) {
            let n = cell.as_str().as_bytes().len();
            if n > max_width {
                max_width = n;
            }
        }
        k = k + 1;
    }
    max_width + 2
}

proof fn lemma_widest_grows(app: App, col: usize, start: int, j: int, k: int)
    requires
        0 <= j <= k,
    ensures
        widest(app, col, start, j) <= widest(app, col, start, k),
    decreases k - j,
{
    if j < k {
        lemma_widest_grows(app, col, start, j, k - 1);
    }
}

} // verus!

verus! {

/// Undoing a recorded cell change writes its old text back into a cell
/// that the change had overwritten: the cells are as before the change.
proof fn lemma_undo_cell_change(rows0: Seq<Seq<Seq<char>>>, a1: App, a2: App, r: int, c: int, v: Seq<char>, nv: Seq<char>)
    requires
        0 <= r < rows0.len(),
        0 <= c < rows0[r].len(),
        rows0[r][c] == v,
        a1.data.spec_rows() == rows0.update(r, rows0[r].update(c, nv)),
        a1.editing.undo@.len() > 0,
        edits(a1.editing.undo@).last() == (EditView::CellChange { row: r as nat, col: c as nat, old_value: v, new_value: nv }),
        App::undo_done(a1, a2),
    ensures
        a2.data.spec_rows() == rows0,
{
    reveal(written);
    assert(rows0[r].update(c, nv).update(c, v) =~= rows0[r]);
    assert(a2.data.spec_rows() =~= rows0);
}

impl App {
    /// The selected cell exists.
    pub open spec fn selected_cell_exists(self) -> bool {
        cell_at(self.data.spec_rows(), self.current_row(), self.cursor.selected_col as int) is Some
    }

    /// Pasting changes the selected cell, which exists.
    pub open spec fn paste_changes_cell(self) -> bool {
        &&& self.selected_cell_exists()
        &&& self.editing.clipboard matches Some(t) && cell_or_empty(
            self.data.spec_rows(),
            self.current_row(),
            self.cursor.selected_col as int,
        ) != t@
    }

    /// The current search result's cell matches the replace query.
    pub open spec fn replace_target_matches(self) -> bool {
        let res = self.search.results@;
        &&& res.len() > 0
        &&& self.replace.query@.len() > 0
        &&& res[self.search.current as int].0 < self.rows.order@.len()
        &&& cell_at(
            self.data.spec_rows(),
            self.rows.order@[res[self.search.current as int].0 as int] as int,
            res[self.search.current as int].1 as int,
        ) matches Some(v) && text_matches(
            v,
            self.replace.query@,
            self.search.case_sensitive,
            self.search.regex_mode,
        )
    }
}

/// Undo takes back a cut of an existing cell: the sheet's cells are as
/// they were.
pub proof fn law_undo_reverts_cut(a0: App, a1: App, a2: App, effect: Effect)
    requires
        a0.wf(),
        a0.has_selection(),
        a0.selected_cell_exists(),
        App::cut_selection_done(a0, a1, effect),
        App::undo_done(a1, a2),
    ensures
        a2.sheet_rows() == a0.sheet_rows(),
{
    reveal(written);
    a0.lemma_current_row();
    let r = a0.current_row();
    let c = a0.cursor.selected_col as int;
    let rows0 = a0.data.spec_rows();
    let v = rows0[r][c];
    lemma_undo_cell_change(rows0, a1, a2, r, c, v, seq![]);
}

/// Undo takes back a paste into an existing cell: the sheet's cells are as
/// they were.
pub proof fn law_undo_reverts_paste(a0: App, a1: App, a2: App)
    requires
        a0.wf(),
        a0.has_selection(),
        a0.paste_changes_cell(),
        App::paste_done(a0, a1),
        App::undo_done(a1, a2),
    ensures
        a2.sheet_rows() == a0.sheet_rows(),
{
    reveal(written);
    a0.lemma_current_row();
    let r = a0.current_row();
    let c = a0.cursor.selected_col as int;
    let rows0 = a0.data.spec_rows();
    let v = rows0[r][c];
    let t = a0.editing.clipboard->0@;
    lemma_undo_cell_change(rows0, a1, a2, r, c, v, t);
}

/// Undo takes back replacing in the current search result: the sheet's
/// cells are as they were.
pub proof fn law_undo_reverts_replace(a0: App, a1: App, a2: App)
    requires
        a0.wf(),
        a0.replace_target_matches(),
        App::replace_current_done(a0, a1),
        App::undo_done(a1, a2),
    ensures
        a2.sheet_rows() == a0.sheet_rows(),
{
    reveal(written);
    reveal(order_ok);
    let res = a0.search.results@;
    let (d, c) = res[a0.search.current as int];
    let r = a0.rows.order@[d as int] as int;
    let rows0 = a0.data.spec_rows();
    let v = rows0[r][c as int];
    let nv = replacement(
        v,
        a0.replace.query@,
        a0.replace.with@,
        a0.search.case_sensitive,
        a0.search.regex_mode,
    )->0;
    lemma_undo_cell_change(rows0, a1, a2, r, c as int, v, nv);
}

/// Committing an edit writes the buffer into the selected cell: read back,
/// the cell holds it (where the cell exists).
pub proof fn law_commit_then_read(a0: App, a1: App)
    requires
        a0.wf(),
        a0.has_selection(),
        a0.selected_cell_exists(),
        App::commit_edit_done(a0, a1),
    ensures
        a1.order() == a0.order(),
        cell_at(a1.sheet_rows(), a0.current_row(), a0.cursor_state().selected_col as int) == Some(
            a0.editing_state().buffer@,
        ),
{
    reveal(written);
    a0.lemma_current_row();
}

/// Sorting shows the same rows: the display order after a sort holds
/// exactly the rows it held before, each once.
pub proof fn law_sort_keeps_rows(a0: App, a1: App)
    requires
        a0.wf(),
        App::toggle_sort_done(a0, a1),
    ensures
        a1.order().len() == a0.order().len(),
        forall|r: usize| a1.order().contains(r) <==> a0.order().contains(r),
{
    reveal(order_ok);
    let rows = a0.data.spec_rows();
    let sc = toggled_columns(a0.rows.sort_columns@, a0.cursor.selected_col);
    let o0 = a0.rows.order@;
    let n = o0.len();
    let keys = sort_keys(rows, o0, sc);
    let dirs = sort_dirs(sc);
    let pos = choose|pos: Seq<usize>|
        arranged(pos, keys, dirs, n) && a1.rows.order@ == Seq::new(n, |i: int| o0[pos[i] as int]);
    crate::sorting::lemma_arranged_covers(pos, keys, dirs, n);
    assert forall|r: usize| a1.order().contains(r) <==> a0.order().contains(r) by {
        if a1.order().contains(r) {
            let i = choose|i: int| 0 <= i < a1.order().len() && a1.order()[i] == r;
            assert(o0[pos[i] as int] == r);
        }
        if a0.order().contains(r) {
            let j = choose|j: int| 0 <= j < n && o0[j] == r;
            assert(crate::sorting::lists(pos, j));
            let i = choose|i: int| 0 <= i < pos.len() && pos[i] as int == j;
            assert(a1.order()[i] == r);
        }
    }
}

/// A sort puts the rows in the order of their sort keys, and rows whose
/// keys tie stay in the order they were shown in.
pub proof fn law_sort_orders_rows(a0: App, a1: App, i: int, j: int)
    requires
        a0.wf(),
        App::toggle_sort_done(a0, a1),
        0 <= i < j < a1.order().len(),
    ensures
        ({
            let sc = a1.sort_state();
            let ki = sort_key(a0.sheet_rows(), a1.order()[i] as int, sc);
            let kj = sort_key(a0.sheet_rows(), a1.order()[j] as int, sc);
            &&& keys_order(ki, kj, sort_dirs(sc), 0) != Order::Greater
            &&& keys_order(ki, kj, sort_dirs(sc), 0) == Order::Equal ==> index_in(a0.order(), a1.order()[i])->0
                < index_in(a0.order(), a1.order()[j])->0
        }),
{
    reveal(order_ok);
    let rows = a0.data.spec_rows();
    let sc = a1.rows.sort_columns@;
    let o0 = a0.rows.order@;
    let n = o0.len();
    let keys = sort_keys(rows, o0, sc);
    let dirs = sort_dirs(sc);
    let pos = choose|pos: Seq<usize>|
        arranged(pos, keys, dirs, n) && a1.rows.order@ == Seq::new(n, |x: int| o0[pos[x] as int]);
    let p = pos[i] as int;
    let q = pos[j] as int;
    assert(precedes(keys, dirs, p, q));
    assert(keys[p] == sort_key(rows, a1.order()[i] as int, sc));
    assert(keys[q] == sort_key(rows, a1.order()[j] as int, sc));
    if keys_order(keys[p], keys[q], dirs, 0) == Order::Equal {
        assert(o0[p] == a1.order()[i]);
        assert(o0[q] == a1.order()[j]);
        let ci = choose|x: int| 0 <= x < o0.len() && o0[x] == a1.order()[i];
        let cj = choose|x: int| 0 <= x < o0.len() && o0[x] == a1.order()[j];
        assert(ci == p);
        assert(cj == q);
    }
}

/// Applying the filter keeps exactly the shown rows whose cell in the
/// filter's column is equal to one of the ticked values.
pub proof fn law_filter_keeps_passing_rows(a0: App, a1: App)
    requires
        a0.wf(),
        App::apply_filter_done(a0, a1),
    ensures
        forall|r: usize|
            a1.order().contains(r) <==> (a0.order().contains(r) && (cell_at(
                a0.sheet_rows(),
                r as int,
                a0.filter_column() as int,
            ) matches Some(v) && exists|i: int|
                0 <= i < a0.filter_state().values.deep_view().len() && i < a0.filter_state().selected@.len()
                    && a0.filter_state().selected@[i] && a0.filter_state().values.deep_view()[i] == v)),
{
    let rows = a0.data.spec_rows();
    let col = a0.filter_column();
    let vals = a0.filter.values.deep_view();
    let sel = a0.filter.selected@;
    lemma_filtered_members(rows, a0.rows.order@, col, vals, sel);
    assert forall|r: usize|
        a1.order().contains(r) <==> (a0.order().contains(r) && (cell_at(rows, r as int, col as int) matches Some(
            v,
        ) && exists|i: int| 0 <= i < vals.len() && i < sel.len() && sel[i] && vals[i] == v)) by {
        assert(a1.order() == filtered(rows, a0.rows.order@, col, vals, sel));
        assert(filtered(rows, a0.rows.order@, col, vals, sel).contains(r) <==> (a0.rows.order@.contains(r)
            && passes_filter(rows, r as int, col, vals, sel)));
        match cell_at(rows, r as int, col as int) {
            Some(v) => {
                if passes_filter(rows, r as int, col, vals, sel) {
                    let i = choose|i: int| 0 <= i < vals.len() && i < sel.len() && sel[i] && vals[i] == v;
                    assert(0 <= i < vals.len() && i < sel.len() && sel[i] && vals[i] == v);
                }
            },
            None => {},
        }
    }
}

proof fn lemma_filtered_members(
    rows: Seq<Seq<Seq<char>>>,
    order: Seq<usize>,
    col: usize,
    values: Seq<Seq<char>>,
    ticked: Seq<bool>,
)
    ensures
        forall|r: usize|
            filtered(rows, order, col, values, ticked).contains(r) <==> (order.contains(r) && passes_filter(
                rows,
                r as int,
                col,
                values,
                ticked,
            )),
    decreases order.len(),
{
    if order.len() > 0 {
        lemma_filtered_members(rows, order.drop_last(), col, values, ticked);
        let prev = filtered(rows, order.drop_last(), col, values, ticked);
        let f = filtered(rows, order, col, values, ticked);
        assert forall|r: usize| f.contains(r) <==> (order.contains(r) && passes_filter(rows, r as int, col, values, ticked)) by {
            if f.contains(r) {
                let i = choose|i: int| 0 <= i < f.len() && f[i] == r;
                if i < prev.len() {
                    assert(f[i] == prev[i]);
                    assert(prev[i] == r);
                    assert(0 <= i < prev.len());
                    assert(exists|j: int| 0 <= j < prev.len() && prev[j] == r);
                    assert(order.drop_last().contains(r));
                    let j = choose|j: int| 0 <= j < order.drop_last().len() && order.drop_last()[j] == r;
                    assert(order[j] == r);
                } else {
                    assert(order[order.len() - 1] == r);
                }
            }
            if order.contains(r) && passes_filter(rows, r as int, col, values, ticked) {
                let j = choose|j: int| 0 <= j < order.len() && order[j] == r;
                if j < order.len() - 1 {
                    assert(order.drop_last()[j] == r);
                    assert(order.drop_last().contains(r));
                    assert(prev.contains(r));
                    let i = choose|i: int| 0 <= i < prev.len() && prev[i] == r;
                    assert(f[i] == r);
                } else {
                    assert(f[f.len() - 1] == r);
                }
            }
        }
    }
}

/// Every search result is a shown row and one of the searched columns
/// whose cell matches the query, the results go down the display order,
/// and every shown row with a matching cell in a searched column has a
/// result.
pub proof fn law_search_finds_matches(a0: App, a1: App)
    requires
        a0.wf(),
        a0.search_state().query@.len() > 0,
        App::search_done(a0, a1),
    ensures
        forall|i: int|
            0 <= i < a1.search_state().results@.len() ==> {
                let (d, c) = #[trigger] a1.search_state().results@[i];
                &&& d < a0.order().len()
                &&& a0.search_columns().contains(c)
                &&& cell_hit(
                    a0.sheet_rows(),
                    a0.order()[d as int] as int,
                    c,
                    a0.search_state().query@,
                    a0.search_state().case_sensitive,
                    a0.search_state().regex_mode,
                )
            },
        forall|i: int, j: int|
            0 <= i < j < a1.search_state().results@.len() ==> a1.search_state().results@[i].0
                < a1.search_state().results@[j].0,
        forall|d: int, c: usize|
            0 <= d < a0.order().len() && a0.search_columns().contains(c) && cell_hit(
                a0.sheet_rows(),
                a0.order()[d] as int,
                c,
                a0.search_state().query@,
                a0.search_state().case_sensitive,
                a0.search_state().regex_mode,
            ) ==> exists|i: int| 0 <= i < a1.search_state().results@.len() && #[trigger] a1.search_state().results@[i].0 == d,
{
    reveal(App::search_done);
    reveal(order_ok);
    lemma_hits_exact(
        a0.data.spec_rows(),
        a0.rows.order@,
        a0.search_columns(),
        a0.search.query@,
        a0.search.case_sensitive,
        a0.search.regex_mode,
    );
}

proof fn lemma_first_hit_exact(
    rows: Seq<Seq<Seq<char>>>,
    r: int,
    cols: Seq<usize>,
    q: Seq<char>,
    cs: bool,
    regex: bool,
)
    ensures
        first_hit(rows, r, cols, q, cs, regex) matches Some(c) ==> cols.contains(c) && cell_hit(rows, r, c, q, cs, regex),
        first_hit(rows, r, cols, q, cs, regex) is None ==> forall|c: usize| cols.contains(c) ==> !cell_hit(rows, r, c, q, cs, regex),
    decreases cols.len(),
{
    if cols.len() > 0 {
        lemma_first_hit_exact(rows, r, cols.drop_first(), q, cs, regex);
        if !cell_hit(rows, r, cols[0], q, cs, regex) {
            if let Some(c) = first_hit(rows, r, cols.drop_first(), q, cs, regex) {
                let i = choose|i: int| 0 <= i < cols.drop_first().len() && cols.drop_first()[i] == c;
                assert(cols[i + 1] == c);
            } else {
                assert forall|c: usize| cols.contains(c) implies !cell_hit(rows, r, c, q, cs, regex) by {
                    let i = choose|i: int| 0 <= i < cols.len() && cols[i] == c;
                    if i > 0 {
                        assert(cols.drop_first()[i - 1] == c);
                        assert(cols.drop_first().contains(c));
                    }
                }
            }
        } else {
            assert(cols[0] == cols[0]);
        }
    }
}

proof fn lemma_hits_exact(
    rows: Seq<Seq<Seq<char>>>,
    order: Seq<usize>,
    cols: Seq<usize>,
    q: Seq<char>,
    cs: bool,
    regex: bool,
)
    requires
        order.len() <= LIMIT,
    ensures
        ({
            let h = search_hits(rows, order, cols, q, cs, regex);
            &&& forall|i: int|
                0 <= i < h.len() ==> {
                    let (d, c) = #[trigger] h[i];
                    &&& d < order.len()
                    &&& cols.contains(c)
                    &&& cell_hit(rows, order[d as int] as int, c, q, cs, regex)
                }
            &&& forall|i: int, j: int| 0 <= i < j < h.len() ==> h[i].0 < h[j].0
            &&& forall|d: int, c: usize|
                0 <= d < order.len() && cols.contains(c) && cell_hit(rows, order[d] as int, c, q, cs, regex)
                    ==> exists|i: int| 0 <= i < h.len() && #[trigger] h[i].0 == d
        }),
    decreases order.len(),
{
    if order.len() > 0 {
        let o1 = order.drop_last();
        lemma_hits_exact(rows, o1, cols, q, cs, regex);
        lemma_first_hit_exact(rows, order.last() as int, cols, q, cs, regex);
        let prev = search_hits(rows, o1, cols, q, cs, regex);
        let h = search_hits(rows, order, cols, q, cs, regex);
        let n1 = o1.len();
        assert forall|i: int| 0 <= i < h.len() implies {
            let (d, c) = #[trigger] h[i];
            &&& d < order.len()
            &&& cols.contains(c)
            &&& cell_hit(rows, order[d as int] as int, c, q, cs, regex)
        } by {
            if i < prev.len() {
                assert(h[i] == prev[i]);
                let (d, c) = prev[i];
                assert(d < o1.len());
                assert(o1[d as int] == order[d as int]);
            } else {
                let c = first_hit(rows, order.last() as int, cols, q, cs, regex)->0;
                assert(h[i] == ((order.len() - 1) as usize, c));
                assert(order[order.len() - 1] == order.last());
            }
        }
        assert forall|i: int, j: int| 0 <= i < j < h.len() implies h[i].0 < h[j].0 by {
            assert(h[i] == prev[i]);
            assert(prev[i].0 < o1.len());
            if j < prev.len() {
                assert(h[j] == prev[j]);
            } else {
                assert(h[j].0 == order.len() - 1);
            }
        }
        assert forall|d: int, c: usize|
            0 <= d < order.len() && cols.contains(c) && cell_hit(rows, order[d] as int, c, q, cs, regex)
            implies exists|i: int| 0 <= i < h.len() && #[trigger] h[i].0 == d by {
            if d < n1 {
                assert(o1[d] == order[d]);
                let i = choose|i: int| 0 <= i < prev.len() && #[trigger] prev[i].0 == d;
                assert(h[i] == prev[i]);
            } else {
                assert(h[h.len() - 1].0 == d);
            }
        }
    }
}

/// After a motion the selected row is in view: it lies within the rows
/// shown from the scroll position.
pub proof fn law_selection_in_view(c: Cursor)
    ensures
        App::in_view(c).scroll_offset <= App::in_view(c).selected_row
            < App::in_view(c).scroll_offset + VISIBLE_ROWS,
{
}

} // verus!

verus! {

proof fn lemma_positions_has(keys: Seq<Seq<char>>, k: Seq<char>, n: int, d: int)
    requires
        0 <= d < n <= LIMIT,
        keys[d] == k,
    ensures
        positions_with(keys, k, n).contains(d as usize),
    decreases n,
{
    if d < n - 1 {
        lemma_positions_has(keys, k, n - 1, d);
        let p = positions_with(keys, k, n - 1);
        let i = choose|i: int| 0 <= i < p.len() && p[i] == d as usize;
        assert(positions_with(keys, k, n)[i] == d as usize);
    } else {
        assert(positions_with(keys, k, n).last() == d as usize);
    }
}

proof fn lemma_groups_of_has(keys: Seq<Seq<char>>, ls: Seq<usize>, n: int, x: int)
    requires
        0 <= x < ls.len(),
        positions_with(keys, keys[ls[x] as int], n).len() > 1,
    ensures
        groups_of(keys, ls, n).contains((ls[x], positions_with(keys, keys[ls[x] as int], n))),
    decreases ls.len(),
{
    let g = groups_of(keys, ls, n);
    if x < ls.len() - 1 {
        lemma_groups_of_has(keys, ls.drop_last(), n, x);
        let prev = groups_of(keys, ls.drop_last(), n);
        let item = (ls[x], positions_with(keys, keys[ls[x] as int], n));
        assert(ls.drop_last()[x] == ls[x]);
        let i = choose|i: int| 0 <= i < prev.len() && prev[i] == item;
        assert(g[i] == item);
    } else {
        assert(g.last() == (ls.last(), positions_with(keys, keys[ls.last() as int], n)));
    }
}

proof fn lemma_leaders_below(keys: Seq<Seq<char>>, n: int)
    requires
        n <= LIMIT,
    ensures
        forall|x: int| 0 <= x < leaders(keys, n).len() ==> (#[trigger] leaders(keys, n)[x]) < n,
    decreases n,
{
    if n > 0 {
        lemma_leaders_below(keys, n - 1);
        let p = leaders(keys, n - 1);
        let c = leaders(keys, n);
        assert forall|x: int| 0 <= x < c.len() implies (#[trigger] c[x]) < n by {
            if x < p.len() {
                assert(c[x] == p[x]);
            }
        }
    }
}

proof fn lemma_groups_of_form(keys: Seq<Seq<char>>, ls: Seq<usize>, n: int, i: int)
    requires
        0 <= i < groups_of(keys, ls, n).len(),
    ensures
        exists|x: int|
            0 <= x < ls.len() && groups_of(keys, ls, n)[i] == (
                #[trigger] ls[x],
                positions_with(keys, keys[ls[x] as int], n),
            ),
    decreases ls.len(),
{
    let prev = groups_of(keys, ls.drop_last(), n);
    if i < prev.len() {
        lemma_groups_of_form(keys, ls.drop_last(), n, i);
        let x = choose|x: int|
            0 <= x < ls.drop_last().len() && prev[i] == (
                #[trigger] ls.drop_last()[x],
                positions_with(keys, keys[ls.drop_last()[x] as int], n),
            );
        assert(ls[x] == ls.drop_last()[x]);
    } else {
        let x = ls.len() - 1;
        assert(ls[x] == ls.last());
    }
}

/// Every row in a duplicate group holds the same cells as the group's
/// first row.
pub proof fn law_duplicate_groups_share_cells(a: App, i: int, j: int)
    requires
        a.wf(),
        0 <= i < duplicate_groups(a.shown_keys()).len(),
        0 <= j < duplicate_groups(a.shown_keys())[i].1.len(),
    ensures
        ({
            let g = duplicate_groups(a.shown_keys())[i];
            &&& g.0 < a.order().len()
            &&& g.1[j] < a.order().len()
            &&& a.sheet_rows()[a.order()[g.1[j] as int] as int] == a.sheet_rows()[a.order()[g.0 as int] as int]
        }),
{
    reveal(order_ok);
    let keys = a.shown_keys();
    let n = keys.len() as int;
    let ls = leaders(keys, n);
    lemma_groups_of_form(keys, ls, n, i);
    lemma_leaders_below(keys, n);
    let x = choose|x: int|
        0 <= x < ls.len() && groups_of(keys, ls, n)[i] == (
            #[trigger] ls[x],
            positions_with(keys, keys[ls[x] as int], n),
        );
    lemma_positions_facts(keys, keys[ls[x] as int], n);
    let g = duplicate_groups(keys)[i];
    assert(g.1[j] < n && keys[g.1[j] as int] == keys[ls[x] as int]);
    a.lemma_shown_keys_tell_rows(g.1[j] as int, ls[x] as int);
}

/// Every shown row whose cells repeat those of another shown row is in a
/// duplicate group: the group of its first occurrence, which lists every
/// shown row with the same cells.
pub proof fn law_duplicates_cover(a: App, d: int)
    requires
        a.wf(),
        0 <= d < a.order().len(),
        positions_with(a.shown_keys(), a.shown_keys()[d], a.order().len() as int).len() > 1,
    ensures
        exists|i: int|
            0 <= i < duplicate_groups(a.shown_keys()).len() && #[trigger] duplicate_groups(a.shown_keys())[i].1
                == positions_with(a.shown_keys(), a.shown_keys()[d], a.order().len() as int)
                && duplicate_groups(a.shown_keys())[i].1.contains(d as usize),
{
    reveal(order_ok);
    let keys = a.shown_keys();
    let n = keys.len() as int;
    lemma_leader_of(keys, n, d);
    let ls = leaders(keys, n);
    let x = choose|x: int| 0 <= x < ls.len() && keys[#[trigger] ls[x] as int] == keys[d];
    lemma_groups_of_has(keys, ls, n, x);
    lemma_positions_has(keys, keys[d], n, d);
    let g = duplicate_groups(keys);
    let item = (ls[x], positions_with(keys, keys[d], n));
    let i = choose|i: int| 0 <= i < g.len() && g[i] == item;
    assert(g[i].1 == positions_with(keys, keys[d], n));
}

} // verus!

verus! {

/// The members of each list, all counted.
pub open spec fn sum_lens(ms: Seq<Seq<usize>>) -> int
    decreases ms.len(),
{
    if ms.len() == 0 {
        0
    } else {
        sum_lens(ms.drop_last()) + ms.last().len()
    }
}

/// The members of the lists not yet used, counted.
pub open spec fn sum_unused(ms: Seq<Seq<usize>>, used: Seq<bool>) -> int
    decreases ms.len(),
{
    if ms.len() == 0 {
        0
    } else {
        sum_unused(ms.drop_last(), used.drop_last()) + if used.last() {
            0
        } else {
            ms.last().len() as int
        }
    }
}

proof fn lemma_sum_lens_push(ms: Seq<Seq<usize>>, i: int, d: usize)
    requires
        0 <= i < ms.len(),
    ensures
        sum_lens(ms.update(i, ms[i].push(d))) == sum_lens(ms) + 1,
    decreases ms.len(),
{
    let m2 = ms.update(i, ms[i].push(d));
    if i < ms.len() - 1 {
        assert(m2.drop_last() =~= ms.drop_last().update(i, ms[i].push(d)));
        lemma_sum_lens_push(ms.drop_last(), i, d);
    } else {
        assert(m2.drop_last() =~= ms.drop_last());
    }
}

proof fn lemma_sum_unused_none(ms: Seq<Seq<usize>>, used: Seq<bool>)
    requires
        used.len() == ms.len(),
        forall|j: int| 0 <= j < used.len() ==> !used[j],
    ensures
        sum_unused(ms, used) == sum_lens(ms),
    decreases ms.len(),
{
    if ms.len() > 0 {
        lemma_sum_unused_none(ms.drop_last(), used.drop_last());
    }
}

proof fn lemma_sum_unused_use(ms: Seq<Seq<usize>>, used: Seq<bool>, i: int)
    requires
        used.len() == ms.len(),
        0 <= i < ms.len(),
        !used[i],
    ensures
        sum_unused(ms, used.update(i, true)) == sum_unused(ms, used) - ms[i].len(),
        sum_unused(ms, used) >= 0,
    decreases ms.len(),
{
    let u2 = used.update(i, true);
    lemma_sum_unused_nonneg(ms, used);
    if i < ms.len() - 1 {
        assert(u2.drop_last() =~= used.drop_last().update(i, true));
        lemma_sum_unused_use(ms.drop_last(), used.drop_last(), i);
    } else {
        assert(u2.drop_last() =~= used.drop_last());
    }
}

proof fn lemma_sum_unused_nonneg(ms: Seq<Seq<usize>>, used: Seq<bool>)
    ensures
        sum_unused(ms, used) >= 0,
    decreases ms.len(),
{
    if ms.len() > 0 {
        lemma_sum_unused_nonneg(ms.drop_last(), used.drop_last());
    }
}

/// The positions with a key go up, lie below `n` and hold the key.
proof fn lemma_positions_facts(keys: Seq<Seq<char>>, k: Seq<char>, n: int)
    requires
        n <= LIMIT,
    ensures
        forall|i: int, j: int|
            0 <= i < j < positions_with(keys, k, n).len() ==> positions_with(keys, k, n)[i] < positions_with(
                keys,
                k,
                n,
            )[j],
        forall|i: int|
            0 <= i < positions_with(keys, k, n).len() ==> (#[trigger] positions_with(keys, k, n)[i]) < n
                && keys[positions_with(keys, k, n)[i] as int] == k,
    decreases n,
{
    if n > 0 {
        lemma_positions_facts(keys, k, n - 1);
        let p = positions_with(keys, k, n - 1);
        let c = positions_with(keys, k, n);
        assert forall|i: int| 0 <= i < c.len() implies (#[trigger] c[i]) < n && keys[c[i] as int] == k by {
            if i < p.len() {
                assert(c[i] == p[i]);
            }
        }
        assert forall|i: int, j: int| 0 <= i < j < c.len() implies c[i] < c[j] by {
            assert(c[i] == p[i]);
            if j < p.len() {
                assert(c[j] == p[j]);
            }
        }
    }
}

/// A position is the first with its key exactly where the positions with
/// its key start with it.
proof fn lemma_first_iff(keys: Seq<Seq<char>>, d: int, n: int)
    requires
        0 <= d < n <= LIMIT,
    ensures
        positions_with(keys, keys[d], n).len() > 0,
        first_of_key(keys, d) <==> positions_with(keys, keys[d], n)[0] == d,
{
    let k = keys[d];
    lemma_positions_has(keys, k, n, d);
    lemma_positions_facts(keys, k, n);
    let pw = positions_with(keys, k, n);
    if first_of_key(keys, d) {
        lemma_positions_start(keys, k, d, n);
    }
    if pw[0] == d && !first_of_key(keys, d) {
        let e = choose|e: int| 0 <= e < d && keys[e] == keys[d];
        lemma_positions_has(keys, k, n, e);
        let t = choose|t: int| 0 <= t < pw.len() && pw[t] == e as usize;
        assert(t != 0);
        assert(pw[0] < pw[t]);
    }
}

impl App {
    /// The duplicate groups of the shown rows (see `duplicate_groups`).
    #[verifier::rlimit(30)]
    pub fn find_duplicate_rows(&self) -> (groups: Vec<(usize, Vec<usize>)>)
        requires
            self.wf(),
        ensures
            groups@.len() == duplicate_groups(self.shown_keys()).len(),
            forall|i: int|
                0 <= i < groups@.len() ==> (#[trigger] groups@[i]).0 == duplicate_groups(self.shown_keys())[i].0
                    && groups@[i].1@ == duplicate_groups(self.shown_keys())[i].1,
            repeats(duplicate_groups(self.shown_keys())) <= LIMIT,
    {
        proof {
            reveal(order_ok);
        }
        let ghost keys = self.shown_keys();
        let n = self.rows.order.len();
        let mut texts: Vec<String> = Vec::new();
        let mut kc: Vec<Vec<char>> = Vec::new();
        let mut d: usize = 0;
        while d < n
            invariant
                d <= n,
                n == self.rows.order@.len(),
                keys == self.shown_keys(),
                keys.len() == n,
                order_ok(self.rows.order@, self.data.spec_rows().len()),
                texts@.len() == d,
                kc@.len() == d,
                forall|x: int| 0 <= x < d ==> (#[trigger] texts@[x])@ == keys[x] && kc@[x]@ == keys[x],
            decreases n - d,
        {
            proof {
                reveal(order_ok);
            }
            let row = match self.data.get_row(self.rows.order[d]) {
                Some(r) => r,
                None => {
                    proof {
                        assert(false);
                    }
                    Vec::new()
                },
            };
            let key = cells_key_text(&row);
            kc.push(chars_of(key.as_str()));
            texts.push(key);
            d = d + 1;
        }
        assert(texts.deep_view() =~= keys);
        let uniq_texts = sorted_unique(&texts);
        let uniq = char_lists(&uniq_texts);
        let ghost uv = uniq.deep_view();
        let u = uniq.len();
        let mut members: Vec<Vec<usize>> = Vec::new();
        let mut j: usize = 0;
        while j < u
            invariant
                j <= u,
                members@.len() == j,
                forall|x: int| 0 <= x < j ==> (#[trigger] members@[x])@ == Seq::<usize>::empty(),
            decreases u - j,
        {
            members.push(Vec::new());
            j = j + 1;
        }
        proof {
            assert(sum_lens(Seq::new(u as nat, |x: int| members@[x]@)) == 0) by {
                lemma_sum_lens_zero(Seq::new(u as nat, |x: int| members@[x]@));
            }
        }
        let mut idx: Vec<usize> = Vec::new();
        d = 0;
        while d < n
            invariant
                d <= n,
                n == keys.len(),
                n <= LIMIT,
                kc@.len() == n,
                forall|x: int| 0 <= x < n ==> (#[trigger] kc@[x])@ == keys[x],
                uv == uniq.deep_view(),
                u == uv.len(),
                strictly_sorted(uv),
                forall|v: Seq<char>| uv.contains(v) <==> keys.contains(v),
                members@.len() == u,
                forall|x: int| 0 <= x < u ==> (#[trigger] members@[x])@ == positions_with(keys, uv[x], d as int),
                sum_lens(Seq::new(u as nat, |x: int| members@[x]@)) == d,
                idx@.len() == d,
                forall|x: int| 0 <= x < d ==> (#[trigger] idx@[x]) < u && uv[idx@[x] as int] == keys[x],
            decreases n - d,
        {
            assert(kc@[d as int].deep_view() =~= kc@[d as int]@);
            let i = match find_sorted(&uniq, kc[d].as_slice()) {
                Some(i) => i,
                None => {
                    proof {
                        assert(keys[d as int] == keys[d as int]);
                        assert(keys.contains(keys[d as int]));
                        assert(uv.contains(keys[d as int]));
                        assert(false);
                    }
                    0
                },
            };
            let ghost ms0 = Seq::new(u as nat, |x: int| members@[x]@);
            members[i].push(d);
            idx.push(i);
            proof {
                assert forall|x: int| 0 <= x < u implies (#[trigger] members@[x])@ == positions_with(keys, uv[x], d + 1) by {
                    if x != i {
                        if uv[x] == keys[d as int] {
                            if x < i {
                                assert(text_order(uv[x], uv[i as int]) == Order::Less);
                            } else {
                                assert(text_order(uv[i as int], uv[x]) == Order::Less);
                            }
                            lemma_text_order_refl(uv[x]);
                        }
                    }
                }
                assert(Seq::new(u as nat, |x: int| members@[x]@) =~= ms0.update(i as int, ms0[i as int].push(d)));
                lemma_sum_lens_push(ms0, i as int, d);
            }
            d = d + 1;
        }
        let ghost mv = Seq::new(u as nat, |x: int| members@[x]@);
        proof {
            assert forall|x: int| 0 <= x < u implies (#[trigger] members@[x])@.len() > 0 by {
                assert(uv.contains(uv[x]));
                let p = choose|p: int| 0 <= p < keys.len() && keys[p] == uv[x];
                lemma_positions_has(keys, uv[x], n as int, p);
            }
            lemma_sum_unused_none(mv, Seq::new(u as nat, |x: int| false));
        }
        let ghost mut used: Seq<bool> = Seq::new(u as nat, |x: int| false);
        let mut out: Vec<(usize, Vec<usize>)> = Vec::new();
        let mut count: usize = 0;
        d = 0;
        while d < n
            invariant
                d <= n,
                n == keys.len(),
                n <= LIMIT,
                members@.len() == u,
                mv == Seq::new(u as nat, |x: int| members@[x]@),
                forall|x: int| 0 <= x < u ==> (#[trigger] members@[x])@ == positions_with(keys, uv[x], n as int),
                forall|x: int| 0 <= x < u ==> (#[trigger] members@[x])@.len() > 0,
                strictly_sorted(uv),
                u == uv.len(),
                idx@.len() == n,
                forall|x: int| 0 <= x < n ==> (#[trigger] idx@[x]) < u && uv[idx@[x] as int] == keys[x],
                used.len() == u,
                forall|x: int| 0 <= x < u ==> (#[trigger] used[x]) == (members@[x]@[0] < d),
                count + sum_unused(mv, used) <= n,
                out@.len() == groups_of(keys, leaders(keys, d as int), n as int).len(),
                forall|x: int|
                    0 <= x < out@.len() ==> (#[trigger] out@[x]).0 == groups_of(keys, leaders(keys, d as int), n as int)[x].0
                        && out@[x].1@ == groups_of(keys, leaders(keys, d as int), n as int)[x].1,
                count == repeats(groups_of(keys, leaders(keys, d as int), n as int)),
            decreases n - d,
        {
            let i = idx[d];
            let leader = members[i][0] == d;
            let m = members[i].len();
            proof {
                lemma_first_iff(keys, d as int, n as int);
                assert(members@[i as int]@ == positions_with(keys, keys[d as int], n as int));
                let g0 = groups_of(keys, leaders(keys, d as int), n as int);
                let g1 = groups_of(keys, leaders(keys, d + 1), n as int);
                if leader {
                    assert(leaders(keys, d + 1) == leaders(keys, d as int).push(d));
                    assert(leaders(keys, d + 1).drop_last() == leaders(keys, d as int));
                    if m > 1 {
                        assert(g1 == g0.push((d, positions_with(keys, keys[d as int], n as int))));
                        assert(g1.drop_last() =~= g0);
                    } else {
                        assert(g1 == g0);
                    }
                } else {
                    assert(leaders(keys, d + 1) == leaders(keys, d as int));
                }
            }
            if leader && m > 1 {
                let ms = copy_positions(&members[i]);
                let ghost o0 = out@;
                proof {
                    lemma_sum_unused_use(mv, used, i as int);
                    lemma_sum_unused_nonneg(mv, used.update(i as int, true));
                }
                out.push((d, ms));
                count = count + (m - 1);
                proof {
                    let g1 = groups_of(keys, leaders(keys, d + 1), n as int);
                    assert forall|x: int| 0 <= x < out@.len() implies (#[trigger] out@[x]).0 == g1[x].0 && out@[x].1@ == g1[x].1 by {
                        if x < o0.len() {
                            assert(out@[x] == o0[x]);
                        }
                    }
                }
            }
            proof {
                let used0 = used;
                if leader {
                    if m <= 1 {
                        lemma_sum_unused_use(mv, used, i as int);
                    }
                    used = used.update(i as int, true);
                }
                assert forall|x: int| 0 <= x < u implies (#[trigger] used[x]) == (members@[x]@[0] < d + 1) by {
                    if members@[x]@[0] == d {
                        lemma_positions_facts(keys, uv[x], n as int);
                        assert(keys[d as int] == uv[x]);
                        if x != i {
                            if x < i {
                                assert(text_order(uv[x], uv[i as int]) == Order::Less);
                            } else {
                                assert(text_order(uv[i as int], uv[x]) == Order::Less);
                            }
                            lemma_text_order_refl(uv[x]);
                        }
                    }
                    if x == i && !leader {
                        lemma_positions_facts(keys, uv[x], n as int);
                        lemma_positions_has(keys, uv[x], n as int, d as int);
                        let t = choose|t: int| 0 <= t < members@[x]@.len() && members@[x]@[t] == d;
                        if t > 0 {
                            assert(members@[x]@[0] < members@[x]@[t]);
                        }
                    }
                }
            }
            d = d + 1;
        }
        proof {
            lemma_sum_unused_nonneg(mv, used);
        }
        out
    }
}

proof fn lemma_sum_lens_zero(ms: Seq<Seq<usize>>)
    requires
        forall|x: int| 0 <= x < ms.len() ==> (#[trigger] ms[x]).len() == 0,
    ensures
        sum_lens(ms) == 0,
    decreases ms.len(),
{
    if ms.len() > 0 {
        assert forall|x: int| 0 <= x < ms.drop_last().len() implies (#[trigger] ms.drop_last()[x]).len() == 0 by {
            assert(ms.drop_last()[x] == ms[x]);
        }
        lemma_sum_lens_zero(ms.drop_last());
    }
}

} // verus!

verus! {

/// Turning duplicate highlighting on and off again returns to where it
/// started (with highlighting off and no groups): only the message differs.
pub proof fn law_duplicates_toggle_twice(a0: App, a1: App, a2: App)
    requires
        !a0.duplicates.highlight,
        a0.duplicates.groups@.len() == 0,
        App::toggle_duplicates_done(a0, a1),
        App::toggle_duplicates_done(a1, a2),
    ensures
        !a2.duplicates.highlight,
        a2.duplicates.groups@ == a0.duplicates.groups@,
        a2 == (App { duplicates: a2.duplicates, message: a2.message, ..a0 }),
{
    assert(a2.duplicates.groups@ =~= a0.duplicates.groups@);
}

/// Going to the next search result and then to the previous one comes back
/// to the result that was current, and to its cell.
pub proof fn law_next_then_previous_result(a0: App, a1: App, a2: App)
    requires
        a0.wf(),
        App::jump_next_done(a0, a1),
        App::jump_prev_done(a1, a2),
    ensures
        a2.search == a0.search,
        a0.search.results@.len() > 0 ==> a2.cursor == App::in_view(
            Cursor {
                selected_row: a0.search.results@[a0.search.current as int].0,
                selected_col: a0.search.results@[a0.search.current as int].1,
                ..a1.cursor
            },
        ),
{
    let n = a0.search.results@.len() as int;
    if n > 0 {
        let c = a0.search.current as int;
        reveal(results_ok);
        assert(0 <= c < n);
        if c + 1 < n {
            assert((c + 1) % n == c + 1) by (nonlinear_arith)
                requires
                    0 <= c,
                    c + 1 < n,
            ;
        } else {
            assert((c + 1) % n == 0) by (nonlinear_arith)
                requires
                    c + 1 == n,
                    n > 0,
            ;
        }
    }
}

} // verus!

verus! {

/// A cell before and after replace-all: a cell that matches the query holds
/// its replacement afterwards; any other cell, and a missing one, is as it
/// was.
pub open spec fn replaced_or_kept(
    before: Option<Seq<char>>,
    after: Option<Seq<char>>,
    q: Seq<char>,
    rep: Seq<char>,
    cs: bool,
    regex: bool,
) -> bool {
    match before {
        Some(v) => if text_matches(v, q, cs, regex) {
            after matches Some(w) && replacement(v, q, rep, cs, regex) == Some(w)
        } else {
            after == Some(v)
        },
        None => after is None,
    }
}

proof fn lemma_replace_cell_effect(
    acc: (Seq<Seq<Seq<char>>>, Seq<EditView>),
    r: int,
    c: usize,
    q: Seq<char>,
    rep: Seq<char>,
    cs: bool,
    regex: bool,
    a2: (Seq<Seq<Seq<char>>>, Seq<EditView>),
)
    requires
        replace_cell(acc, r, c, q, rep, cs, regex) == Some(a2),
    ensures
        forall|rr: int, cc: usize|
            !(rr == r && cc == c) ==> #[trigger] cell_at(a2.0, rr, cc as int) == cell_at(acc.0, rr, cc as int),
        replaced_or_kept(cell_at(acc.0, r, c as int), cell_at(a2.0, r, c as int), q, rep, cs, regex),
        a2.1.len() == acc.1.len() + (if cell_at(acc.0, r, c as int) matches Some(v) && text_matches(
            v,
            q,
            cs,
            regex,
        ) {
            1int
        } else {
            0int
        }),
{
    match cell_at(acc.0, r, c as int) {
        Some(v) => {
            if text_matches(v, q, cs, regex) {
                let nv = replacement(v, q, rep, cs, regex)->0;
                let rows = acc.0;
                assert(a2.0 == rows.update(r, rows[r].update(c as int, nv)));
                assert forall|rr: int, cc: usize|
                    !(rr == r && cc == c) implies #[trigger] cell_at(a2.0, rr, cc as int) == cell_at(
                    acc.0,
                    rr,
                    cc as int,
                ) by {
                    if rr == r {
                        assert(a2.0[rr] == rows[r].update(c as int, nv));
                    }
                }
                assert(cell_at(a2.0, r, c as int) == Some(nv));
            }
        },
        None => {},
    }
}

proof fn lemma_replace_row_effect(
    acc: (Seq<Seq<Seq<char>>>, Seq<EditView>),
    r: int,
    cols: Seq<usize>,
    q: Seq<char>,
    rep: Seq<char>,
    cs: bool,
    regex: bool,
    a2: (Seq<Seq<Seq<char>>>, Seq<EditView>),
)
    requires
        replace_in_row(acc, r, cols, q, rep, cs, regex) == Some(a2),
        distinct(cols),
    ensures
        forall|rr: int, cc: usize|
            !(rr == r && cols.contains(cc)) ==> #[trigger] cell_at(a2.0, rr, cc as int) == cell_at(
                acc.0,
                rr,
                cc as int,
            ),
        forall|cc: usize|
            cols.contains(cc) ==> replaced_or_kept(
                cell_at(acc.0, r, cc as int),
                #[trigger] cell_at(a2.0, r, cc as int),
                q,
                rep,
                cs,
                regex,
            ),
        a2.1.len() == acc.1.len() + matching_cells_in_row(acc.0, r, cols, q, cs, regex),
    decreases cols.len(),
{
    if cols.len() > 0 {
        let init = cols.drop_last();
        let last = cols.last();
        let a = replace_in_row(acc, r, init, q, rep, cs, regex)->0;
        assert(replace_in_row(acc, r, init, q, rep, cs, regex) is Some);
        assert(distinct(init));
        lemma_replace_row_effect(acc, r, init, q, rep, cs, regex, a);
        lemma_replace_cell_effect(a, r, last, q, rep, cs, regex, a2);
        assert(!init.contains(last)) by {
            if init.contains(last) {
                let k = choose|k: int| 0 <= k < init.len() && init[k] == last;
                assert(cols[k] == cols[cols.len() - 1]);
            }
        }
        assert forall|rr: int, cc: usize|
            !(rr == r && cols.contains(cc)) implies #[trigger] cell_at(a2.0, rr, cc as int) == cell_at(
            acc.0,
            rr,
            cc as int,
        ) by {
            if rr == r && init.contains(cc) {
                let k = choose|k: int| 0 <= k < init.len() && init[k] == cc;
                assert(cols[k] == cc);
            }
            if rr == r && cc == last {
                assert(cols[cols.len() - 1] == cc);
            }
        }
        assert forall|cc: usize| cols.contains(cc) implies replaced_or_kept(
            cell_at(acc.0, r, cc as int),
            #[trigger] cell_at(a2.0, r, cc as int),
            q,
            rep,
            cs,
            regex,
        ) by {
            if cc != last {
                let k = choose|k: int| 0 <= k < cols.len() && cols[k] == cc;
                assert(k < cols.len() - 1);
                assert(init[k] == cc);
                assert(init.contains(cc));
                assert(cell_at(a2.0, r, cc as int) == cell_at(a.0, r, cc as int));
            } else {
                assert(cell_at(a.0, r, cc as int) == cell_at(acc.0, r, cc as int));
            }
        }
        assert(cell_at(a.0, r, last as int) == cell_at(acc.0, r, last as int));
    } else {
        assert(a2 == acc);
    }
}

proof fn lemma_replace_rows_effect(
    acc: (Seq<Seq<Seq<char>>>, Seq<EditView>),
    order: Seq<usize>,
    cols: Seq<usize>,
    q: Seq<char>,
    rep: Seq<char>,
    cs: bool,
    regex: bool,
    a2: (Seq<Seq<Seq<char>>>, Seq<EditView>),
)
    requires
        replace_in_rows(acc, order, cols, q, rep, cs, regex) == Some(a2),
        distinct(order),
        distinct(cols),
    ensures
        forall|rr: usize, cc: usize|
            !(order.contains(rr) && cols.contains(cc)) ==> #[trigger] cell_at(a2.0, rr as int, cc as int)
                == cell_at(acc.0, rr as int, cc as int),
        forall|d: int, cc: usize|
            0 <= d < order.len() && cols.contains(cc) ==> replaced_or_kept(
                cell_at(acc.0, order[d] as int, cc as int),
                #[trigger] cell_at(a2.0, order[d] as int, cc as int),
                q,
                rep,
                cs,
                regex,
            ),
        a2.1.len() == acc.1.len() + matching_cells(acc.0, order, cols, q, cs, regex),
    decreases order.len(),
{
    if order.len() > 0 {
        let init = order.drop_last();
        let last = order.last();
        let a = replace_in_rows(acc, init, cols, q, rep, cs, regex)->0;
        assert(replace_in_rows(acc, init, cols, q, rep, cs, regex) is Some);
        assert(distinct(init));
        lemma_replace_rows_effect(acc, init, cols, q, rep, cs, regex, a);
        lemma_replace_row_effect(a, last as int, cols, q, rep, cs, regex, a2);
        assert forall|rr: usize, cc: usize|
            !(order.contains(rr) && cols.contains(cc)) implies #[trigger] cell_at(a2.0, rr as int, cc as int)
            == cell_at(acc.0, rr as int, cc as int) by {
            if init.contains(rr) {
                let k = choose|k: int| 0 <= k < init.len() && init[k] == rr;
                assert(order[k] == rr);
            }
            if rr == last {
                assert(order[order.len() - 1] == rr);
            }
            assert(cell_at(a2.0, rr as int, cc as int) == cell_at(a.0, rr as int, cc as int));
        }
        assert forall|d: int, cc: usize| 0 <= d < order.len() && cols.contains(cc) implies replaced_or_kept(
            cell_at(acc.0, order[d] as int, cc as int),
            #[trigger] cell_at(a2.0, order[d] as int, cc as int),
            q,
            rep,
            cs,
            regex,
        ) by {
            if d < order.len() - 1 {
                assert(init[d] == order[d]);
                assert(order[d] != last);
                assert(cell_at(a2.0, order[d] as int, cc as int) == cell_at(a.0, order[d] as int, cc as int));
            } else {
                assert(!init.contains(last)) by {
                    if init.contains(last) {
                        let k = choose|k: int| 0 <= k < init.len() && init[k] == last;
                        assert(order[k] == order[order.len() - 1]);
                    }
                }
                assert(cell_at(a.0, last as int, cc as int) == cell_at(acc.0, last as int, cc as int));
            }
        }
        assert(!init.contains(last)) by {
            if init.contains(last) {
                let k = choose|k: int| 0 <= k < init.len() && init[k] == last;
                assert(order[k] == order[order.len() - 1]);
            }
        }
        assert forall|cc: usize| #[trigger] cell_at(a.0, last as int, cc as int) == cell_at(acc.0, last as int, cc as int) by {
        }
        lemma_matching_row_same(a.0, acc.0, last as int, cols, q, cs, regex);
    } else {
        assert(a2 == acc);
    }
}

/// How many cells of sheet row `r` in the columns `cols` match the query.
pub open spec fn matching_cells_in_row(
    rows: Seq<Seq<Seq<char>>>,
    r: int,
    cols: Seq<usize>,
    q: Seq<char>,
    cs: bool,
    regex: bool,
) -> int
    decreases cols.len(),
{
    if cols.len() == 0 {
        0
    } else {
        matching_cells_in_row(rows, r, cols.drop_last(), q, cs, regex) + if cell_at(rows, r, cols.last() as int) matches Some(
            v,
        ) && text_matches(v, q, cs, regex) {
            1int
        } else {
            0int
        }
    }
}

/// How many cells of the rows `order` in the columns `cols` match the
/// query.
pub open spec fn matching_cells(
    rows: Seq<Seq<Seq<char>>>,
    order: Seq<usize>,
    cols: Seq<usize>,
    q: Seq<char>,
    cs: bool,
    regex: bool,
) -> int
    decreases order.len(),
{
    if order.len() == 0 {
        0
    } else {
        matching_cells(rows, order.drop_last(), cols, q, cs, regex) + matching_cells_in_row(
            rows,
            order.last() as int,
            cols,
            q,
            cs,
            regex,
        )
    }
}

proof fn lemma_matching_row_same(
    rows1: Seq<Seq<Seq<char>>>,
    rows2: Seq<Seq<Seq<char>>>,
    r: int,
    cols: Seq<usize>,
    q: Seq<char>,
    cs: bool,
    regex: bool,
)
    requires
        forall|cc: usize| #[trigger] cell_at(rows1, r, cc as int) == cell_at(rows2, r, cc as int),
    ensures
        matching_cells_in_row(rows1, r, cols, q, cs, regex) == matching_cells_in_row(rows2, r, cols, q, cs, regex),
    decreases cols.len(),
{
    if cols.len() > 0 {
        lemma_matching_row_same(rows1, rows2, r, cols.drop_last(), q, cs, regex);
        assert(cell_at(rows1, r, cols.last() as int) == cell_at(rows2, r, cols.last() as int));
    }
}

/// Replace-all records one change per matching cell of the shown rows in
/// the searched columns, and reports that number.
pub proof fn law_replace_all_counts_matches(a0: App, a1: App)
    requires
        a0.wf(),
        App::replace_all_done(a0, a1),
        a0.search.results@.len() > 0,
        a0.replace.query@.len() > 0,
        a0.replace_all_outcome() is Some,
    ensures
        ({
            let n = matching_cells(
                a0.sheet_rows(),
                a0.order(),
                a0.search_columns(),
                a0.replace.query@,
                a0.search.case_sensitive,
                a0.search.regex_mode,
            );
            &&& a1.editing.undo@.len() == a0.editing.undo@.len() + n
            &&& n > 0 ==> says(a1.message, "Replaced "@ + decimal(n as nat) + " occurrences"@)
            &&& n == 0 ==> says(a1.message, "No matches found for replace"@)
        }),
{
    reveal(order_ok);
    let cols = a0.search_columns();
    assert(distinct(cols)) by {
        match a0.search.column {
            Some(x) => {},
            None => {
                assert forall|i: int, j: int| 0 <= i < cols.len() && 0 <= j < cols.len() && i != j implies cols[i]
                    != cols[j] by {
                    assert(cols[i] == i as usize && cols[j] == j as usize);
                }
            },
        }
    }
    let out = a0.replace_all_outcome()->0;
    lemma_replace_rows_effect(
        (a0.data.spec_rows(), seq![]),
        a0.rows.order@,
        cols,
        a0.replace.query@,
        a0.replace.with@,
        a0.search.case_sensitive,
        a0.search.regex_mode,
        out,
    );
    assert(edits(a1.editing.undo@).len() == a1.editing.undo@.len());
    assert(edits(a0.editing.undo@).len() == a0.editing.undo@.len());
}

/// Replace-all replaces every match: in every shown row, each cell of a
/// searched column that matches the query holds its replacement afterwards,
/// and every other cell of those rows and columns is as it was.
pub proof fn law_replace_all_replaces_every_match(a0: App, a1: App, d: int, c: usize)
    requires
        a0.wf(),
        App::replace_all_done(a0, a1),
        a0.search.results@.len() > 0,
        a0.replace.query@.len() > 0,
        a0.replace_all_outcome() is Some,
        0 <= d < a0.order().len(),
        a0.search_columns().contains(c),
    ensures
        replaced_or_kept(
            cell_at(a0.sheet_rows(), a0.order()[d] as int, c as int),
            cell_at(a1.sheet_rows(), a0.order()[d] as int, c as int),
            a0.replace.query@,
            a0.replace.with@,
            a0.search.case_sensitive,
            a0.search.regex_mode,
        ),
{
    reveal(order_ok);
    let cols = a0.search_columns();
    assert(distinct(cols)) by {
        match a0.search.column {
            Some(x) => {},
            None => {
                assert forall|i: int, j: int| 0 <= i < cols.len() && 0 <= j < cols.len() && i != j implies cols[i]
                    != cols[j] by {
                    assert(cols[i] == i as usize && cols[j] == j as usize);
                }
            },
        }
    }
    let out = a0.replace_all_outcome()->0;
    lemma_replace_rows_effect(
        (a0.data.spec_rows(), seq![]),
        a0.rows.order@,
        cols,
        a0.replace.query@,
        a0.replace.with@,
        a0.search.case_sensitive,
        a0.search.regex_mode,
        out,
    );
}

proof fn lemma_column_index(sc: Seq<(usize, bool)>, col: usize, s: int)
    requires
        0 <= s,
    ensures
        match column_index(sc, col, s) {
            Some(j) => s <= j < sc.len() && sc[j].0 == col && forall|k: int| s <= k < j ==> sc[k].0 != col,
            None => forall|k: int| s <= k < sc.len() ==> sc[k].0 != col,
        },
    decreases sc.len() - s,
{
    if s < sc.len() && sc[s].0 != col {
        lemma_column_index(sc, col, s + 1);
    }
}

/// Sorting by a column already sorted by turns that column's direction
/// over and leaves the other sort columns as they were; sorting by a new
/// column adds it, ascending, after the others.
pub proof fn law_sort_toggles_direction(a0: App, a1: App)
    requires
        App::toggle_sort_done(a0, a1),
    ensures
        ({
            let sc0 = a0.rows.sort_columns@;
            let sc1 = a1.rows.sort_columns@;
            let col = a0.cursor.selected_col;
            &&& forall|i: int|
                0 <= i < sc0.len() && sc0[i].0 == col && (forall|k: int| 0 <= k < i ==> sc0[k].0 != col) ==> {
                    &&& sc1.len() == sc0.len()
                    &&& sc1[i] == (col, !sc0[i].1)
                    &&& forall|k: int| 0 <= k < sc0.len() && k != i ==> sc1[k] == sc0[k]
                }
            &&& (forall|k: int| 0 <= k < sc0.len() ==> sc0[k].0 != col) ==> sc1 == sc0.push((col, true))
        }),
{
    let sc0 = a0.rows.sort_columns@;
    let col = a0.cursor.selected_col;
    lemma_column_index(sc0, col, 0);
    match column_index(sc0, col, 0) {
        Some(j) => {
            assert forall|i: int|
                0 <= i < sc0.len() && sc0[i].0 == col && (forall|k: int| 0 <= k < i ==> sc0[k].0 != col) implies i
                == j by {
                if i < j {
                } else if j < i {
                    assert(sc0[j].0 != col);
                }
            }
        },
        None => {},
    }
}

/// Sorting twice by the same column that was already sorted by gives back
/// the sort columns as they were.
pub proof fn law_sort_toggle_twice(a0: App, a1: App, a2: App)
    requires
        App::toggle_sort_done(a0, a1),
        App::toggle_sort_done(a1, a2),
        exists|i: int| 0 <= i < a0.rows.sort_columns@.len() && a0.rows.sort_columns@[i].0 == a0.cursor.selected_col,
    ensures
        a2.rows.sort_columns@ == a0.rows.sort_columns@,
{
    let sc0 = a0.rows.sort_columns@;
    let col = a0.cursor.selected_col;
    assert(a1.cursor.selected_col == col);
    lemma_column_index(sc0, col, 0);
    let j = column_index(sc0, col, 0)->0;
    let sc1 = a1.rows.sort_columns@;
    assert(sc1 == sc0.update(j, (col, !sc0[j].1)));
    lemma_column_index(sc1, col, 0);
    assert(column_index(sc1, col, 0) == Some(j)) by {
        match column_index(sc1, col, 0) {
            Some(x) => {
                if x < j {
                    assert(sc1[x] == sc0[x]);
                } else if j < x {
                    assert(sc1[j].0 == col);
                }
            },
            None => {
                assert(sc1[j].0 == col);
            },
        }
    }
    assert(a2.rows.sort_columns@ =~= sc0);
}

/// Pasting a copied row puts it into the sheet just below the selected
/// sheet row, with one cell per header (the copied cells, then empty ones),
/// and moves the rows below it down by one.
pub proof fn law_paste_row_goes_below(a0: App, a1: App)
    requires
        a0.wf(),
        a0.has_selection(),
        a0.has_copied_row(),
        App::paste_row_done(a0, a1),
    ensures
        ({
            let at = a0.order()[a0.cursor.selected_row as int] + 1;
            let rows0 = a0.sheet_rows();
            let rows1 = a1.sheet_rows();
            let v = a0.editing.clipboard_row.unwrap().deep_view();
            let w = a0.sheet().spec_headers().len();
            &&& rows1.len() == rows0.len() + 1
            &&& forall|k: int| 0 <= k < at ==> rows1[k] == rows0[k]
            &&& forall|k: int| at < k <= rows0.len() ==> rows1[k] == rows0[k - 1]
            &&& rows1[at].len() == w
            &&& forall|j: int| 0 <= j < w ==> rows1[at][j] == (if j < v.len() {
                v[j]
            } else {
                Seq::<char>::empty()
            })
        }),
{
    reveal(restored);
    a0.lemma_current_row();
}

/// A move left, right, up or down goes by the pending count (one where
/// none is pending), stopping at the first or last column or row, keeps
/// the other coordinate, and drops the count.
pub proof fn law_motion_moves_by_count(a0: App, a1: App, key: KeyEvent, now: u64)
    requires
        a0.wf(),
        App::motion_done(a0, a1, key, now),
    ensures
        ({
            let n: int = match a0.cursor.pending_count {
                Some(v) => v as int,
                None => 1,
            };
            let row = a0.cursor.selected_row as int;
            let col = a0.cursor.selected_col as int;
            let rows = a0.order().len() as int;
            let cols = a0.sheet().spec_headers().len() as int;
            &&& (key.code == KeyCode::Left || key.code == KeyCode::Char('h')) ==> {
                &&& a1.cursor.selected_col == (if col >= n {
                    col - n
                } else {
                    0
                })
                &&& a1.cursor.selected_row == row
                &&& a1.cursor.pending_count is None
            }
            &&& (key.code == KeyCode::Right || key.code == KeyCode::Char('l') || key.code == KeyCode::Char(';'))
                ==> {
                &&& a1.cursor.selected_col == (if col + n <= cols - 1 {
                    col + n
                } else if cols > 0 {
                    cols - 1
                } else {
                    0
                })
                &&& a1.cursor.selected_row == row
                &&& a1.cursor.pending_count is None
            }
            &&& (key.code == KeyCode::Up || key.code == KeyCode::Char('k')) ==> {
                &&& a1.cursor.selected_row == (if row >= n {
                    row - n
                } else {
                    0
                })
                &&& a1.cursor.selected_col == col
                &&& a1.cursor.pending_count is None
            }
            &&& (key.code == KeyCode::Down || key.code == KeyCode::Char('j')) ==> {
                &&& a1.cursor.selected_row == (if row + n <= rows - 1 {
                    row + n
                } else if rows > 0 {
                    rows - 1
                } else {
                    0
                })
                &&& a1.cursor.selected_col == col
                &&& a1.cursor.pending_count is None
            }
        }),
{
    reveal(order_ok);
    assert(a0.order().len() <= a0.sheet_rows().len());
    assert(digit_value('h') is None && digit_value('j') is None && digit_value('k') is None);
    assert(digit_value('l') is None && digit_value(';') is None);
}

/// `G` goes to the row the pending count names (counting from one, the
/// last row where the count is past it) or, without a count, to the last
/// row; `0` without a count goes to the first column and `$` to the last;
/// a digit other than `0` adds itself to the pending count.
pub proof fn law_motion_jumps(a0: App, a1: App, key: KeyEvent, now: u64)
    requires
        a0.wf(),
        App::motion_done(a0, a1, key, now),
    ensures
        ({
            let rows = a0.order().len() as int;
            let cols = a0.sheet().spec_headers().len() as int;
            let last_row = if rows > 0 {
                rows - 1
            } else {
                0
            };
            &&& key.code == KeyCode::Char('G') ==> {
                &&& a1.cursor.selected_row == match a0.cursor.pending_count {
                    Some(v) => if v - 1 <= last_row {
                        v - 1
                    } else {
                        last_row
                    },
                    None => last_row,
                }
                &&& a1.cursor.selected_col == a0.cursor.selected_col
                &&& a1.cursor.pending_count is None
            }
            &&& (key.code == KeyCode::Char('0') && a0.cursor.pending_count is None) ==> {
                &&& a1.cursor.selected_col == 0
                &&& a1.cursor.selected_row == a0.cursor.selected_row
            }
            &&& key.code == KeyCode::Char('$') ==> {
                &&& a1.cursor.selected_col == (if cols > 0 {
                    cols - 1
                } else {
                    0
                })
                &&& a1.cursor.selected_row == a0.cursor.selected_row
            }
            &&& (key.code matches KeyCode::Char(c) && '1' <= c && c <= '9') ==> a1.cursor.pending_count
                == Some(
                (match a0.cursor.pending_count {
                    Some(v) => v * 10,
                    None => 0,
                } + (key.code->Char_0 as int - '0' as int)) as usize,
            )
        }),
{
    reveal(order_ok);
    assert(a0.order().len() <= a0.sheet_rows().len());
    assert(digit_value('G') is None && digit_value('0') is None && digit_value('$') is None);
}

} // verus!
