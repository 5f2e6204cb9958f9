use crate::config::{capped_word, SearchConfig, SortConfig, NO_FILTER};
use crate::table::{label_count, value_count, ViewMode};
use vstd::prelude::*;

verus! {

/// What the user asked for, one key at a time.
#[derive(Debug, Clone, Copy, PartialEq, Eq)]
pub enum Command {
    Quit,
    Refresh,
    ClearFilter,
    NextView,
    DrillDown,
    SortLeft,
    SortRight,
    Up,
    Down,
    PageUp,
    PageDown,
    Ignore,
}

/// The dashboard's state: the table on screen, the view, sort and filter
/// settings, and the selection within the scrolled window.
pub struct AppState {
    pub rows: Vec<Vec<String>>,
    pub is_loading: bool,
    pub view_mode: ViewMode,
    pub sort_config: SortConfig,
    pub search_config: SearchConfig,
    pub scroll_offset_horizontal: usize,
    pub scroll_offset: usize,
    pub visible_height: usize,
    pub selected_row: usize,
}

/// The settings a table was asked for with; a table that arrives after
/// the settings changed is stale.
pub struct RequestToken {
    pub view_mode: ViewMode,
    pub sort_config: SortConfig,
    pub search_config: SearchConfig,
}

/// The view after `kind` in the cycle Node, Pod, Namespace.
pub open spec fn next_view(kind: ViewMode) -> ViewMode {
    match kind {
        ViewMode::Node => ViewMode::Pod,
        ViewMode::Pod => ViewMode::Namespace,
        ViewMode::Namespace => ViewMode::Node,
    }
}

/// The last column that can be sorted on in `kind`.
pub open spec fn max_sort_column(kind: ViewMode) -> int {
    label_count(kind) + value_count(kind) - 1
}

/// The pod column that a drill-down from `kind` filters on: the node column
/// from the node view, the namespace column from the namespace view.
pub open spec fn drill_column(kind: ViewMode) -> usize {
    match kind {
        ViewMode::Node => 3,
        _ => 0,
    }
}

pub open spec fn min(a: int, b: int) -> int {
    if a <= b {
        a
    } else {
        b
    }
}

pub open spec fn sub_floor(a: int, b: int) -> int {
    if a >= b {
        a - b
    } else {
        0
    }
}

/// The widths the columns of `kind` ask for.
pub open spec fn base_widths(kind: ViewMode) -> Seq<u16> {
    match kind {
        ViewMode::Node => seq![20u16, 15, 15, 15, 15, 15, 15],
        ViewMode::Pod => seq![20u16, 35, 15, 25, 15, 15, 15, 15],
        ViewMode::Namespace => seq![30u16, 15, 15, 15, 15],
    }
}

pub open spec fn sum_widths(w: Seq<u16>) -> int
    decreases w.len(),
{
    if w.len() == 0 {
        0
    } else {
        sum_widths(w.drop_last()) + w.last()
    }
}

/// How much each column gives up on a terminal `terminal_width` cells wide
/// (less a margin of 4): the shortfall shared out evenly, rounded up.
pub open spec fn width_cut(kind: ViewMode, terminal_width: int) -> int {
    let total = sum_widths(base_widths(kind));
    let available = sub_floor(terminal_width, 4);
    let count = base_widths(kind).len() as int;
    if available < total {
        (total - available + count - 1) / count
    } else {
        0
    }
}

/// Each column shrunk by the cut, except one that would drop to 5 cells or
/// fewer, which keeps its width.
pub open spec fn fitted_widths(kind: ViewMode, terminal_width: int) -> Seq<u16> {
    let cut = width_cut(kind, terminal_width);
    base_widths(kind).map_values(
        |w: u16|
            if w > cut + 5 {
                (w - cut) as u16
            } else {
                w
            },
    )
}

fn width_total(w: &Vec<u16>) -> (r: usize)
    requires
        w@.len() <= 8,
        forall|i: int| 0 <= i < w@.len() ==> w@[i] <= 40,
    ensures
        r == sum_widths(w@),
        r <= 320,
{
    let mut total: usize = 0;
    let mut i: usize = 0;
    while i < w.len()
        invariant
            i <= w@.len() <= 8,
            forall|j: int| 0 <= j < w@.len() ==> w@[j] <= 40,
            total == sum_widths(w@.take(i as int)),
            total <= 40 * i,
        decreases w.len() - i,
    {
        assert(w@.take(i + 1).drop_last() =~= w@.take(i as int));
        total = total + w[i] as usize;
        i = i + 1;
    }
    assert(w@.take(i as int) =~= w@);
    total
}

impl AppState {
    /// The data rows of the table: all but the header and the total row.
    pub open spec fn data_rows(&self) -> int {
        sub_floor(self.rows@.len() as int, 2)
    }

    /// The selection is on a data row (or 0 when there is none), the window
    /// starts at or above it and, when the window has room, holds it; the
    /// sort column is one of the view's columns.
    pub open spec fn wf(&self) -> bool {
        &&& self.data_rows() == 0 ==> self.selected_row == 0
        &&& self.data_rows() > 0 ==> self.selected_row < self.data_rows()
        &&& self.scroll_offset <= self.selected_row
        &&& self.visible_height > 0 ==> self.selected_row < self.scroll_offset
            + self.visible_height
        &&& self.sort_config.column <= max_sort_column(self.view_mode)
    }

    pub open spec fn no_filter(&self) -> bool {
        self.search_config.column == NO_FILTER && self.search_config.word@.len() == 0
    }

    pub open spec fn can_drill_down(&self) -> bool {
        &&& self.view_mode != ViewMode::Pod
        &&& self.selected_row < self.data_rows()
        &&& self.rows@[self.selected_row + 1]@.len() > 0
    }

    /// The text of the selected row's first column.
    pub open spec fn selected_name(&self) -> Seq<char> {
        self.rows@[self.selected_row + 1]@[0]@
    }

    pub open spec fn same_settings(&self, o: AppState) -> bool {
        &&& self.view_mode == o.view_mode
        &&& self.sort_config == o.sort_config
        &&& self.search_config == o.search_config
    }

    pub open spec fn same_position(&self, o: AppState) -> bool {
        self.selected_row == o.selected_row && self.scroll_offset == o.scroll_offset
    }

    /// What `command` does to the state `o`, giving `self`.
    pub open spec fn stepped(&self, o: AppState, command: Command) -> bool {
        &&& self.rows == o.rows
        &&& self.visible_height == o.visible_height
        &&& self.scroll_offset_horizontal == o.scroll_offset_horizontal
        &&& match command {
            Command::Quit | Command::Ignore => *self == o,
            Command::Refresh => self.is_loading && self.same_settings(o) && self.same_position(o),
            Command::ClearFilter => {
                &&& self.is_loading
                &&& self.view_mode == o.view_mode
                &&& self.sort_config == o.sort_config
                &&& self.no_filter()
                &&& self.selected_row == 0
                &&& self.scroll_offset == 0
            },
            Command::NextView => {
                &&& self.is_loading
                &&& self.view_mode == next_view(o.view_mode)
                &&& self.sort_config.column == 0
                &&& self.no_filter()
                &&& self.selected_row == 0
                &&& self.scroll_offset == 0
            },
            Command::DrillDown => if o.can_drill_down() {
                &&& self.is_loading
                &&& self.view_mode == ViewMode::Pod
                &&& self.sort_config == o.sort_config
                &&& self.search_config.column == drill_column(o.view_mode)
                &&& self.search_config.word@ == capped_word(o.selected_name())
                &&& self.selected_row == 0
                &&& self.scroll_offset == 0
            } else {
                *self == o
            },
            Command::SortLeft => {
                &&& self.is_loading
                &&& self.view_mode == o.view_mode
                &&& self.search_config == o.search_config
                &&& self.same_position(o)
                &&& self.sort_config.column == if o.sort_config.column > 0 {
                    o.sort_config.column - 1
                } else {
                    0
                }
            },
            Command::SortRight => {
                &&& self.is_loading
                &&& self.view_mode == o.view_mode
                &&& self.search_config == o.search_config
                &&& self.same_position(o)
                &&& self.sort_config.column == if o.sort_config.column < max_sort_column(
                    o.view_mode,
                ) {
                    o.sort_config.column + 1
                } else {
                    o.sort_config.column as int
                }
            },
            Command::Up => {
                &&& self.is_loading == o.is_loading
                &&& self.same_settings(o)
                &&& if o.selected_row > 0 {
                    &&& self.selected_row == o.selected_row - 1
                    &&& self.scroll_offset == if self.selected_row < o.scroll_offset {
                        o.scroll_offset - 1
                    } else {
                        o.scroll_offset as int
                    }
                } else {
                    self.same_position(o)
                }
            },
            Command::Down => {
                &&& self.is_loading == o.is_loading
                &&& self.same_settings(o)
                &&& if o.selected_row + 1 < o.data_rows() {
                    &&& self.selected_row == o.selected_row + 1
                    &&& self.scroll_offset == if self.selected_row >= o.scroll_offset
                        + o.visible_height {
                        o.scroll_offset + 1
                    } else {
                        o.scroll_offset as int
                    }
                } else {
                    self.same_position(o)
                }
            },
            Command::PageUp => {
                &&& self.is_loading == o.is_loading
                &&& self.same_settings(o)
                &&& self.selected_row == sub_floor(o.selected_row as int, o.visible_height as int)
                &&& self.scroll_offset == sub_floor(o.scroll_offset as int, o.visible_height as int)
            },
            Command::PageDown => {
                &&& self.is_loading == o.is_loading
                &&& self.same_settings(o)
                &&& if o.data_rows() > 0 {
                    &&& self.selected_row == min(
                        o.selected_row + o.visible_height,
                        o.data_rows() - 1,
                    )
                    &&& self.scroll_offset == min(
                        o.scroll_offset + o.visible_height,
                        o.data_rows() - 1,
                    )
                } else {
                    self.same_position(o)
                }
            },
        }
    }

    /// The state at start-up: no rows yet, the node view, sorted on the
    /// first column, no filter.
    pub fn new() -> (r: Self)
        ensures
            r.rows@.len() == 0,
            !r.is_loading,
            r.view_mode == ViewMode::Node,
            r.sort_config.column == 0,
            r.no_filter(),
            r.scroll_offset_horizontal == 0,
            r.scroll_offset == 0,
            r.visible_height == 0,
            r.selected_row == 0,
            r.wf(),
    {
        let r = Self {
            rows: Vec::new(),
            is_loading: false,
            view_mode: ViewMode::Node,
            sort_config: SortConfig::new(0),
            search_config: SearchConfig::new(NO_FILTER, ""),
            scroll_offset_horizontal: 0,
            scroll_offset: 0,
            visible_height: 0,
            selected_row: 0,
        };
        proof {
            reveal_strlit("");
            crate::config::lemma_short_word_kept(""@);
        }
        r
    }

    fn data_row_count(&self) -> (r: usize)
        ensures
            r == self.data_rows(),
    {
        if self.rows.len() >= 2 {
            self.rows.len() - 2
        } else {
            0
        }
    }

    fn clear_filter(&mut self)
        ensures
            final(self).no_filter(),
            final(self).rows == old(self).rows,
            final(self).view_mode == old(self).view_mode,
            final(self).sort_config == old(self).sort_config,
            final(self).is_loading == old(self).is_loading,
            final(self).scroll_offset_horizontal == old(self).scroll_offset_horizontal,
            final(self).scroll_offset == old(self).scroll_offset,
            final(self).visible_height == old(self).visible_height,
            final(self).selected_row == old(self).selected_row,
    {
        self.search_config = SearchConfig::new(NO_FILTER, "");
        proof {
            reveal_strlit("");
            crate::config::lemma_short_word_kept(""@);
        }
    }

    /// Whether `token` names the view, sort and filter now in force.
    pub open spec fn matches_token(&self, token: RequestToken) -> bool {
        &&& token.view_mode == self.view_mode
        &&& token.sort_config == self.sort_config
        &&& token.search_config.column == self.search_config.column
        &&& token.search_config.word@ == self.search_config.word@
    }

    /// The token for a table asked for now.
    pub fn request_token(&self) -> (r: RequestToken)
        ensures
            self.matches_token(r),
    {
        RequestToken {
            view_mode: self.view_mode,
            sort_config: SortConfig::new(self.sort_config.column),
            search_config: SearchConfig {
                column: self.search_config.column,
                word: self.search_config.word.clone(),
            },
        }
    }

    /// Whether a table asked for with `token` still fits the settings in
    /// force; one that does not is to be dropped.
    pub fn accepts(&self, token: &RequestToken) -> (r: bool)
        ensures
            r == self.matches_token(*token),
    {
        let same_view = match (token.view_mode, self.view_mode) {
            (ViewMode::Node, ViewMode::Node) => true,
            (ViewMode::Pod, ViewMode::Pod) => true,
            (ViewMode::Namespace, ViewMode::Namespace) => true,
            _ => false,
        };
        same_view && token.sort_config.column == self.sort_config.column
            && token.search_config.column == self.search_config.column
            && token.search_config.word == self.search_config.word
    }

    /// Takes a freshly built table. Selection and window stay where they
    /// were, pulled back onto the last data row if the table shrank.
    pub fn set_rows(&mut self, rows: Vec<Vec<String>>)
        ensures
            final(self).rows == rows,
            !final(self).is_loading,
            final(self).same_settings(*old(self)),
            final(self).visible_height == old(self).visible_height,
            final(self).scroll_offset_horizontal == old(self).scroll_offset_horizontal,
            final(self).selected_row == min(
                old(self).selected_row as int,
                sub_floor(final(self).data_rows(), 1),
            ),
            final(self).scroll_offset == min(
                old(self).scroll_offset as int,
                final(self).selected_row as int,
            ),
            old(self).wf() ==> final(self).wf(),
    {
        self.rows = rows;
        self.is_loading = false;
        let data_rows = self.data_row_count();
        let last = if data_rows > 0 {
            data_rows - 1
        } else {
            0
        };
        if self.selected_row > last {
            self.selected_row = last;
        }
        if self.scroll_offset > self.selected_row {
            self.scroll_offset = self.selected_row;
        }
    }

    /// Records how many data rows the window has room for, and scrolls so
    /// that the selection stays inside the window.
    pub fn set_visible_height(&mut self, height: usize)
        ensures
            final(self).visible_height == height,
            final(self).rows == old(self).rows,
            final(self).is_loading == old(self).is_loading,
            final(self).same_settings(*old(self)),
            final(self).scroll_offset_horizontal == old(self).scroll_offset_horizontal,
            final(self).selected_row == old(self).selected_row,
            final(self).scroll_offset == if height > 0 && old(self).selected_row
                >= old(self).scroll_offset + height {
                old(self).selected_row + 1 - height
            } else {
                old(self).scroll_offset as int
            },
            old(self).wf() ==> final(self).wf(),
    {
        self.visible_height = height;
        let sel = self.selected_row;
        let top = self.scroll_offset;
        if height > 0 && sel >= top && sel - top >= height {
            self.scroll_offset = sel - height + 1;
        }
    }

    /// The rows to draw between the header and the total row, as the range
    /// `[start, end)` of indices into `rows`: from the window's first data
    /// row, at most `visible_height` of them, never the total row.
    pub fn visible_range(&self) -> (r: (usize, usize))
        ensures
            self.rows@.len() == 0 ==> r == (0usize, 0usize),
            self.rows@.len() > 0 ==> {
                let stop = self.rows@.len() - 1;
                &&& r.0 == min(1 + self.scroll_offset, stop)
                &&& r.1 == min(r.0 + self.visible_height, stop)
            },
    {
        let n = self.rows.len();
        if n == 0 {
            return (0, 0);
        }
        let stop = n - 1;
        let start = if self.scroll_offset >= stop {
            stop
        } else {
            1 + self.scroll_offset
        };
        let start = if start > stop {
            stop
        } else {
            start
        };
        let end = if self.visible_height >= stop - start {
            stop
        } else {
            start + self.visible_height
        };
        (start, end)
    }

    /// The width of each column of the current view on a terminal
    /// `terminal_width` cells wide (see `fitted_widths`).
    pub fn column_widths(&self, terminal_width: usize) -> (r: Vec<u16>)
        ensures
            r@ == fitted_widths(self.view_mode, terminal_width as int),
    {
        let base: Vec<u16> = match self.view_mode {
            ViewMode::Node => vec![20, 15, 15, 15, 15, 15, 15],
            ViewMode::Pod => vec![20, 35, 15, 25, 15, 15, 15, 15],
            ViewMode::Namespace => vec![30, 15, 15, 15, 15],
        };
        assert(base@ =~= base_widths(self.view_mode));
        let total = width_total(&base);
        let available = terminal_width.saturating_sub(4);
        let count = base.len();
        let cut: usize = if available < total {
            (total - available + count - 1) / count
        } else {
            0
        };
        let mut r: Vec<u16> = Vec::new();
        let mut i: usize = 0;
        while i < count
            invariant
                count == base@.len(),
                base@ == base_widths(self.view_mode),
                cut == width_cut(self.view_mode, terminal_width as int),
                i <= count,
                r@ == fitted_widths(self.view_mode, terminal_width as int).take(i as int),
            decreases count - i,
        {
            let w = base[i];
            let fitted = if (w as usize) > cut && (w as usize) - cut > 5 {
                w - (cut as u16)
            } else {
                w
            };
            r.push(fitted);
            assert(r@ =~= fitted_widths(self.view_mode, terminal_width as int).take(i + 1));
            i = i + 1;
        }
        assert(fitted_widths(self.view_mode, terminal_width as int).take(count as int)
            =~= fitted_widths(self.view_mode, terminal_width as int));
        r
    }

    /// Moves to the next view in the cycle Node, Pod, Namespace.
    pub fn toggle_view_mode(&mut self)
        ensures
            final(self).view_mode == next_view(old(self).view_mode),
            final(self).rows == old(self).rows,
            final(self).is_loading == old(self).is_loading,
            final(self).sort_config == old(self).sort_config,
            final(self).search_config == old(self).search_config,
            final(self).scroll_offset_horizontal == old(self).scroll_offset_horizontal,
            final(self).scroll_offset == old(self).scroll_offset,
            final(self).visible_height == old(self).visible_height,
            final(self).selected_row == old(self).selected_row,
    {
        self.view_mode = match self.view_mode {
            ViewMode::Node => ViewMode::Pod,
            ViewMode::Pod => ViewMode::Namespace,
            ViewMode::Namespace => ViewMode::Node,
        };
    }
}

/// Applies one command to the state. Returns `false` when the command is to
/// quit. Moving the selection stops at the first and last data rows and
/// scrolls the window by one row when the selection leaves it; paging moves
/// selection and window by the window's height, within the data rows.
/// Changing view or clearing the filter puts the selection back on the
/// first row; a drill-down from a node or namespace row shows the pods of
/// that node or namespace.
pub fn handle_event(command: Command, app_state: &mut AppState) -> (keep_going: bool)
    ensures
        keep_going == (command != Command::Quit),
        final(app_state).stepped(*old(app_state), command),
        old(app_state).wf() ==> final(app_state).wf(),
{
    let data_rows = app_state.data_row_count();
    match command {
        Command::Quit => {
            return false;
        },
        Command::Ignore => {},
        Command::Refresh => {
            app_state.is_loading = true;
        },
        Command::ClearFilter => {
            app_state.is_loading = true;
            app_state.clear_filter();
            app_state.selected_row = 0;
            app_state.scroll_offset = 0;
        },
        Command::NextView => {
            app_state.toggle_view_mode();
            app_state.is_loading = true;
            app_state.selected_row = 0;
            app_state.scroll_offset = 0;
            app_state.sort_config.column = 0;
            app_state.clear_filter();
        },
        Command::DrillDown => {
            let column: usize = match app_state.view_mode {
                ViewMode::Node => 3,
                ViewMode::Namespace => 0,
                ViewMode::Pod => {
                    return true;
                },
            };
            if app_state.selected_row < data_rows
                && app_state.rows[app_state.selected_row + 1].len() > 0 {
                let word = app_state.rows[app_state.selected_row + 1][0].clone();
                app_state.is_loading = true;
                app_state.selected_row = 0;
                app_state.scroll_offset = 0;
                app_state.view_mode = ViewMode::Pod;
                app_state.search_config.set_word(word.as_str());
                app_state.search_config.column = column;
            }
        },
        Command::SortLeft => {
            if app_state.sort_config.column > 0 {
                app_state.sort_config.column = app_state.sort_config.column - 1;
            }
            app_state.is_loading = true;
        },
        Command::SortRight => {
            let max_column: usize = match app_state.view_mode {
                ViewMode::Node => 6,
                ViewMode::Pod => 7,
                ViewMode::Namespace => 4,
            };
            if app_state.sort_config.column < max_column {
                app_state.sort_config.column = app_state.sort_config.column + 1;
            }
            app_state.is_loading = true;
        },
        Command::Up => {
            if app_state.selected_row > 0 {
                app_state.selected_row = app_state.selected_row - 1;
                if app_state.selected_row < app_state.scroll_offset {
                    app_state.scroll_offset = app_state.scroll_offset - 1;
                }
            }
        },
        Command::Down => {
            if data_rows > 0 && app_state.selected_row < data_rows - 1 {
                app_state.selected_row = app_state.selected_row + 1;
                let sel = app_state.selected_row;
                let top = app_state.scroll_offset;
                if sel >= top && sel - top >= app_state.visible_height {
                    app_state.scroll_offset = top + 1;
                }
            }
        },
        Command::PageUp => {
            let page = app_state.visible_height;
            app_state.scroll_offset = app_state.scroll_offset.saturating_sub(page);
            app_state.selected_row = app_state.selected_row.saturating_sub(page);
        },
        Command::PageDown => {
            if data_rows > 0 {
                let last = data_rows - 1;
                let page = app_state.visible_height;
                let sel = app_state.selected_row;
                let top = app_state.scroll_offset;
                app_state.selected_row = if sel >= last || page >= last - sel {
                    last
                } else {
                    sel + page
                };
                app_state.scroll_offset = if top >= last || page >= last - top {
                    last
                } else {
                    top + page
                };
            }
        },
    }
    true
}

} // verus!
