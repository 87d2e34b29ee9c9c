use vstd::prelude::*;
use crate::system::SystemInfo;

verus! {

#[derive(Clone, Copy)]
/// The row selection of the process table and the first row on screen,
/// as a table widget keeps them between frames.
pub struct TableSelection {
    pub selected: Option<usize>,
    pub offset: usize,
}

#[derive(Clone, Copy)]
/// The length of the scrollable content and the position within it, as a
/// scrollbar widget draws them.
pub struct ScrollbarPosition {
    pub content_length: usize,
    pub position: usize,
}

impl TableSelection {
    /// Nothing selected, the first row at the top.
    pub fn new() -> (r: Self)
        ensures
            r.selected is None,
            r.offset == 0,
    {
        TableSelection { selected: None, offset: 0 }
    }

    pub fn selected(&self) -> (r: Option<usize>)
        ensures
            r == self.selected,
    {
        self.selected
    }

    /// Selects row `index`; clearing the selection also scrolls back to the
    /// first row.
    pub fn select(&mut self, index: Option<usize>)
        ensures
            final(self).selected == index,
            final(self).offset == (if index is None {
                0
            } else {
                old(self).offset
            }),
    {
        self.selected = index;
        if index.is_none() {
            self.offset = 0;
        }
    }
}

impl ScrollbarPosition {
    /// A content of `content_length` items, at position 0.
    pub fn new(content_length: usize) -> (r: Self)
        ensures
            r.content_length == content_length,
            r.position == 0,
    {
        ScrollbarPosition { content_length, position: 0 }
    }

    pub fn content_length(self, content_length: usize) -> (r: Self)
        ensures
            r.content_length == content_length,
            r.position == self.position,
    {
        ScrollbarPosition { content_length, position: self.position }
    }

    pub fn position(self, position: usize) -> (r: Self)
        ensures
            r.content_length == self.content_length,
            r.position == position,
    {
        ScrollbarPosition { content_length: self.content_length, position }
    }
}

/// The selection after moving up in a table of `total` rows: one row up,
/// staying on the first; with nothing selected, the first row if any.
pub open spec fn moved_up(selected: Option<usize>, total: nat) -> Option<usize> {
    match selected {
        Some(s) => if s > 0 {
            Some((s - 1) as usize)
        } else {
            selected
        },
        None => if total > 0 {
            Some(0)
        } else {
            None
        },
    }
}

/// The selection after moving down in a table of `total` rows: one row
/// down, staying on the last; with nothing selected, the first row if any.
pub open spec fn moved_down(selected: Option<usize>, total: nat) -> Option<usize> {
    match selected {
        Some(s) => if s + 1 < total {
            Some((s + 1) as usize)
        } else {
            selected
        },
        None => if total > 0 {
            Some(0)
        } else {
            None
        },
    }
}

/// A selection that a table of `total` rows can show.
pub open spec fn within(selected: Option<usize>, total: nat) -> bool {
    match selected {
        Some(s) => s < total,
        None => true,
    }
}

/// The state of the process table's selection and scrollbar.
pub struct ScrollManager {
    pub table_state: TableSelection,
    pub scrollbar_state: ScrollbarPosition,
}

impl ScrollManager {
    pub fn new(total_rows: usize) -> (r: Self)
        ensures
            r.table_state.selected is None,
            r.table_state.offset == 0,
            r.scrollbar_state.content_length == total_rows,
            r.scrollbar_state.position == 0,
    {
        ScrollManager {
            table_state: TableSelection::new(),
            scrollbar_state: ScrollbarPosition::new(total_rows),
        }
    }

    /// Moves the selection one row up (see `moved_up`).
    pub fn scroll_up(&mut self, sysinfo: &SystemInfo)
        ensures
            final(self).table_state.selected == moved_up(
                old(self).table_state.selected,
                sysinfo.proc_info.procs@.len(),
            ),
            final(self).table_state.offset == old(self).table_state.offset,
            final(self).scrollbar_state == old(self).scrollbar_state,
    {
        let total_rows = sysinfo.proc_info.procs.len();
        if let Some(selected) = self.table_state.selected() {
            if selected > 0 {
                self.table_state.select(Some(selected - 1));
            }
        } else if total_rows > 0 {
            self.table_state.select(Some(0));
        }
    }

    /// Moves the selection one row down (see `moved_down`).
    pub fn scroll_down(&mut self, sysinfo: &SystemInfo)
        requires
            old(self).table_state.selected != Some(usize::MAX),
        ensures
            final(self).table_state.selected == moved_down(
                old(self).table_state.selected,
                sysinfo.proc_info.procs@.len(),
            ),
            final(self).table_state.offset == old(self).table_state.offset,
            final(self).scrollbar_state == old(self).scrollbar_state,
    {
        let total_rows = sysinfo.proc_info.procs.len();
        if let Some(selected) = self.table_state.selected() {
            if selected + 1 < total_rows {
                self.table_state.select(Some(selected + 1));
            }
        } else if total_rows > 0 {
            self.table_state.select(Some(0));
        }
    }

    pub fn table_state_select(&mut self, index: usize)
        ensures
            final(self).table_state.selected == Some(index),
            final(self).table_state.offset == old(self).table_state.offset,
            final(self).scrollbar_state == old(self).scrollbar_state,
    {
        self.table_state.select(Some(index));
    }
}

/// Moving down and then up again comes back to the same row, whenever
/// there is a row below it.
pub proof fn law_down_then_up(s: usize, total: nat)
    requires
        s + 1 < total,
        total <= usize::MAX,
    ensures
        moved_up(moved_down(Some(s), total), total) == Some(s),
{
}

/// Moving up and then down again comes back to the same row, whenever
/// there is a row above it.
pub proof fn law_up_then_down(s: usize, total: nat)
    requires
        0 < s < total,
    ensures
        moved_down(moved_up(Some(s), total), total) == Some(s),
{
}

/// Moving never takes a selection out of the table.
pub proof fn law_moves_stay_within(selected: Option<usize>, total: nat)
    requires
        within(selected, total),
    ensures
        within(moved_up(selected, total), total),
        within(moved_down(selected, total), total),
{
}

} // verus!
