use sysinfo::ProcessStatus;
use taskmon::scroll::{ScrollManager, ScrollbarPosition, TableSelection};
use taskmon::system::{ProcessInfoItem, SystemInfo};

fn rows(n: u32) -> SystemInfo {
    let mut info = SystemInfo::new(&vec![]);
    for i in 0..n {
        info.proc_info.procs.push(ProcessInfoItem {
            name: format!("p{}", i),
            pid: 100 + i,
            cpu_bits: 0,
            mem_bits: 0,
            status: ProcessStatus::Sleep,
        });
    }
    info
}

#[test]
fn scroll_manager_starts_unselected() {
    let s = ScrollManager::new(7);
    assert_eq!(s.table_state.selected(), None);
    assert_eq!(s.table_state.offset, 0);
    assert_eq!(s.scrollbar_state.content_length, 7);
    assert_eq!(s.scrollbar_state.position, 0);
}

#[test]
fn scroll_from_nothing_selects_first_row() {
    let info = rows(3);
    let mut s = ScrollManager::new(3);
    s.scroll_down(&info);
    assert_eq!(s.table_state.selected, Some(0));
    let mut s = ScrollManager::new(3);
    s.scroll_up(&info);
    assert_eq!(s.table_state.selected, Some(0));
    let empty = rows(0);
    let mut s = ScrollManager::new(0);
    s.scroll_up(&empty);
    s.scroll_down(&empty);
    assert_eq!(s.table_state.selected, None);
}

#[test]
fn scroll_stops_at_the_ends() {
    let info = rows(3);
    let mut s = ScrollManager::new(3);
    s.table_state_select(2);
    s.scroll_down(&info);
    assert_eq!(s.table_state.selected, Some(2));
    s.table_state_select(0);
    s.scroll_up(&info);
    assert_eq!(s.table_state.selected, Some(0));
}

#[test]
fn scroll_down_then_up_returns() {
    let info = rows(5);
    let mut s = ScrollManager::new(5);
    s.table_state_select(2);
    s.table_state.offset = 1;
    s.scroll_down(&info);
    assert_eq!(s.table_state.selected, Some(3));
    s.scroll_up(&info);
    assert_eq!(s.table_state.selected, Some(2));
    assert_eq!(s.table_state.offset, 1);
}

#[test]
fn table_selection_clear_resets_offset() {
    let mut t = TableSelection::new();
    t.select(Some(4));
    t.offset = 3;
    t.select(Some(5));
    assert_eq!(t.offset, 3);
    t.select(None);
    assert_eq!((t.selected, t.offset), (None, 0));
}

#[test]
fn scrollbar_builders() {
    let b = ScrollbarPosition::new(10).position(4).content_length(20);
    assert_eq!((b.content_length, b.position), (20, 4));
}
