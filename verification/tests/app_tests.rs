use sysinfo::ProcessStatus;
use taskmon::app::{App, Key, UserInputManager};
use taskmon::app_core::InputMode;
use taskmon::command::CommandParser;
use taskmon::scroll::{ScrollManager, TableSelection};
use taskmon::system::{ProcessInfoItem, SystemInfo};

fn table(names: &[&str]) -> SystemInfo {
    let mut info = SystemInfo::new(&vec![]);
    for (i, n) in names.iter().enumerate() {
        info.proc_info.procs.push(ProcessInfoItem {
            name: String::from(*n),
            pid: 1000 + i as u32,
            cpu_bits: 0,
            mem_bits: 0,
            status: ProcessStatus::Run,
        });
    }
    info
}

fn type_text(app: &mut App, info: &SystemInfo, text: &str) {
    for c in text.chars() {
        let stops = app.solve_keycode(Key::Char(c), info);
        assert!(stops.is_empty());
    }
}

fn last(app: &App) -> String {
    app.core.get_last_message()
}

#[test]
fn app_new_defaults() {
    let app = App::new();
    assert!(app.core.is_running());
    assert_eq!(app.update_interval, 500);
    assert_eq!(app.last_update, 0);
    assert_eq!(app.time_cyclic, 0);
    assert_eq!(app.usr_input_manager.input_mode, InputMode::False);
    assert_eq!(app.usr_input_manager.user_input.value(), "");
    assert_eq!(app.scroll_manager.table_state.selected, None);
}

#[test]
fn normal_mode_keys() {
    let info = table(&["a", "b", "c"]);
    let mut app = App::new();
    app.solve_keycode(Key::Down, &info);
    assert_eq!(app.scroll_manager.table_state.selected, Some(0));
    app.solve_keycode(Key::Char('j'), &info);
    app.solve_keycode(Key::Char('j'), &info);
    app.solve_keycode(Key::Char('j'), &info);
    assert_eq!(app.scroll_manager.table_state.selected, Some(2));
    app.solve_keycode(Key::Char('k'), &info);
    app.solve_keycode(Key::Up, &info);
    assert_eq!(app.scroll_manager.table_state.selected, Some(0));
    assert!(app.solve_keycode(Key::Char('x'), &info).is_empty());
    app.solve_keycode(Key::Char('q'), &info);
    assert!(!app.core.is_running());
    app.solve_keycode(Key::Char(':'), &info);
    type_text(&mut app, &info, "kill");
    app.solve_keycode(Key::Enter, &info);
    app.solve_keycode(Key::Char('j'), &info);
    assert!(!app.core.is_running());
}

#[test]
fn d_stops_the_chosen_process() {
    let mut info = table(&["a"]);
    info.selected_pid = 4242;
    let mut app = App::new();
    assert_eq!(app.solve_keycode(Key::Char('d'), &info), vec![4242]);
}

#[test]
fn search_jumps_and_cycles() {
    let info = table(&["bash", "vim", "bashtop", "zsh", "bash"]);
    let mut app = App::new();
    app.solve_keycode(Key::Char('/'), &info);
    assert_eq!(app.usr_input_manager.input_mode, InputMode::Find);
    type_text(&mut app, &info, "bashx");
    app.solve_keycode(Key::Backspace, &info);
    assert_eq!(app.usr_input_manager.user_input.value(), "bash");
    app.solve_keycode(Key::Enter, &info);
    assert_eq!(app.usr_input_manager.input_mode, InputMode::False);
    assert_eq!(app.usr_input_manager.user_input.value(), "");
    assert_eq!(app.usr_input_manager.find_results(), &vec![0, 2, 4]);
    assert_eq!(app.scroll_manager.table_state.selected, Some(0));
    app.solve_keycode(Key::Char('n'), &info);
    assert_eq!(app.scroll_manager.table_state.selected, Some(2));
    app.solve_keycode(Key::Char('n'), &info);
    app.solve_keycode(Key::Char('n'), &info);
    assert_eq!(app.scroll_manager.table_state.selected, Some(0));
    assert_eq!(app.usr_input_manager.current_find_index(), 0);
    app.solve_keycode(Key::Char('N'), &info);
    assert_eq!(app.scroll_manager.table_state.selected, Some(4));
    app.solve_keycode(Key::Char('n'), &info);
    assert_eq!(app.usr_input_manager.current_find_index(), 0);
}

#[test]
fn search_escape_clears_hits() {
    let info = table(&["bash"]);
    let mut app = App::new();
    app.solve_keycode(Key::Char('/'), &info);
    type_text(&mut app, &info, "ba");
    app.solve_keycode(Key::Esc, &info);
    assert_eq!(app.usr_input_manager.input_mode, InputMode::False);
    assert_eq!(app.usr_input_manager.user_input.value(), "");
    assert!(app.usr_input_manager.find_results().is_empty());
    app.solve_keycode(Key::Char('n'), &info);
    assert_eq!(app.scroll_manager.table_state.selected, None);
}

#[test]
fn search_is_case_sensitive() {
    let info = table(&["Bash", "bash"]);
    let mut app = App::new();
    app.solve_keycode(Key::Char('/'), &info);
    type_text(&mut app, &info, "Bash");
    app.solve_keycode(Key::Enter, &info);
    assert_eq!(app.usr_input_manager.find_results(), &vec![0]);
}

#[test]
fn command_kill_by_pid() {
    let info = table(&["a"]);
    let mut app = App::new();
    app.solve_keycode(Key::Char(':'), &info);
    type_text(&mut app, &info, "kill -p+0012 -p-1");
    let stops = app.solve_keycode(Key::Enter, &info);
    assert_eq!(stops, vec![12, u32::MAX]);
    assert_eq!(last(&app), "Killing process with PID: -1");
    assert_eq!(app.usr_input_manager.input_mode, InputMode::False);
    assert_eq!(app.usr_input_manager.user_input.value(), "");
    assert!(app.core.is_running());
}

#[test]
fn command_kill_by_name_uses_row_indices() {
    let info = table(&["Firefox", "bash", "firefox-bin"]);
    let mut app = App::new();
    app.solve_keycode(Key::Char(':'), &info);
    type_text(&mut app, &info, "  kill   -nFIREFOX ");
    let stops = app.solve_keycode(Key::Enter, &info);
    assert_eq!(stops, vec![0, 2]);
    assert_eq!(last(&app), "Killing processes with name: FIREFOX");
}

#[test]
fn command_invalid_pid_and_unknown() {
    let info = table(&["a"]);
    let mut app = App::new();
    app.solve_keycode(Key::Char(':'), &info);
    type_text(&mut app, &info, "kill -pabc -x");
    assert!(app.solve_keycode(Key::Enter, &info).is_empty());
    assert_eq!(last(&app), "Invalid PID: abc");
    app.solve_keycode(Key::Char(':'), &info);
    type_text(&mut app, &info, "reboot now");
    assert!(app.solve_keycode(Key::Enter, &info).is_empty());
    assert_eq!(last(&app), "Unknown command: reboot");
    app.solve_keycode(Key::Char(':'), &info);
    app.solve_keycode(Key::Enter, &info);
    assert_eq!(last(&app), "");
    assert!(app.core.is_running());
}

#[test]
fn command_exit_and_escape() {
    let info = table(&[]);
    let mut app = App::new();
    app.solve_keycode(Key::Char(':'), &info);
    type_text(&mut app, &info, "ex");
    app.solve_keycode(Key::Esc, &info);
    assert_eq!(app.usr_input_manager.input_mode, InputMode::False);
    assert!(app.core.is_running());
    app.solve_keycode(Key::Char(':'), &info);
    type_text(&mut app, &info, "exit");
    app.solve_keycode(Key::Enter, &info);
    assert!(!app.core.is_running());
    assert_eq!(last(&app), "exit");
}

#[test]
fn update_clock_and_clamp() {
    let info = table(&["a", "b"]);
    let mut app = App::new();
    assert!(!app.update_due(499));
    assert!(app.update_due(500));
    app.scroll_manager.table_state_select(7);
    app.finish_update(600, &info);
    assert_eq!(app.scroll_manager.table_state.selected, Some(1));
    assert_eq!(app.scroll_manager.scrollbar_state.content_length, 2);
    assert_eq!(app.last_update, 600);
    assert_eq!(app.time_cyclic, 1);
    assert!(!app.update_due(1000));
    assert!(app.update_due(1100));
    assert!(!app.update_due(10));
    app.time_cyclic = 0xffff_ffff;
    app.finish_update(1100, &table(&[]));
    assert_eq!(app.time_cyclic, 0);
    assert_eq!(app.scroll_manager.table_state.selected, Some(1));
}

#[test]
fn status_text_by_mode_and_blink() {
    let info = table(&[]);
    let mut app = App::new();
    assert_eq!(
        app.status_text(77),
        "Press 'q' to quit | ↑/↓,j/k to navigate | 'd' delete proc | choose -> 77"
    );
    app.solve_keycode(Key::Char('/'), &info);
    type_text(&mut app, &info, "vi");
    assert_eq!(app.cursor_char(), '|');
    assert_eq!(app.status_text(77), "input > vi|");
    app.time_cyclic = 4;
    assert_eq!(app.cursor_char(), ' ');
    assert_eq!(app.status_text(77), "input > vi ");
    app.time_cyclic = 8;
    app.solve_keycode(Key::Esc, &info);
    app.solve_keycode(Key::Char(':'), &info);
    type_text(&mut app, &info, "k");
    assert_eq!(app.status_text(1), "command : k|");
}

#[test]
fn sync_table_picks_row_and_pid() {
    let mut info = table(&["a", "b", "c"]);
    let mut app = App::new();
    app.sync_table(TableSelection { selected: None, offset: 0 }, &mut info);
    assert_eq!(app.scroll_manager.table_state.selected, Some(0));
    assert_eq!(app.scroll_manager.scrollbar_state.content_length, 3);
    assert_eq!(app.scroll_manager.scrollbar_state.position, 0);
    assert_eq!(info.selected_pid, 1000);
    app.sync_table(TableSelection { selected: Some(2), offset: 1 }, &mut info);
    assert_eq!(app.scroll_manager.table_state.offset, 1);
    assert_eq!(app.scroll_manager.scrollbar_state.position, 2);
    assert_eq!(info.selected_pid, 1002);
    let mut empty = table(&[]);
    empty.selected_pid = 9;
    let mut app = App::new();
    app.sync_table(TableSelection { selected: None, offset: 0 }, &mut empty);
    assert_eq!(app.scroll_manager.table_state.selected, None);
    assert_eq!(empty.selected_pid, 9);
}

#[test]
fn input_manager_find_and_walk() {
    let info = table(&["ab", "b", "ab"]);
    let mut m = UserInputManager::new();
    let mut s = ScrollManager::new(3);
    m.find_processes(&mut s, &info, "ab");
    assert_eq!(m.find_results(), &vec![0, 2]);
    assert_eq!(s.table_state.selected, Some(0));
    m.prev_find_result(&mut s);
    assert_eq!(s.table_state.selected, Some(2));
    m.next_find_result(&mut s);
    assert_eq!(s.table_state.selected, Some(0));
    m.find_processes(&mut s, &info, "");
    assert!(m.find_results().is_empty());
    m.next_find_result(&mut s);
    assert_eq!(s.table_state.selected, Some(0));
    m.handle_key(Key::Char('é'));
    m.handle_key(Key::Enter);
    assert_eq!(m.user_input.value(), "é");
    m.handle_key(Key::Backspace);
    m.handle_key(Key::Backspace);
    assert_eq!(m.user_input.value(), "");
}

#[test]
fn parser_words_and_explain() {
    let p = CommandParser::new(&String::from("  kill\t-p5  "));
    let info = table(&["x"]);
    let mut app = App::new();
    let mut p = p;
    assert_eq!(p.explain(&mut app, &info), vec![5]);
    assert_eq!(app.core.get_last_message(), "Killing process with PID: 5");
    let mut empty = CommandParser::new(&String::from("   "));
    assert!(empty.explain(&mut app, &info).is_empty());
    assert_eq!(app.core.get_last_message(), "Killing process with PID: 5");
}
