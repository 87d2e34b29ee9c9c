use vstd::prelude::*;
use tui_input::Input;
use crate::app_core::{AppCore, InputMode};
use crate::editor::{
    EditRequest,
    edited,
    has_room,
    input_cursor,
    input_default,
    input_handle,
    input_text,
};
use crate::command::{CommandParser, command_outcome};
use crate::number::{decimal, format_u64};
use crate::scroll::{ScrollManager, TableSelection, moved_down, moved_up, within};
use crate::system::{SystemInfo, matching_rows, sat_sub};
use crate::text::{contains_seq, join2, split_ws};

verus! {

/// A key as the monitor reads it.
#[derive(PartialEq, Eq, Structural, Clone, Copy, Debug)]
pub enum Key {
    Char(char),
    Backspace,
    Enter,
    Esc,
    Up,
    Down,
    Other,
}

/// What a key does to the prompt line: a character is typed at the cursor,
/// Backspace deletes the character before it, other keys do nothing.
pub open spec fn key_edit(text: Seq<char>, cursor: nat, key: Key) -> (Seq<char>, nat) {
    match key {
        Key::Char(c) => edited(text, cursor, EditRequest::InsertChar(c)),
        Key::Backspace => edited(text, cursor, EditRequest::DeletePrevChar),
        _ => (text, cursor),
    }
}

/// The next search hit after `index`, going round.
pub open spec fn next_index(index: usize, len: nat) -> usize {
    ((index + 1) % (len as int)) as usize
}

/// The search hit before `index`, going round.
pub open spec fn prev_index(index: usize, len: nat) -> usize {
    ((index + len - 1) % (len as int)) as usize
}

/// The prompt line, its mode, and the hits of the last search.
pub struct UserInputManager {
    pub input_mode: InputMode,
    pub user_input: Input,
    find_results: Vec<usize>,
    current_find_index: usize,
}

impl UserInputManager {
    pub closed spec fn mode(&self) -> InputMode {
        self.input_mode
    }

    pub closed spec fn input(&self) -> Input {
        self.user_input
    }

    /// The hits of the last search: indices of rows.
    pub closed spec fn results(&self) -> Seq<usize> {
        self.find_results@
    }

    /// Which hit the cursor was last moved to.
    pub closed spec fn find_index(&self) -> usize {
        self.current_find_index
    }

    pub closed spec fn text(&self) -> Seq<char> {
        input_text(self.user_input)
    }

    pub closed spec fn cursor(&self) -> nat {
        input_cursor(self.user_input)
    }

    /// The line is edited at its end, and the current hit, when there are
    /// hits, is one of them.
    pub closed spec fn wf(&self) -> bool {
        &&& self.cursor() == self.text().len()
        &&& self.results().len() > 0 ==> self.find_index() < self.results().len()
        &&& forall|i: int|
            0 <= i < self.results().len() ==> #[trigger] self.results()[i] < usize::MAX
    }

    /// Normal mode, an empty line, no hits.
    pub fn new() -> (r: Self)
        ensures
            r.wf(),
            r.mode() == InputMode::False,
            r.text() == Seq::<char>::empty(),
            r.cursor() == 0,
            r.results() == Seq::<usize>::empty(),
            r.find_index() == 0,
    {
        UserInputManager {
            input_mode: InputMode::False,
            user_input: input_default(),
            find_results: Vec::new(),
            current_find_index: 0,
        }
    }

    pub fn find_results(&self) -> (r: &Vec<usize>)
        ensures
            r@ == self.results(),
    {
        &self.find_results
    }

    pub fn current_find_index(&self) -> (r: usize)
        ensures
            r == self.find_index(),
    {
        self.current_find_index
    }

    /// Edits the line with `code` (see `key_edit`).
    pub fn handle_key(&mut self, code: Key)
        requires
            old(self).wf(),
            has_room(old(self).text()),
        ensures
            final(self).wf(),
            (final(self).text(), final(self).cursor()) == key_edit(
                old(self).text(),
                old(self).cursor(),
                code,
            ),
            final(self).mode() == old(self).mode(),
            final(self).results() == old(self).results(),
            final(self).find_index() == old(self).find_index(),
    {
        let request = match code {
            Key::Char(c) => EditRequest::InsertChar(c),
            Key::Backspace => EditRequest::DeletePrevChar,
            _ => {
                return ;
            },
        };
        input_handle(&mut self.user_input, request);
    }

    /// Searches the row names for `pattern`, case-sensitively. An empty
    /// pattern only clears the hits; when there are hits, the first becomes
    /// current and its row is selected.
    pub fn find_processes(&mut self, scroll: &mut ScrollManager, sysinfo: &SystemInfo, pattern: &str)
        requires
            old(self).wf(),
        ensures
            final(self).wf(),
            final(self).mode() == old(self).mode(),
            final(self).input() == old(self).input(),
            final(self).results() == (if pattern@.len() == 0 {
                Seq::<usize>::empty()
            } else {
                matching_rows(sysinfo.proc_info.names(), pattern@, true)
            }),
            final(self).find_index() == (if final(self).results().len() > 0 {
                0
            } else {
                old(self).find_index()
            }),
            final(scroll).table_state.selected == (if final(self).results().len() > 0 {
                Some(final(self).results()[0])
            } else {
                old(scroll).table_state.selected
            }),
            final(scroll).table_state.offset == old(scroll).table_state.offset,
            final(scroll).scrollbar_state == old(scroll).scrollbar_state,
    {
        if pattern.is_empty() {
            self.find_results.clear();
            return ;
        }
        self.find_results = sysinfo.find_processes_by_name(pattern, true);
        // Reading the length brings in that it fits in a `usize`.
        let _rows = sysinfo.proc_info.procs.len();
        proof {
            let names = sysinfo.proc_info.names();
            assert(names.len() == sysinfo.proc_info.procs@.len());
            crate::system::lemma_matching_rows(names, pattern@, true);
        }
        if !self.find_results.is_empty() {
            self.current_find_index = 0;
            scroll.table_state_select(self.find_results[0]);
        }
    }

    /// Moves to the next hit, going round, and selects its row.
    pub fn next_find_result(&mut self, scroll: &mut ScrollManager)
        requires
            old(self).wf(),
        ensures
            final(self).wf(),
            final(self).mode() == old(self).mode(),
            final(self).input() == old(self).input(),
            final(self).results() == old(self).results(),
            old(self).results().len() == 0 ==> final(self).find_index() == old(self).find_index()
                && *final(scroll) == *old(scroll),
            old(self).results().len() > 0 ==> {
                &&& final(self).find_index() == next_index(
                    old(self).find_index(),
                    old(self).results().len(),
                )
                &&& final(scroll).table_state.selected == Some(
                    old(self).results()[final(self).find_index() as int],
                )
                &&& final(scroll).table_state.offset == old(scroll).table_state.offset
                &&& final(scroll).scrollbar_state == old(scroll).scrollbar_state
            },
    {
        let len = self.find_results.len();
        if len == 0 {
            return ;
        }
        proof {
            lemma_wrap(self.current_find_index + 1, len as int);
        }
        self.current_find_index = (self.current_find_index + 1) % len;
        scroll.table_state_select(self.find_results[self.current_find_index]);
    }

    /// Moves to the previous hit, going round, and selects its row.
    pub fn prev_find_result(&mut self, scroll: &mut ScrollManager)
        requires
            old(self).wf(),
        ensures
            final(self).wf(),
            final(self).mode() == old(self).mode(),
            final(self).input() == old(self).input(),
            final(self).results() == old(self).results(),
            old(self).results().len() == 0 ==> final(self).find_index() == old(self).find_index()
                && *final(scroll) == *old(scroll),
            old(self).results().len() > 0 ==> {
                &&& final(self).find_index() == prev_index(
                    old(self).find_index(),
                    old(self).results().len(),
                )
                &&& final(scroll).table_state.selected == Some(
                    old(self).results()[final(self).find_index() as int],
                )
                &&& final(scroll).table_state.offset == old(scroll).table_state.offset
                &&& final(scroll).scrollbar_state == old(scroll).scrollbar_state
            },
    {
        let len = self.find_results.len();
        if len == 0 {
            return ;
        }
        let i = self.current_find_index;
        self.current_find_index = if i == 0 {
            len - 1
        } else {
            i - 1
        };
        proof {
            lemma_wrap(i + len - 1, len as int);
        }
        assert(self.current_find_index == prev_index(i, len as nat));
        scroll.table_state_select(self.find_results[self.current_find_index]);
    }
}

/// Enter in the search prompt replaces the hits with the rows whose name
/// holds the typed text as a contiguous run of characters, compared
/// case-sensitively, listed once each in increasing order, whatever the
/// hits were before; an empty text leaves no hits. When there are hits the
/// first is current and its row is selected, else the selection stays.
pub proof fn law_search_hits(v: AppView, names: Seq<Seq<char>>, selected_pid: u32)
    requires
        v.mode == InputMode::Find,
        names.len() <= usize::MAX,
    ensures
        ({
            let w = key_step(v, Key::Enter, names, selected_pid).0;
            &&& v.text.len() == 0 ==> w.results.len() == 0
            &&& v.text.len() > 0 ==> forall|i: int|
                0 <= i < names.len() ==> (w.results.contains(i as usize) <==> contains_seq(
                    #[trigger] names[i],
                    v.text,
                ))
            &&& forall|k: int| 0 <= k < w.results.len() ==> #[trigger] w.results[k] < names.len()
            &&& forall|k1: int, k2: int|
                0 <= k1 < k2 < w.results.len() ==> #[trigger] w.results[k1]
                    < #[trigger] w.results[k2]
            &&& w.results.len() > 0 ==> w.selected == Some(w.results[0]) && w.find_index == 0
            &&& w.results.len() == 0 ==> w.selected == v.selected
            &&& w.mode == InputMode::False
            &&& w.text.len() == 0
            &&& w.running == v.running
            &&& key_step(v, Key::Enter, names, selected_pid).1.len() == 0
        }),
{
    crate::system::lemma_matching_rows(names, v.text, true);
}

/// In the search and command prompts every character key, `q` included,
/// is typed: at the end of the line it is appended, the mode and the run
/// flag stay, and nothing is stopped.
pub proof fn law_prompt_types_characters(
    v: AppView,
    c: char,
    names: Seq<Seq<char>>,
    selected_pid: u32,
)
    requires
        v.mode != InputMode::False,
        v.cursor == v.text.len(),
    ensures
        key_step(v, Key::Char(c), names, selected_pid).0.text == v.text.push(c),
        key_step(v, Key::Char(c), names, selected_pid).0.cursor == v.cursor + 1,
        key_step(v, Key::Char(c), names, selected_pid).0.running == v.running,
        key_step(v, Key::Char(c), names, selected_pid).0.mode == v.mode,
        key_step(v, Key::Char(c), names, selected_pid).0.log == v.log,
        key_step(v, Key::Char(c), names, selected_pid).0.selected == v.selected,
        key_step(v, Key::Char(c), names, selected_pid).1.len() == 0,
{
    let t = v.text;
    assert(t.take(t.len() as int) + seq![c] + t.skip(t.len() as int) =~= t.push(c));
}

/// In normal mode, `n` and `N` move to another of the current hits and
/// select its row; with no hits they change nothing.
pub proof fn law_walk_selects_a_hit(v: AppView, key: Key, names: Seq<Seq<char>>, selected_pid: u32)
    requires
        v.mode == InputMode::False,
        key == Key::Char('n') || key == Key::Char('N'),
        v.results.len() > 0 ==> v.find_index < v.results.len(),
        v.results.len() <= usize::MAX,
    ensures
        ({
            let w = key_step(v, key, names, selected_pid).0;
            &&& w.results == v.results
            &&& v.results.len() == 0 ==> w == v
            &&& v.results.len() > 0 ==> w.find_index < v.results.len() && w.selected == Some(
                v.results[w.find_index as int],
            ) && v.results.contains(w.selected.unwrap())
        }),
{
    if v.results.len() > 0 {
        law_find_index_in_range(v.find_index, v.results.len());
    }
}

/// A refresh keeps the selection on the table whenever the table has rows:
/// a selection past the end moves to the last row, and one already on the
/// table stays where it is.
pub proof fn law_refresh_keeps_selection_on_table(selected: Option<usize>, total: nat)
    requires
        total <= usize::MAX,
    ensures
        total > 0 ==> within(clamped(selected, total), total),
        within(selected, total) ==> clamped(selected, total) == selected,
        total > 0 && selected is Some && !within(selected, total) ==> clamped(selected, total)
            == Some((total - 1) as usize),
        selected is None ==> clamped(selected, total) is None,
{
}

/// Once the monitor has stopped running, no key starts it again.
pub proof fn law_stop_is_final(v: AppView, key: Key, names: Seq<Seq<char>>, selected_pid: u32)
    ensures
        key_step(v, key, names, selected_pid).0.running ==> v.running,
{
}

/// Esc always leaves the prompt: back in normal mode with an empty line,
/// and nothing is stopped.
pub proof fn law_escape_closes_prompt(v: AppView, names: Seq<Seq<char>>, selected_pid: u32)
    requires
        v.mode != InputMode::False,
    ensures
        key_step(v, Key::Esc, names, selected_pid).0.mode == InputMode::False,
        key_step(v, Key::Esc, names, selected_pid).0.text == Seq::<char>::empty(),
        key_step(v, Key::Esc, names, selected_pid).1 == Seq::<u32>::empty(),
{
}

/// Enter on a command line logs the line itself before anything the
/// command logs.
pub proof fn law_command_line_is_logged(v: AppView, names: Seq<Seq<char>>, selected_pid: u32)
    requires
        v.mode == InputMode::Command,
    ensures
        key_step(v, Key::Enter, names, selected_pid).0.log.len() > v.log.len(),
        key_step(v, Key::Enter, names, selected_pid).0.log[v.log.len() as int] == v.text,
        key_step(v, Key::Enter, names, selected_pid).0.log.take(v.log.len() as int) == v.log,
{
    let out = command_outcome(split_ws(v.text), names);
    let log = v.log.push(v.text) + out.messages;
    assert(log[v.log.len() as int] == v.text);
    assert(log.take(v.log.len() as int) =~= v.log);
}

/// Only normal mode stops processes, on `d` the chosen one, and on a
/// command line.
pub proof fn law_stops_only_on_d_or_command(
    v: AppView,
    key: Key,
    names: Seq<Seq<char>>,
    selected_pid: u32,
)
    requires
        key_step(v, key, names, selected_pid).1.len() > 0,
    ensures
        (v.mode == InputMode::False && key == Key::Char('d') && key_step(
            v,
            key,
            names,
            selected_pid,
        ).1 == seq![selected_pid]) || (v.mode == InputMode::Command && key == Key::Enter),
{
}

/// Remainder by `len` of a number below `2 * len`.
proof fn lemma_wrap(a: int, len: int)
    requires
        0 <= a < 2 * len,
    ensures
        a % len == (if a < len {
            a
        } else {
            a - len
        }),
{
    if a < len {
        vstd::arithmetic::div_mod::lemma_small_mod(a as nat, len as nat);
    } else {
        vstd::arithmetic::div_mod::lemma_small_mod((a - len) as nat, len as nat);
        vstd::arithmetic::div_mod::lemma_mod_sub_multiples_vanish(a, len);
    }
}

/// Going to the next hit and back to the previous one returns to the same
/// hit.
pub proof fn law_next_then_prev(index: usize, len: nat)
    requires
        index < len <= usize::MAX,
    ensures
        prev_index(next_index(index, len), len) == index,
        next_index(prev_index(index, len), len) == index,
{
    lemma_wrap(index + 1, len as int);
    lemma_wrap(index + len - 1, len as int);
    let n = next_index(index, len);
    let p = prev_index(index, len);
    lemma_wrap(n + len - 1, len as int);
    lemma_wrap(p + 1, len as int);
}

/// The hit reached by moving is always one of the hits.
pub proof fn law_find_index_in_range(index: usize, len: nat)
    requires
        index < len <= usize::MAX,
    ensures
        next_index(index, len) < len,
        prev_index(index, len) < len,
{
    lemma_wrap(index + 1, len as int);
    lemma_wrap(index + len - 1, len as int);
}


/// Everything the monitor's state holds, as plain values.
pub struct AppView {
    pub running: bool,
    pub log: Seq<Seq<char>>,
    pub selected: Option<usize>,
    pub offset: usize,
    pub content_length: usize,
    pub position: usize,
    pub mode: InputMode,
    pub text: Seq<char>,
    pub cursor: nat,
    pub results: Seq<usize>,
    pub find_index: usize,
    pub last_update: u64,
    pub update_interval: u64,
    pub time_cyclic: u64,
}

/// The monitor: its log and run flag, the table selection, the prompt, and
/// the refresh clock. Times are milliseconds on a clock that starts when
/// the monitor does.
pub struct App {
    pub core: AppCore,
    pub last_update: u64,
    pub update_interval: u64,
    pub scroll_manager: ScrollManager,
    pub usr_input_manager: UserInputManager,
    pub time_cyclic: u64,
}

/// The line emptied, back in normal mode.
pub open spec fn prompt_closed(v: AppView) -> AppView {
    AppView { mode: InputMode::False, text: Seq::empty(), cursor: 0, ..v }
}

/// What a key does in normal mode, in a table of `total` rows with process
/// `selected_pid` under the cursor; the second part lists the processes to
/// stop.
pub open spec fn normal_key_step(v: AppView, key: Key, total: nat, selected_pid: u32) -> (
    AppView,
    Seq<u32>,
) {
    if key == Key::Char('q') {
        (AppView { running: false, ..v }, Seq::empty())
    } else if key == Key::Char('k') || key == Key::Up {
        (AppView { selected: moved_up(v.selected, total), ..v }, Seq::empty())
    } else if key == Key::Char('j') || key == Key::Down {
        (AppView { selected: moved_down(v.selected, total), ..v }, Seq::empty())
    } else if key == Key::Char('d') {
        (v, seq![selected_pid])
    } else if key == Key::Char('/') {
        (AppView { mode: InputMode::Find, ..v }, Seq::empty())
    } else if key == Key::Char(':') {
        (AppView { mode: InputMode::Command, ..v }, Seq::empty())
    } else if key == Key::Char('n') && v.results.len() > 0 {
        let i = next_index(v.find_index, v.results.len());
        (AppView { find_index: i, selected: Some(v.results[i as int]), ..v }, Seq::empty())
    } else if key == Key::Char('N') && v.results.len() > 0 {
        let i = prev_index(v.find_index, v.results.len());
        (AppView { find_index: i, selected: Some(v.results[i as int]), ..v }, Seq::empty())
    } else {
        (v, Seq::empty())
    }
}

/// A case-sensitive search of the row names for `pattern`.
pub open spec fn search(v: AppView, pattern: Seq<char>, names: Seq<Seq<char>>) -> AppView {
    let results = if pattern.len() == 0 {
        Seq::<usize>::empty()
    } else {
        matching_rows(names, pattern, true)
    };
    if results.len() > 0 {
        AppView { results, find_index: 0, selected: Some(results[0]), ..v }
    } else {
        AppView { results, ..v }
    }
}

/// What a key does while a search pattern is typed.
pub open spec fn find_key_step(v: AppView, key: Key, names: Seq<Seq<char>>) -> AppView {
    if key == Key::Esc {
        AppView { results: Seq::empty(), ..prompt_closed(v) }
    } else if key == Key::Enter {
        prompt_closed(search(v, v.text, names))
    } else {
        let (text, cursor) = key_edit(v.text, v.cursor, key);
        AppView { text, cursor, ..v }
    }
}

/// What a key does while a command is typed; Enter logs the line and
/// carries it out (see `command_outcome`).
pub open spec fn command_key_step(v: AppView, key: Key, names: Seq<Seq<char>>) -> (
    AppView,
    Seq<u32>,
) {
    if key == Key::Esc {
        (prompt_closed(v), Seq::empty())
    } else if key == Key::Enter {
        let out = command_outcome(split_ws(v.text), names);
        (
            prompt_closed(
                AppView {
                    running: v.running && !out.exits,
                    log: v.log.push(v.text) + out.messages,
                    ..v
                },
            ),
            out.stops,
        )
    } else {
        let (text, cursor) = key_edit(v.text, v.cursor, key);
        (AppView { text, cursor, ..v }, Seq::empty())
    }
}

/// What a key does, by mode.
pub open spec fn key_step(v: AppView, key: Key, names: Seq<Seq<char>>, selected_pid: u32) -> (
    AppView,
    Seq<u32>,
) {
    match v.mode {
        InputMode::False => normal_key_step(v, key, names.len(), selected_pid),
        InputMode::Find => (find_key_step(v, key, names), Seq::empty()),
        InputMode::Command => command_key_step(v, key, names),
    }
}

/// The selection after a refresh to `total` rows: a row past the end moves
/// to the last row.
pub open spec fn clamped(selected: Option<usize>, total: nat) -> Option<usize> {
    match selected {
        Some(s) => if s >= total && total > 0 {
            Some((total - 1) as usize)
        } else {
            selected
        },
        None => None,
    }
}

/// The character drawn after the prompt text: a bar that blinks, four
/// frames on and four off.
pub open spec fn blink_char(time_cyclic: u64) -> char {
    if (time_cyclic / 4) % 2 == 0 {
        '|'
    } else {
        ' '
    }
}

/// The status line for the mode, the prompt text, the frame count and the
/// chosen process.
pub open spec fn status_line(mode: InputMode, text: Seq<char>, time_cyclic: u64, pid: u32) -> Seq<
    char,
> {
    match mode {
        InputMode::Find => "input > "@ + text + seq![blink_char(time_cyclic)],
        InputMode::Command => "command : "@ + text + seq![blink_char(time_cyclic)],
        InputMode::False => "Press 'q' to quit | ↑/↓,j/k to navigate | 'd' delete proc | choose -> "@
            + decimal(pid as nat),
    }
}

impl App {
    pub open spec fn view(&self) -> AppView {
        AppView {
            running: self.core.running(),
            log: self.core.log(),
            selected: self.scroll_manager.table_state.selected,
            offset: self.scroll_manager.table_state.offset,
            content_length: self.scroll_manager.scrollbar_state.content_length,
            position: self.scroll_manager.scrollbar_state.position,
            mode: self.usr_input_manager.mode(),
            text: self.usr_input_manager.text(),
            cursor: self.usr_input_manager.cursor(),
            results: self.usr_input_manager.results(),
            find_index: self.usr_input_manager.find_index(),
            last_update: self.last_update,
            update_interval: self.update_interval,
            time_cyclic: self.time_cyclic,
        }
    }

    /// The prompt is edited at its end, the selection is a row index, and
    /// the frame count stays below 2^32.
    pub open spec fn wf(&self) -> bool {
        &&& self.usr_input_manager.wf()
        &&& self.scroll_manager.table_state.selected != Some(usize::MAX)
        &&& self.time_cyclic <= 0xffff_ffff
    }

    /// Running, nothing logged or selected, normal mode, refreshed at time
    /// 0 and every 500 ms.
    pub fn new() -> (r: Self)
        ensures
            r.wf(),
            r.view() == (AppView {
                running: true,
                log: Seq::empty(),
                selected: None,
                offset: 0,
                content_length: 0,
                position: 0,
                mode: InputMode::False,
                text: Seq::empty(),
                cursor: 0,
                results: Seq::empty(),
                find_index: 0,
                last_update: 0,
                update_interval: 500,
                time_cyclic: 0,
            }),
    {
        App {
            core: AppCore::new(),
            last_update: 0,
            update_interval: 500,
            scroll_manager: ScrollManager::new(0),
            usr_input_manager: UserInputManager::new(),
            time_cyclic: 0,
        }
    }

    /// Whether, at time `now`, the table is due for a refresh.
    pub fn update_due(&self, now: u64) -> (r: bool)
        ensures
            r == (sat_sub(now, self.last_update) >= self.update_interval),
    {
        now.saturating_sub(self.last_update) >= self.update_interval
    }

    /// Records a refresh at time `now` that left `sysinfo` with its rows:
    /// the scrollbar spans them, a selection past the end moves to the last
    /// row, and the frame count steps on, modulo 2^32.
    pub fn finish_update(&mut self, now: u64, sysinfo: &SystemInfo)
        requires
            old(self).wf(),
        ensures
            final(self).wf(),
            final(self).view() == (AppView {
                content_length: sysinfo.proc_info.procs@.len() as usize,
                selected: clamped(old(self).view().selected, sysinfo.proc_info.procs@.len()),
                time_cyclic: ((old(self).time_cyclic + 1) % 0x1_0000_0000) as u64,
                last_update: now,
                ..old(self).view()
            }),
    {
        let total_rows = sysinfo.proc_info.procs.len();
        let bar = self.scroll_manager.scrollbar_state.content_length(total_rows);
        self.scroll_manager.scrollbar_state = bar;
        let selected = self.scroll_manager.table_state.selected();
        if let Some(selected) = selected {
            if selected >= total_rows && total_rows > 0 {
                self.scroll_manager.table_state.select(Some(total_rows - 1));
            }
        }
        let t = self.time_cyclic + 1;
        assert(t & 0xffff_ffff == t % 0x1_0000_0000) by (bit_vector);
        assert(t & 0xffff_ffff <= 0xffff_ffff) by (bit_vector);
        self.time_cyclic = t & 0xffff_ffff;
        self.last_update = now;
    }

    /// The character drawn after the prompt text (see `blink_char`).
    pub fn cursor_char(&self) -> (r: char)
        ensures
            r == blink_char(self.time_cyclic),
    {
        let t = self.time_cyclic;
        assert(((t >> 2) & 1 == 0) == ((t / 4) % 2 == 0)) by (bit_vector);
        if (self.time_cyclic >> 2) & 1 == 0 {
            '|'
        } else {
            ' '
        }
    }

    /// The status line under the table (see `status_line`).
    pub fn status_text(&self, selected_pid: u32) -> (r: String)
        ensures
            r@ == status_line(
                self.usr_input_manager.mode(),
                self.usr_input_manager.text(),
                self.time_cyclic,
                selected_pid,
            ),
    {
        match self.usr_input_manager.input_mode {
            InputMode::Find => {
                let head = join2("input > ", input_value_of(&self.usr_input_manager));
                let mark = [self.cursor_char()];
                let tail = crate::text::string_from_chars(&mark);
                let r = join2(head.as_str(), tail.as_str());
                assert(mark@ =~= seq![blink_char(self.time_cyclic)]);
                r
            },
            InputMode::Command => {
                let head = join2("command : ", input_value_of(&self.usr_input_manager));
                let mark = [self.cursor_char()];
                let tail = crate::text::string_from_chars(&mark);
                let r = join2(head.as_str(), tail.as_str());
                assert(mark@ =~= seq![blink_char(self.time_cyclic)]);
                r
            },
            InputMode::False => {
                let pid = format_u64(selected_pid as u64);
                join2(
                    "Press 'q' to quit | ↑/↓,j/k to navigate | 'd' delete proc | choose -> ",
                    pid.as_str(),
                )
            },
        }
    }

    /// After the table was drawn with the selection `rendered` (the table
    /// widget may have moved it onto the table, and scrolled): with nothing
    /// selected in a table with rows, the first row is selected; the
    /// scrollbar spans the rows at the selected one; the selected row's
    /// process becomes the chosen one.
    pub fn sync_table(&mut self, rendered: TableSelection, sysinfo: &mut SystemInfo)
        requires
            old(self).wf(),
            rendered.selected matches Some(s) ==> s < old(sysinfo).proc_info.procs@.len(),
        ensures
            final(self).wf(),
            ({
                let total = old(sysinfo).proc_info.procs@.len();
                let sel = if rendered.selected is None && total > 0 {
                    Some(0usize)
                } else {
                    rendered.selected
                };
                &&& final(self).view() == (AppView {
                    selected: sel,
                    offset: rendered.offset,
                    content_length: if sel is Some {
                        total as usize
                    } else {
                        old(self).view().content_length
                    },
                    position: match sel {
                        Some(s) => s,
                        None => old(self).view().position,
                    },
                    ..old(self).view()
                })
                &&& final(sysinfo).selected_pid == match sel {
                    Some(s) => old(sysinfo).proc_info.procs@[s as int].pid,
                    None => old(sysinfo).selected_pid,
                }
            }),
            final(sysinfo).proc_info == old(sysinfo).proc_info,
            final(sysinfo).network_info == old(sysinfo).network_info,
    {
        let total_rows = sysinfo.proc_info.procs.len();
        self.scroll_manager.table_state = rendered;
        if let Some(selected) = self.scroll_manager.table_state.selected() {
            let bar = self.scroll_manager.scrollbar_state.content_length(total_rows);
            self.scroll_manager.scrollbar_state = bar.position(selected);
        } else if total_rows > 0 {
            self.scroll_manager.table_state.select(Some(0));
            let bar = self.scroll_manager.scrollbar_state.content_length(total_rows);
            self.scroll_manager.scrollbar_state = bar.position(0);
        }
        if let Some(selected_index) = self.scroll_manager.table_state.selected() {
            sysinfo.selected_pid = sysinfo.proc_info.procs[selected_index].pid;
        }
    }

    /// Handles one key (see `key_step`) and returns the ids of the
    /// processes to stop, in order.
    pub fn solve_keycode(&mut self, key: Key, sysinfo: &SystemInfo) -> (r: Vec<u32>)
        requires
            old(self).wf(),
            has_room(old(self).usr_input_manager.text()),
        ensures
            final(self).wf(),
            (final(self).view(), r@) == key_step(
                old(self).view(),
                key,
                sysinfo.proc_info.names(),
                sysinfo.selected_pid,
            ),
    {
        match self.usr_input_manager.input_mode {
            InputMode::False => self.solve_keycode_false_mode(key, sysinfo),
            InputMode::Find => {
                self.solve_keycode_find_mode(key, sysinfo);
                Vec::new()
            },
            InputMode::Command => self.solve_keycode_command_mode(key, sysinfo),
        }
    }

    fn solve_keycode_false_mode(&mut self, key: Key, sysinfo: &SystemInfo) -> (r: Vec<u32>)
        requires
            old(self).wf(),
        ensures
            final(self).wf(),
            (final(self).view(), r@) == normal_key_step(
                old(self).view(),
                key,
                sysinfo.proc_info.names().len(),
                sysinfo.selected_pid,
            ),
    {
        let mut stops: Vec<u32> = Vec::new();
        // Reading the length brings in that it fits in a `usize`.
        let _rows = sysinfo.proc_info.procs.len();
        match key {
            Key::Char('q') => self.core.exit(),
            Key::Char('k') | Key::Up => self.scroll_manager.scroll_up(sysinfo),
            Key::Char('j') | Key::Down => self.scroll_manager.scroll_down(sysinfo),
            Key::Char('d') => {
                let pid = sysinfo.selected_pid;
                stops.push(pid);
            },
            Key::Char('/') => {
                self.usr_input_manager.input_mode = InputMode::Find;
            },
            Key::Char(':') => {
                self.usr_input_manager.input_mode = InputMode::Command;
            },
            Key::Char('n') => {
                self.usr_input_manager.next_find_result(&mut self.scroll_manager);
            },
            Key::Char('N') => {
                self.usr_input_manager.prev_find_result(&mut self.scroll_manager);
            },
            _ => {},
        }
        stops
    }

    fn solve_keycode_find_mode(&mut self, key: Key, sysinfo: &SystemInfo)
        requires
            old(self).wf(),
            old(self).usr_input_manager.mode() == InputMode::Find,
            has_room(old(self).usr_input_manager.text()),
        ensures
            final(self).wf(),
            final(self).view() == find_key_step(old(self).view(), key, sysinfo.proc_info.names()),
    {
        match key {
            Key::Esc => {
                self.usr_input_manager.input_mode = InputMode::False;
                self.usr_input_manager.user_input = input_default();
                self.usr_input_manager.find_results.clear();
            },
            Key::Enter => {
                let search_pattern = String::from_str(
                    input_value_of(&self.usr_input_manager),
                );
                self.usr_input_manager.find_processes(
                    &mut self.scroll_manager,
                    sysinfo,
                    search_pattern.as_str(),
                );
                self.usr_input_manager.user_input = input_default();
                self.usr_input_manager.input_mode = InputMode::False;
            },
            _ => self.usr_input_manager.handle_key(key),
        }
    }

    fn solve_keycode_command_mode(&mut self, key: Key, sysinfo: &SystemInfo) -> (r: Vec<u32>)
        requires
            old(self).wf(),
            old(self).usr_input_manager.mode() == InputMode::Command,
            has_room(old(self).usr_input_manager.text()),
        ensures
            final(self).wf(),
            (final(self).view(), r@) == command_key_step(
                old(self).view(),
                key,
                sysinfo.proc_info.names(),
            ),
    {
        match key {
            Key::Esc => {
                self.usr_input_manager.input_mode = InputMode::False;
                self.usr_input_manager.user_input = input_default();
                Vec::new()
            },
            Key::Enter => {
                let line = String::from_str(input_value_of(&self.usr_input_manager));
                self.core.push_message(line);
                let last = self.core.get_last_message();
                let mut paser = CommandParser::new(&last);
                let stops = paser.explain(self, sysinfo);
                self.usr_input_manager.user_input = input_default();
                self.usr_input_manager.input_mode = InputMode::False;
                stops
            },
            _ => {
                self.usr_input_manager.handle_key(key);
                Vec::new()
            },
        }
    }
}

/// The text on the prompt line.
fn input_value_of(m: &UserInputManager) -> (r: &str)
    ensures
        r@ == m.text(),
{
    crate::editor::input_value(&m.user_input)
}

} // verus!
