use vstd::prelude::*;
use std::collections::VecDeque;
use crate::app::App;
use crate::number::{format_i32, parse_i32, parse_i32_spec, signed_decimal};
use crate::system::{SystemInfo, lemma_matching_rows, matching_rows};
use crate::text::{
    chars_eq,
    chars_of,
    contains_seq,
    lowercase,
    is_word,
    join2,
    lemma_split_ws_words,
    split_whitespace,
    split_ws,
    string_from_chars,
};

verus! {

/// What a command line does: whether it ends the program, the messages it
/// logs, the processes it asks to stop, and the words it leaves unread.
pub struct CommandOutcome {
    pub exits: bool,
    pub messages: Seq<Seq<char>>,
    pub stops: Seq<u32>,
    pub remaining: Seq<Seq<char>>,
}

pub open spec fn kill_by_name_message(name: Seq<char>) -> Seq<char> {
    "Killing processes with name: "@ + name
}

pub open spec fn kill_by_pid_message(pid: i32) -> Seq<char> {
    "Killing process with PID: "@ + signed_decimal(pid as int)
}

pub open spec fn invalid_pid_message(text: Seq<char>) -> Seq<char> {
    "Invalid PID: "@ + text
}

pub open spec fn unknown_command_message(cmd: Seq<char>) -> Seq<char> {
    "Unknown command: "@ + cmd
}

/// Whether `word` starts with `-` and then `flag`.
pub open spec fn has_flag(word: Seq<char>, flag: char) -> bool {
    word.len() >= 2 && word[0] == '-' && word[1] == flag
}

/// What one argument of `kill` does, given the names of the table's rows.
/// `-n<name>` logs a message and asks to stop, for each row whose name
/// holds `<name>` in lowercase, the process whose id is the row's index.
/// `-p<pid>` logs a message and asks to stop `<pid>` as an `i32` read as a
/// `u32`, or logs that it is invalid. Other words do nothing. (A word never
/// holds whitespace, so the text after the flag needs no trimming.)
pub open spec fn kill_arg_effect(word: Seq<char>, names: Seq<Seq<char>>) -> (Seq<Seq<char>>, Seq<u32>) {
    if has_flag(word, 'n') {
        let name = word.skip(2);
        (
            seq![kill_by_name_message(name)],
            matching_rows(names, name, false).map_values(|i: usize| i as u32),
        )
    } else if has_flag(word, 'p') {
        let text = word.skip(2);
        match parse_i32_spec(text) {
            Some(pid) => (seq![kill_by_pid_message(pid)], seq![pid as u32]),
            None => (seq![invalid_pid_message(text)], Seq::empty()),
        }
    } else {
        (Seq::empty(), Seq::empty())
    }
}

/// `kill -n<name>` asks to stop exactly the rows whose lowercase name holds
/// the lowercase `<name>` as a contiguous run of characters, each once, in
/// increasing order, with each row index read as a process id; it logs the
/// name it was given.
pub proof fn law_kill_by_name_stops_matching_rows(word: Seq<char>, names: Seq<Seq<char>>)
    requires
        has_flag(word, 'n'),
        names.len() <= u32::MAX,
    ensures
        ({
            let (msgs, stops) = kill_arg_effect(word, names);
            let name = word.skip(2);
            &&& msgs == seq![kill_by_name_message(name)]
            &&& forall|i: int|
                0 <= i < names.len() ==> (stops.contains(i as u32) <==> contains_seq(
                    lowercase(#[trigger] names[i]),
                    lowercase(name),
                ))
            &&& forall|k: int| 0 <= k < stops.len() ==> #[trigger] stops[k] < names.len()
            &&& forall|k1: int, k2: int|
                0 <= k1 < k2 < stops.len() ==> #[trigger] stops[k1] < #[trigger] stops[k2]
        }),
{
    let name = word.skip(2);
    let rows = matching_rows(names, name, false);
    lemma_matching_rows(names, name, false);
    let stops = rows.map_values(|i: usize| i as u32);
    assert forall|k: int| 0 <= k < stops.len() implies #[trigger] stops[k] == rows[k] by {}
    assert forall|i: int| 0 <= i < names.len() implies (stops.contains(i as u32)
        <==> contains_seq(lowercase(#[trigger] names[i]), lowercase(name))) by {
        if stops.contains(i as u32) {
            let k = choose|k: int| 0 <= k < stops.len() && stops[k] == i as u32;
            assert(stops[k] == rows[k]);
            assert(rows[k] == i as usize);
            assert(rows.contains(i as usize));
        }
        if rows.contains(i as usize) {
            let k = choose|k: int| 0 <= k < rows.len() && rows[k] == i as usize;
            assert(stops[k] == i as u32);
            assert(stops.contains(i as u32));
        }
    }
    assert forall|k1: int, k2: int| 0 <= k1 < k2 < stops.len() implies #[trigger] stops[k1]
        < #[trigger] stops[k2] by {
        assert(rows[k1] < rows[k2]);
    }
}

/// The arguments of `kill`, one after another.
pub open spec fn kill_effects(words: Seq<Seq<char>>, names: Seq<Seq<char>>) -> (Seq<Seq<char>>, Seq<u32>)
    decreases words.len(),
{
    if words.len() == 0 {
        (Seq::empty(), Seq::empty())
    } else {
        let (m, s) = kill_effects(words.drop_last(), names);
        let (m2, s2) = kill_arg_effect(words.last(), names);
        (m + m2, s + s2)
    }
}

/// What the words of a command line do: `exit` ends the program, `kill`
/// reads all the words after it as arguments, anything else is logged as
/// unknown. Only `kill` reads past the first word.
pub open spec fn command_outcome(words: Seq<Seq<char>>, names: Seq<Seq<char>>) -> CommandOutcome {
    if words.len() == 0 {
        CommandOutcome { exits: false, messages: Seq::empty(), stops: Seq::empty(), remaining: words }
    } else if words[0] == "exit"@ {
        CommandOutcome {
            exits: true,
            messages: Seq::empty(),
            stops: Seq::empty(),
            remaining: words.skip(1),
        }
    } else if words[0] == "kill"@ {
        let (m, s) = kill_effects(words.skip(1), names);
        CommandOutcome { exits: false, messages: m, stops: s, remaining: Seq::empty() }
    } else {
        CommandOutcome {
            exits: false,
            messages: seq![unknown_command_message(words[0])],
            stops: Seq::empty(),
            remaining: words.skip(1),
        }
    }
}

/// `word` holds the same characters as `text`.
fn is_text(word: &String, text: &str) -> (r: bool)
    ensures
        r == (word@ == text@),
{
    let a = chars_of(word.as_str());
    let b = chars_of(text);
    chars_eq(&a, &b)
}

/// The characters of `v` from index `k` on.
fn skip_chars(v: &Vec<char>, k: usize) -> (r: Vec<char>)
    requires
        k <= v@.len(),
    ensures
        r@ == v@.skip(k as int),
{
    let mut r: Vec<char> = Vec::new();
    let n = v.len();
    for i in k..n
        invariant
            n == v@.len(),
            k <= i <= n,
            r@ == v@.subrange(k as int, i as int),
    {
        r.push(v[i]);
        assert(r@ =~= v@.subrange(k as int, i + 1));
    }
    assert(r@ =~= v@.skip(k as int));
    r
}

/// One word of a command line.
pub struct CommandItem {
    command_item: String,
}

impl CommandItem {
    pub closed spec fn word(&self) -> Seq<char> {
        self.command_item@
    }
}

/// A command line cut into its words, consumed from the front.
pub struct CommandParser {
    queue: VecDeque<CommandItem>,
}

impl CommandParser {
    /// The words not consumed yet, in order.
    pub closed spec fn tokens(&self) -> Seq<Seq<char>> {
        self.queue@.map_values(|c: CommandItem| c.word())
    }

    /// The whitespace-separated words of `command`.
    pub fn new(command: &String) -> (r: Self)
        ensures
            r.tokens() == split_ws(command@),
    {
        let words = split_whitespace(command.as_str());
        proof {
            lemma_split_ws_words(command@);
        }
        let mut q: VecDeque<CommandItem> = VecDeque::new();
        let n = words.len();
        let ghost all = words@.map_values(|w: String| w@);
        for k in 0..n
            invariant
                n == words@.len(),
                all == words@.map_values(|w: String| w@),
                all == split_ws(command@),
                forall|j: int| 0 <= j < all.len() ==> is_word(#[trigger] all[j]),
                q@.map_values(|c: CommandItem| c.word()) == all.take(k as int),
                q@.len() == k,
                forall|j: int| 0 <= j < q@.len() ==> is_word(#[trigger] q@[j].word()),
        {
            let w = words[k].clone();
            assert(w@ == all[k as int]);
            let ghost before = q@;
            q.push_back(CommandItem { command_item: w });
            assert(q@ == before.push(CommandItem { command_item: w }));
            assert forall|j: int| 0 <= j < q@.len() implies #[trigger] q@[j].word() == all.take(
                k + 1,
            )[j] by {
                if j < k {
                    assert(q@[j] == before[j]);
                    assert(before.map_values(|c: CommandItem| c.word())[j] == all.take(k as int)[j]);
                }
            }
            assert(q@.map_values(|c: CommandItem| c.word()) =~= all.take(k + 1));
            assert(forall|j: int| 0 <= j < q@.len() ==> is_word(#[trigger] q@[j].word())) by {
                assert forall|j: int| 0 <= j < q@.len() implies is_word(#[trigger] q@[j].word()) by {
                    assert(q@.map_values(|c: CommandItem| c.word())[j] == all.take(k + 1)[j]);
                }
            }
        }
        assert(all.take(n as int) =~= all);
        CommandParser { queue: q }
    }
}


/// Carries out one argument of `kill` (see `kill_arg_effect`): logs on
/// `app`, and adds the processes to stop to `stops`.
fn kill_arg(word: &String, app: &mut App, sysinfo: &SystemInfo, stops: &mut Vec<u32>)
    ensures
        final(app).core.log() == old(app).core.log() + kill_arg_effect(
            word@,
            sysinfo.proc_info.names(),
        ).0,
        final(app).core.running() == old(app).core.running(),
        final(app).scroll_manager == old(app).scroll_manager,
        final(app).usr_input_manager == old(app).usr_input_manager,
        final(app).last_update == old(app).last_update,
        final(app).update_interval == old(app).update_interval,
        final(app).time_cyclic == old(app).time_cyclic,
        final(stops)@ == old(stops)@ + kill_arg_effect(word@, sysinfo.proc_info.names()).1,
{
    let c = chars_of(word.as_str());
    let ghost names = sysinfo.proc_info.names();
    if c.len() >= 2 && c[0] == '-' && c[1] == 'n' {
        let name_chars = skip_chars(&c, 2);
        let name = string_from_chars(&name_chars);
        app.core.push_message(join2("Killing processes with name: ", name.as_str()));
        let rows = sysinfo.find_processes_by_name(name.as_str(), false);
        let ghost before = stops@;
        let n = rows.len();
        for i in 0..n
            invariant
                n == rows@.len(),
                stops@ == before + rows@.take(i as int).map_values(|j: usize| j as u32),
        {
            stops.push(rows[i] as u32);
            assert(rows@.take(i + 1).map_values(|j: usize| j as u32) =~= rows@.take(
                i as int,
            ).map_values(|j: usize| j as u32).push(rows@[i as int] as u32));
        }
        assert(rows@.take(n as int) =~= rows@);
    } else if c.len() >= 2 && c[0] == '-' && c[1] == 'p' {
        let text = skip_chars(&c, 2);
        match parse_i32(&text) {
            Some(pid) => {
                let shown = format_i32(pid);
                app.core.push_message(join2("Killing process with PID: ", shown.as_str()));
                stops.push(pid as u32);
            },
            None => {
                let shown = string_from_chars(&text);
                app.core.push_message(join2("Invalid PID: ", shown.as_str()));
            },
        }
    } else {
        assert(old(app).core.log() + Seq::<Seq<char>>::empty() =~= old(app).core.log());
        assert(old(stops)@ + Seq::<u32>::empty() =~= old(stops)@);
    }
}

impl CommandParser {
    /// Carries out the command (see `command_outcome`): logs on `app`, ends
    /// it on `exit`, and returns the ids of the processes to stop, in
    /// order. Nothing else of `app` changes.
    pub fn explain(&mut self, app: &mut App, sysinfo: &SystemInfo) -> (r: Vec<u32>)
        ensures
            ({
                let out = command_outcome(old(self).tokens(), sysinfo.proc_info.names());
                &&& final(self).tokens() == out.remaining
                &&& final(app).core.running() == (old(app).core.running() && !out.exits)
                &&& final(app).core.log() == old(app).core.log() + out.messages
                &&& r@ == out.stops
            }),
            final(app).scroll_manager == old(app).scroll_manager,
            final(app).usr_input_manager == old(app).usr_input_manager,
            final(app).last_update == old(app).last_update,
            final(app).update_interval == old(app).update_interval,
            final(app).time_cyclic == old(app).time_cyclic,
    {
        let ghost names = sysinfo.proc_info.names();
        let ghost words = self.tokens();
        let mut stops: Vec<u32> = Vec::new();
        if self.queue.len() == 0 {
            assert(old(app).core.log() + Seq::<Seq<char>>::empty() =~= old(app).core.log());
            return stops;
        }
        let ghost before = self.queue@;
        let first = self.queue.pop_front();
        assert(self.queue@ == before.drop_first());
        let cmd = match first {
            Some(item) => item.command_item,
            None => String::new(),
        };
        assert(cmd@ == words[0]);
        assert forall|j: int| 0 <= j < self.tokens().len() implies #[trigger] self.tokens()[j]
            == words.skip(1)[j] by {
            assert(self.queue@[j] == before[j + 1]);
        }
        assert(self.tokens() =~= words.skip(1));
        if is_text(&cmd, "exit") {
            app.core.exit();
            assert(old(app).core.log() + Seq::<Seq<char>>::empty() =~= old(app).core.log());
        } else if is_text(&cmd, "kill") {
            let ghost rest = words.skip(1);
            let ghost log0 = app.core.log();
            let ghost mut done: int = 0;
            assert(rest.take(0) =~= Seq::<Seq<char>>::empty());
            assert(log0 + Seq::<Seq<char>>::empty() =~= log0);
            while self.queue.len() > 0
                invariant
                    0 <= done <= rest.len(),
                    self.tokens() == rest.skip(done),
                    app.core.log() == log0 + kill_effects(rest.take(done), names).0,
                    stops@ == kill_effects(rest.take(done), names).1,
                    app.core.running() == old(app).core.running(),
                    log0 == old(app).core.log(),
                    app.scroll_manager == old(app).scroll_manager,
                    app.usr_input_manager == old(app).usr_input_manager,
                    app.last_update == old(app).last_update,
                    app.update_interval == old(app).update_interval,
                    app.time_cyclic == old(app).time_cyclic,
                    names == sysinfo.proc_info.names(),
                decreases self.queue@.len(),
            {
                let ghost before = self.queue@;
                assert(self.tokens().len() == before.len());
                let next = self.queue.pop_front();
                assert(self.queue@ == before.drop_first());
                let word = match next {
                    Some(item) => item.command_item,
                    None => String::new(),
                };
                assert(word@ == rest[done]) by {
                    assert(before.map_values(|c: CommandItem| c.word())[0] == rest.skip(done)[0]);
                }
                assert forall|j: int| 0 <= j < self.tokens().len() implies #[trigger] self.tokens()[j]
                    == rest.skip(done + 1)[j] by {
                    assert(self.queue@[j] == before[j + 1]);
                    assert(before.map_values(|c: CommandItem| c.word())[j + 1] == rest.skip(done)[j
                        + 1]);
                }
                assert(self.tokens() =~= rest.skip(done + 1));
                kill_arg(&word, app, sysinfo, &mut stops);
                proof {
                    assert(rest.take(done + 1).drop_last() =~= rest.take(done));
                    done = done + 1;
                }
            }
            assert(rest.take(done) =~= rest);
        } else {
            app.core.push_message(join2("Unknown command: ", cmd.as_str()));
        }
        stops
    }
}

} // verus!
