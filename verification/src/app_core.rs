use vstd::prelude::*;

verus! {

/// The editing mode of the prompt line.
#[derive(PartialEq, Eq, Structural, Clone, Copy, Debug)]
pub enum InputMode {
    False,
    Find,
    Command,
}

/// Whether the application still runs, and the messages it has logged.
pub struct AppCore {
    is_running: bool,
    messages: Vec<String>,
}

/// The text that `get_last_message` answers when nothing was logged.
pub open spec fn no_message() -> Seq<char> {
    seq!['n', 'o', 'p']
}

/// The last logged message, or `"nop"` when the log is empty.
pub open spec fn last_message_of(messages: Seq<Seq<char>>) -> Seq<char> {
    if messages.len() > 0 {
        messages.last()
    } else {
        no_message()
    }
}

impl AppCore {
    pub closed spec fn running(&self) -> bool {
        self.is_running
    }

    /// The logged messages, oldest first, each by its characters.
    pub closed spec fn log(&self) -> Seq<Seq<char>> {
        self.messages@.map_values(|m: String| m@)
    }

    pub fn new() -> (r: Self)
        ensures
            r.running(),
            r.log() == Seq::<Seq<char>>::empty(),
    {
        let r = AppCore { is_running: true, messages: Vec::new() };
        assert(r.log() =~= Seq::<Seq<char>>::empty());
        r
    }

    pub fn is_running(&self) -> (r: bool)
        ensures
            r == self.running(),
    {
        self.is_running
    }

    pub fn exit(&mut self)
        ensures
            !final(self).running(),
            final(self).log() == old(self).log(),
            (final(self).running(), final(self).log()) == core_step(
                old(self).running(),
                old(self).log(),
                CoreCall::Exit,
            ),
    {
        self.is_running = false;
    }

    pub fn push_message(&mut self, message: String)
        ensures
            final(self).running() == old(self).running(),
            final(self).log() == old(self).log().push(message@),
            (final(self).running(), final(self).log()) == core_step(
                old(self).running(),
                old(self).log(),
                CoreCall::PushMessage(message@),
            ),
    {
        self.messages.push(message);
        assert(self.log() =~= old(self).log().push(message@));
    }

    pub fn get_last_message(&self) -> (r: String)
        ensures
            r@ == last_message_of(self.log()),
    {
        let n = self.messages.len();
        if n > 0 {
            self.messages[n - 1].clone()
        } else {
            let r = String::from_str("nop");
            proof {
                reveal_strlit("nop");
            }
            r
        }
    }
}

/// What is read back is what was logged last: after `push_message(m)`,
/// `get_last_message` returns `m`.
pub proof fn law_last_message_is_last_pushed(log: Seq<Seq<char>>, m: Seq<char>)
    ensures
        last_message_of(log.push(m)) == m,
{
}

/// A call on an `AppCore`, as far as its state is concerned.
pub enum CoreCall {
    PushMessage(Seq<char>),
    GetLastMessage,
    Exit,
    IsRunning,
}

/// The run flag and log after one call: what `push_message` and `exit`
/// ensure, and what `get_last_message` and `is_running`, which only read,
/// leave.
pub open spec fn core_step(running: bool, log: Seq<Seq<char>>, call: CoreCall) -> (bool, Seq<
    Seq<char>,
>) {
    match call {
        CoreCall::PushMessage(m) => (running, log.push(m)),
        CoreCall::GetLastMessage => (running, log),
        CoreCall::Exit => (false, log),
        CoreCall::IsRunning => (running, log),
    }
}

/// The run flag and log after a sequence of calls, in order.
pub open spec fn core_after(running: bool, log: Seq<Seq<char>>, calls: Seq<CoreCall>) -> (bool, Seq<
    Seq<char>,
>)
    decreases calls.len(),
{
    if calls.len() == 0 {
        (running, log)
    } else {
        let (r, l) = core_after(running, log, calls.drop_last());
        core_step(r, l, calls.last())
    }
}

/// Exit is final: once an `AppCore` has stopped running, no sequence of
/// calls makes it run again, and `is_running` keeps answering `false`.
pub proof fn law_exit_is_final(log: Seq<Seq<char>>, calls: Seq<CoreCall>)
    ensures
        !core_after(false, log, calls).0,
    decreases calls.len(),
{
    if calls.len() > 0 {
        law_exit_is_final(log, calls.drop_last());
    }
}

} // verus!
