//! The decisions of the debugger's command loop, apart from the I/O around
//! them: a [`Session`] takes each command, or each report of what the traced
//! process did, and says what is to be done next.
use vstd::prelude::*;
use crate::command::DebuggerCommand;
use crate::inferior::{LineInfo, Status, unknown_text};
use crate::number::{parse_unsigned, parse_unsigned_spec};
use crate::text::chars_of;

verus! {

/// The debugger's own state: the breakpoints set so far, in the order they were
/// set (a breakpoint's number is its position), and whether a traced process is
/// held.
pub struct Session {
    breakpoints: Vec<usize>,
    running: bool,
}

/// The mathematical value of a [`Session`].
pub struct SessionView {
    pub breakpoints: Seq<usize>,
    pub running: bool,
}

impl View for Session {
    type V = SessionView;

    closed spec fn view(&self) -> SessionView {
        SessionView { breakpoints: self.breakpoints@, running: self.running }
    }
}

/// What the command loop is to do after a command.
#[derive(Debug)]
pub enum Action {
    /// Kill the held process first when `kill_current`, then start the target
    /// with `args` under trace, planting every breakpoint, and let it run.
    Start { args: Vec<String>, kill_current: bool },
    /// Kill the held process when `kill_current`, and leave.
    Quit { kill_current: bool },
    /// Let the held process go on.
    Resume,
    /// Print the held process's call stack.
    Backtrace,
    /// Breakpoint number `index` was set at `addr`.
    BreakpointSet { index: usize, addr: usize },
    /// A breakpoint at `addr` exists already; nothing changed.
    BreakpointExists { addr: usize },
    /// Look up the address of source line `line`, and report it with
    /// [`Session::on_location_resolved`].
    ResolveLine { line: usize },
    /// Look up the address of function `name`, and report it with
    /// [`Session::on_location_resolved`].
    ResolveFunction { name: String },
    /// The location did not resolve: leave the command loop (the held process
    /// is left as it is).
    Leave,
}

/// What the command loop is to do after the traced process stopped or ended.
#[derive(Debug, Clone, Copy, PartialEq, Eq, Structural)]
pub enum StopAction {
    /// It exited with this code; it is no longer held.
    Exited(i32),
    /// It was killed by this signal; it is no longer held.
    Signaled(i32),
    /// It stopped with this signal at a location that is not known.
    StoppedUnknown(i32),
    /// It stopped with this signal at a known location that is no breakpoint.
    Stopped(i32),
    /// It stopped with this signal just past the breakpoint at `addr`: put back
    /// the byte that the breakpoint replaced there.
    StoppedAtBreakpoint { signal: i32, addr: usize },
}

/// Breakpoints set at raw addresses are never set twice: if the list held no
/// address twice, it holds none twice after a `break *addr`.
pub proof fn lemma_address_breakpoints_stay_distinct(before: Seq<usize>, addr: usize)
    requires
        before.no_duplicates(),
    ensures
        (if before.contains(addr) {
            before
        } else {
            before.push(addr)
        }).no_duplicates(),
{
    if !before.contains(addr) {
        let after = before.push(addr);
        assert forall|i: int, j: int| 0 <= i < after.len() && 0 <= j < after.len() && i != j implies after[i]
            != after[j] by {
            if i == before.len() as int && j < before.len() {
                assert(after[j] == before[j]);
            } else if j == before.len() as int && i < before.len() {
                assert(after[i] == before[i]);
            }
        }
    }
}

impl Session {
    /// A session with no breakpoints and no process.
    pub fn new() -> (r: Session)
        ensures
            r@.breakpoints == Seq::<usize>::empty(),
            !r@.running,
    {
        Session { breakpoints: Vec::new(), running: false }
    }

    /// The breakpoints set so far, in order.
    pub fn breakpoints(&self) -> (r: &Vec<usize>)
        ensures
            r@ == self@.breakpoints,
    {
        &self.breakpoints
    }

    /// Whether a traced process is held.
    pub fn is_running(&self) -> (r: bool)
        ensures
            r == self@.running,
    {
        self.running
    }

    fn has_breakpoint(&self, addr: usize) -> (r: bool)
        ensures
            r == self@.breakpoints.contains(addr),
    {
        let mut i: usize = 0;
        while i < self.breakpoints.len()
            invariant
                i <= self.breakpoints@.len(),
                forall|j: int| 0 <= j < i ==> self.breakpoints@[j] != addr,
            decreases self.breakpoints@.len() - i,
        {
            if self.breakpoints[i] == addr {
                return true;
            }
            i += 1;
        }
        false
    }

    /// Takes one command. `continue` and `backtrace` need a held process.
    pub fn on_command(&mut self, cmd: DebuggerCommand) -> (r: Action)
        requires
            cmd is Continue || cmd is Backtrace ==> old(self)@.running,
        ensures
            match cmd {
                DebuggerCommand::Run(args) => r == (Action::Start {
                    args,
                    kill_current: old(self)@.running,
                }) && final(self)@ == old(self)@,
                DebuggerCommand::Quit => r == (Action::Quit { kill_current: old(self)@.running })
                    && final(self)@ == old(self)@,
                DebuggerCommand::Continue => r is Resume && final(self)@ == old(self)@,
                DebuggerCommand::Backtrace => r is Backtrace && final(self)@ == old(self)@,
                DebuggerCommand::Break(Some(addr), _) => if old(self)@.breakpoints.contains(addr) {
                    r == (Action::BreakpointExists { addr }) && final(self)@ == old(self)@
                } else {
                    r == (Action::BreakpointSet { index: old(self)@.breakpoints.len() as usize, addr })
                        && final(self)@ == (SessionView {
                        breakpoints: old(self)@.breakpoints.push(addr),
                        running: old(self)@.running,
                    })
                },
                DebuggerCommand::Break(None, text) => final(self)@ == old(self)@ && match parse_unsigned_spec(
                    text@,
                    10,
                ) {
                    Some(line) => r == (Action::ResolveLine { line: line as usize }),
                    None => r matches Action::ResolveFunction { name } && name@ == text@,
                },
            },
    {
        match cmd {
            DebuggerCommand::Run(args) => Action::Start { args, kill_current: self.running },
            DebuggerCommand::Quit => Action::Quit { kill_current: self.running },
            DebuggerCommand::Continue => Action::Resume,
            DebuggerCommand::Backtrace => Action::Backtrace,
            DebuggerCommand::Break(Some(addr), _) => {
                if self.has_breakpoint(addr) {
                    Action::BreakpointExists { addr }
                } else {
                    let index = self.breakpoints.len();
                    self.breakpoints.push(addr);
                    Action::BreakpointSet { index, addr }
                }
            },
            DebuggerCommand::Break(None, text) => {
                let chars = chars_of(text.as_str());
                assert(chars@.subrange(0, chars@.len() as int) =~= text@);
                match parse_unsigned(&chars, 0, 10) {
                    Some(line) => Action::ResolveLine { line },
                    None => Action::ResolveFunction { name: text },
                }
            },
        }
    }

    /// Takes the address that a line or function resolved to. A resolved
    /// location is set as a new breakpoint, even where one is set already.
    pub fn on_location_resolved(&mut self, addr: Option<usize>) -> (r: Action)
        ensures
            match addr {
                Some(a) => r == (Action::BreakpointSet {
                    index: old(self)@.breakpoints.len() as usize,
                    addr: a,
                }) && final(self)@ == (SessionView {
                    breakpoints: old(self)@.breakpoints.push(a),
                    running: old(self)@.running,
                }),
                None => r is Leave && final(self)@ == old(self)@,
            },
    {
        match addr {
            Some(a) => {
                let index = self.breakpoints.len();
                self.breakpoints.push(a);
                Action::BreakpointSet { index, addr: a }
            },
            None => Action::Leave,
        }
    }

    /// Takes whether the target was started under trace. A session that held
    /// a process before still counts it as held when a new start fails.
    pub fn on_start_result(&mut self, started: bool)
        ensures
            final(self)@ == (SessionView {
                breakpoints: old(self)@.breakpoints,
                running: started || old(self)@.running,
            }),
    {
        if started {
            self.running = true;
        }
    }

    /// Takes how the held process stopped, with the [`LineInfo`] of the
    /// address where it stopped (any value when it did not stop). A process
    /// that stopped at a known location stopped past some instruction, so its
    /// instruction pointer is not 0.
    pub fn on_stop(&mut self, status: &Status, info: &LineInfo) -> (r: StopAction)
        requires
            status matches Status::Stopped(_, rip) ==> (info.info@ != unknown_text() ==> rip
                >= 1),
        ensures
            match *status {
                Status::Exited(code) => r == StopAction::Exited(code) && final(self)@ == (
                SessionView { breakpoints: old(self)@.breakpoints, running: false }),
                Status::Signaled(sig) => r == StopAction::Signaled(sig) && final(self)@ == (
                SessionView { breakpoints: old(self)@.breakpoints, running: false }),
                Status::Stopped(sig, rip) => final(self)@ == old(self)@ && if info.info@
                    == unknown_text() {
                    r == StopAction::StoppedUnknown(sig)
                } else if old(self)@.breakpoints.contains((rip - 1) as usize) {
                    r == (StopAction::StoppedAtBreakpoint { signal: sig, addr: (rip - 1) as usize })
                } else {
                    r == StopAction::Stopped(sig)
                },
            },
    {
        match status {
            Status::Exited(code) => {
                self.running = false;
                StopAction::Exited(*code)
            },
            Status::Signaled(sig) => {
                self.running = false;
                StopAction::Signaled(*sig)
            },
            Status::Stopped(sig, rip) => {
                if info.is_unknown() {
                    StopAction::StoppedUnknown(*sig)
                } else {
                    let break_addr = *rip - 1;
                    if self.has_breakpoint(break_addr) {
                        StopAction::StoppedAtBreakpoint { signal: *sig, addr: break_addr }
                    } else {
                        StopAction::Stopped(*sig)
                    }
                }
            },
        }
    }
}

} // verus!
