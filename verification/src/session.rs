//! What a window onto a run has to remember: the file that was picked,
//! whether a run is under way, the latest counts, and the last lines of the
//! log.
//!
//! The log lines are held in a `circular_buffer::CircularBuffer` of 1024
//! places. The verifier does not look inside it; what it knows of it is the
//! list of lines that it holds, `console_lines`, and what the three
//! functions below say of the calls they make.

use vstd::prelude::*;
use crate::progress::SnapdownStatus;

verus! {

/// The number of log lines that are kept.
pub const CONSOLE_CAPACITY: usize = 1024;

#[verifier::external_type_specification]
#[verifier::external_body]
#[verifier::reject_recursive_types(T)]
pub struct ExCircularBuffer<const N: usize, T>(circular_buffer::CircularBuffer<N, T>);

/// The lines that a console holds, oldest first.
pub uninterp spec fn console_lines(
    console: circular_buffer::CircularBuffer<1024, String>,
) -> Seq<Seq<char>>;

/// `lines` with `line` added behind them, in a console of
/// `CONSOLE_CAPACITY` places: where all places are taken, the oldest line
/// goes.
pub open spec fn with_line(lines: Seq<Seq<char>>, line: Seq<char>) -> Seq<Seq<char>> {
    if lines.len() < CONSOLE_CAPACITY {
        lines.push(line)
    } else {
        lines.drop_first().push(line)
    }
}

/// The lines that a console shows of all the lines it was given: the last
/// `CONSOLE_CAPACITY` of them, or all where there are fewer.
pub open spec fn last_lines(received: Seq<Seq<char>>) -> Seq<Seq<char>> {
    if received.len() <= CONSOLE_CAPACITY {
        received
    } else {
        received.skip(received.len() - CONSOLE_CAPACITY)
    }
}

/// A console that shows the last lines of what it was given still does so
/// after one more line.
pub proof fn lemma_console_keeps_last(received: Seq<Seq<char>>, line: Seq<char>)
    ensures
        with_line(last_lines(received), line) == last_lines(received.push(line)),
{
    assert(with_line(last_lines(received), line) =~= last_lines(received.push(line)));
}

/// `CircularBuffer::new` returns a buffer that holds nothing.
#[verifier::external_body]
fn new_console() -> (console: circular_buffer::CircularBuffer<1024, String>)
    ensures
        console_lines(console) == Seq::<Seq<char>>::empty(),
{
    circular_buffer::CircularBuffer::new()
}

/// `CircularBuffer::push_back` puts the item behind the others. In a buffer
/// that is full it first removes the item at the front. A buffer never
/// holds more items than it has places.
#[verifier::external_body]
fn push_line(console: &mut circular_buffer::CircularBuffer<1024, String>, line: String)
    ensures
        console_lines(*final(console)) == with_line(console_lines(*old(console)), line@),
        console_lines(*final(console)).len() <= CONSOLE_CAPACITY,
{
    console.push_back(line);
}

/// `CircularBuffer::to_vec` returns clones of the items, front to back.
#[verifier::external_body]
fn lines_of(console: &circular_buffer::CircularBuffer<1024, String>) -> (lines: Vec<String>)
    ensures
        lines@.map_values(|line: String| line@) == console_lines(*console),
{
    console.to_vec()
}

/// What the window shows of the run.
#[derive(Debug, Clone, Copy, PartialEq, Eq, Structural)]
pub enum SnapdownState {
    /// Nothing is going on.
    Idle,
    /// The file dialog is open.
    SelectingFile,
    /// A run is under way.
    Downloading,
    /// The run has ended.
    Completed,
}

/// A session, as a value.
pub struct SessionModel {
    pub picked_path: Option<Seq<char>>,
    pub state: SnapdownState,
    pub success_count: usize,
    pub error_count: usize,
    pub skip_count: usize,
    pub console: Seq<Seq<char>>,
}

/// What a window onto a run remembers between two frames.
pub struct Session {
    picked_path: Option<String>,
    state: SnapdownState,
    success_count: usize,
    error_count: usize,
    skip_count: usize,
    messages_console: circular_buffer::CircularBuffer<1024, String>,
}

impl View for Session {
    type V = SessionModel;

    closed spec fn view(&self) -> SessionModel {
        SessionModel {
            picked_path: match self.picked_path {
                Some(path) => Some(path@),
                None => None,
            },
            state: self.state,
            success_count: self.success_count,
            error_count: self.error_count,
            skip_count: self.skip_count,
            console: console_lines(self.messages_console),
        }
    }
}

impl Session {
    /// A session in which nothing has happened yet.
    pub fn new() -> (session: Session)
        ensures
            session@ == (SessionModel {
                picked_path: None,
                state: SnapdownState::Idle,
                success_count: 0,
                error_count: 0,
                skip_count: 0,
                console: Seq::empty(),
            }),
    {
        Session {
            picked_path: None,
            state: SnapdownState::Idle,
            success_count: 0,
            error_count: 0,
            skip_count: 0,
            messages_console: new_console(),
        }
    }

    /// The file dialog was opened.
    pub fn select_file(&mut self)
        ensures
            final(self)@ == (SessionModel { state: SnapdownState::SelectingFile, ..old(self)@ }),
    {
        self.state = SnapdownState::SelectingFile;
    }

    /// A file was picked in the dialog.
    pub fn file_picked(&mut self, path: String)
        ensures
            final(self)@ == (SessionModel {
                picked_path: Some(path@),
                state: SnapdownState::Idle,
                ..old(self)@
            }),
    {
        self.picked_path = Some(path);
        self.state = SnapdownState::Idle;
    }

    /// A run was asked for. Where a file has been picked, the run is under
    /// way from now on, and the file's path is returned for it. Where none
    /// has, nothing changes.
    pub fn start_run(&mut self) -> (path: Option<String>)
        ensures
            match old(self)@.picked_path {
                Some(picked) => path is Some && path.unwrap()@ == picked && final(self)@ == (
                SessionModel { state: SnapdownState::Downloading, ..old(self)@ }),
                None => path is None && final(self)@ == old(self)@,
            },
    {
        match &self.picked_path {
            Some(picked) => {
                let path = picked.clone();
                self.state = SnapdownState::Downloading;
                Some(path)
            },
            None => None,
        }
    }

    /// A snapshot of the run came in: the counts are those of the snapshot,
    /// and the run has ended if the snapshot says so.
    pub fn status_received(&mut self, status: SnapdownStatus)
        ensures
            final(self)@ == (SessionModel {
                state: if status.finished {
                    SnapdownState::Completed
                } else {
                    SnapdownState::Downloading
                },
                success_count: status.success_count,
                error_count: status.error_count,
                skip_count: status.skip_count,
                ..old(self)@
            }),
    {
        if status.finished {
            self.state = SnapdownState::Completed;
        } else {
            self.state = SnapdownState::Downloading;
        }
        self.success_count = status.success_count;
        self.error_count = status.error_count;
        self.skip_count = status.skip_count;
    }

    /// A log line came in. It is kept as the newest; of more than
    /// `CONSOLE_CAPACITY` lines the oldest goes.
    pub fn log_received(&mut self, message: String)
        ensures
            final(self)@ == (SessionModel {
                console: with_line(old(self)@.console, message@),
                ..old(self)@
            }),
            final(self)@.console.len() <= CONSOLE_CAPACITY,
    {
        push_line(&mut self.messages_console, message);
    }

    /// What the window shows of the run.
    pub fn state(&self) -> (state: SnapdownState)
        ensures
            state == self@.state,
    {
        self.state
    }

    /// The file that was picked, if one was.
    pub fn picked_path(&self) -> (path: Option<&String>)
        ensures
            match path {
                Some(picked) => self@.picked_path == Some(picked@),
                None => self@.picked_path is None,
            },
    {
        self.picked_path.as_ref()
    }

    /// The latest counts, with `finished` set where the run has ended.
    pub fn status(&self) -> (status: SnapdownStatus)
        ensures
            status.finished == (self@.state == SnapdownState::Completed),
            status.success_count == self@.success_count,
            status.error_count == self@.error_count,
            status.skip_count == self@.skip_count,
    {
        SnapdownStatus {
            finished: self.state == SnapdownState::Completed,
            error_count: self.error_count,
            success_count: self.success_count,
            skip_count: self.skip_count,
        }
    }

    /// The log lines that are kept, oldest first.
    pub fn console(&self) -> (lines: Vec<String>)
        ensures
            lines@.map_values(|line: String| line@) == self@.console,
    {
        lines_of(&self.messages_console)
    }
}

} // verus!
