//! A block: one command of the status bar, and what it last printed.

use crate::config::Config;
use crate::text::{chars_of, decimal, decimal_string, join, join_strings, push_char};
use std::sync::Arc;
use vstd::prelude::*;
use vstd::string::StringExecFns;
use vstd::utf8::{decode_utf8, valid_utf8};

verus! {

#[verifier::external_type_specification]
#[verifier::external_body]
pub struct ExIoError(std::io::Error);

#[verifier::external_type_specification]
#[verifier::external_body]
pub struct ExJoinError(tokio::task::JoinError);

/// Why running a block failed.
///
/// `CommandError` comes from the command itself (it could not be started or
/// read), which is the user's concern; the other two mean that the task
/// running the command was lost, which is a bug.
#[derive(Debug)]
pub enum BlockRunError {
    /// Starting or reading the command failed.
    CommandError(std::io::Error),
    /// The task that ran the command did not finish.
    JoinError(tokio::task::JoinError),
    /// The channel carrying the command's output closed before the output came.
    ChannelClosed,
}

impl BlockRunError {
    /// Whether the failure is internal (a bug), not the command's.
    pub fn is_internal(&self) -> (r: bool)
        ensures
            r == !(self is CommandError),
    {
        match self {
            BlockRunError::JoinError(_) | BlockRunError::ChannelClosed => true,
            BlockRunError::CommandError(_) => false,
        }
    }

    /// Whether the failure is the command's (an I/O error).
    pub fn is_io(&self) -> (r: bool)
        ensures
            r == (self is CommandError),
    {
        match self {
            BlockRunError::JoinError(_) | BlockRunError::ChannelClosed => false,
            BlockRunError::CommandError(_) => true,
        }
    }
}

/// How a block is run: plainly, or as if clicked with a mouse button.
#[derive(Debug, PartialEq, Eq, Structural, Copy, Clone)]
pub enum BlockRunMode {
    /// Run the command plainly.
    Normal,
    /// Run the command with the clicked-button variable set to this button.
    Button(u8),
}

impl BlockRunMode {
    /// The button, or `None` in normal mode.
    pub fn button(&self) -> (r: Option<u8>)
        ensures
            r == (match self {
                BlockRunMode::Button(b) => Some(*b),
                BlockRunMode::Normal => None,
            }),
    {
        match self {
            BlockRunMode::Button(b) => Some(*b),
            BlockRunMode::Normal => None,
        }
    }
}

/// What `String::from_utf8_lossy` returns for the bytes `b`.
pub uninterp spec fn lossy_text(b: Seq<u8>) -> Seq<char>;

/// Relies on `String::from_utf8_lossy`: the text of `b` with each invalid
/// sequence replaced by U+FFFD; valid UTF-8 is decoded as it is.
#[verifier::external_body]
fn utf8_lossy(b: &[u8]) -> (r: String)
    ensures
        r@ == lossy_text(b@),
        valid_utf8(b@) ==> r@ == decode_utf8(b@),
{
    String::from_utf8_lossy(b).into_owned()
}

/// The characters of `t` before its first newline (all of `t` if it has none).
pub open spec fn line_of(t: Seq<char>) -> Seq<char>
    decreases t.len(),
{
    if t.len() == 0 {
        t
    } else if t[0] == '\n' {
        seq![]
    } else {
        seq![t[0]] + line_of(t.drop_first())
    }
}

/// The output that a block keeps of what its command printed.
pub open spec fn kept_output(stdout: Seq<u8>) -> Seq<char> {
    line_of(lossy_text(stdout))
}

/// The first line of `text`, without its newline.
pub fn first_line(text: &str) -> (r: String)
    ensures
        r@ == line_of(text@),
{
    let t = chars_of(text);
    let mut out = String::new();
    let mut i: usize = 0;
    assert(t@.skip(0) =~= t@);
    assert(out@ + line_of(t@) =~= line_of(t@));
    while i < t.len()
        invariant
            t@ == text@,
            i <= t@.len(),
            line_of(text@) == out@ + line_of(t@.skip(i as int)),
        decreases t.len() - i,
    {
        let ghost rest = t@.skip(i as int);
        assert(rest.drop_first() =~= t@.skip(i + 1));
        if t[i] == '\n' {
            assert(line_of(rest) =~= Seq::<char>::empty());
            assert(out@ + Seq::<char>::empty() =~= out@);
            return out;
        }
        let ghost before = out@;
        push_char(&mut out, t[i]);
        assert(before + line_of(rest) =~= out@ + line_of(t@.skip(i + 1)));
        i = i + 1;
    }
    assert(line_of(t@.skip(i as int)) =~= Seq::<char>::empty());
    assert(out@ + Seq::<char>::empty() =~= out@);
    out
}

/// The text of a block's command line: the command, then its arguments,
/// separated by spaces.
pub open spec fn command_line(command: Seq<char>, args: Seq<Seq<char>>) -> Seq<char> {
    if args.len() == 0 {
        command
    } else {
        command + seq![' '] + join(args, seq![' '])
    }
}

/// Whether a block's interval is allowed: absent, or at least one second.
pub open spec fn valid_interval(interval: Option<u64>) -> bool {
    match interval {
        Some(s) => s > 0,
        None => true,
    }
}

/// One command of the status bar and what it last printed.
#[derive(Debug, PartialEq, Clone)]
pub struct Block {
    command: String,
    args: Vec<String>,
    interval: Option<u64>,
    result: Option<String>,
    config: Arc<Config>,
}

impl Block {
    /// The command.
    pub closed spec fn command_view(&self) -> Seq<char> {
        self.command@
    }

    /// The command's arguments.
    pub closed spec fn args_view(&self) -> Seq<Seq<char>> {
        self.args@.map_values(|a: String| a@)
    }

    /// Seconds between refreshes, if the block refreshes on its own.
    pub closed spec fn interval_view(&self) -> Option<u64> {
        self.interval
    }

    /// The kept output of the last successful run, if any.
    pub closed spec fn output(&self) -> Option<Seq<char>> {
        match self.result {
            Some(r) => Some(r@),
            None => None,
        }
    }

    /// The name of the variable that carries the clicked button.
    pub closed spec fn clicked_variable(&self) -> Seq<char> {
        self.config.block.clicked_env_variable@
    }

    /// Creates a block that has not run yet. An interval, if given, is at
    /// least one second.
    pub fn new(command: String, args: Vec<String>, interval: Option<u64>, config: Arc<Config>) -> (r: Self)
        requires
            valid_interval(interval),
        ensures
            r.command_view() == command@,
            r.args_view() == args@.map_values(|a: String| a@),
            r.interval_view() == interval,
            r.output() is None,
            r.clicked_variable() == config.block.clicked_env_variable@,
    {
        Block { command, args, interval, result: None, config }
    }

    /// The command.
    pub fn command(&self) -> (r: &String)
        ensures
            r@ == self.command_view(),
    {
        &self.command
    }

    /// The command's arguments.
    pub fn args(&self) -> (r: &Vec<String>)
        ensures
            r@.map_values(|a: String| a@) == self.args_view(),
    {
        &self.args
    }

    /// Seconds between refreshes, or `None` if the block refreshes only on request.
    pub fn get_interval(&self) -> (r: Option<u64>)
        ensures
            r == self.interval_view(),
    {
        self.interval
    }

    /// The kept output of the last successful run; `None` before the first.
    pub fn result(&self) -> (r: Option<&String>)
        ensures
            r matches Some(s) ==> self.output() == Some(s@),
            r is None ==> self.output() is None,
    {
        self.result.as_ref()
    }

    /// Sets the kept output directly.
    pub fn set_result(&mut self, result: Option<String>)
        ensures
            final(self).output() == (match result {
                Some(s) => Some(s@),
                None => None,
            }),
            final(self).command_view() == old(self).command_view(),
            final(self).args_view() == old(self).args_view(),
            final(self).interval_view() == old(self).interval_view(),
            final(self).clicked_variable() == old(self).clicked_variable(),
    {
        self.result = result;
    }

    /// The environment variable to set when running in `mode`: the clicked
    /// variable with the button's number in decimal, or nothing in normal mode.
    pub fn env_for(&self, mode: BlockRunMode) -> (r: Option<(String, String)>)
        ensures
            mode is Normal ==> r is None,
            mode matches BlockRunMode::Button(b) ==> (r matches Some(kv) && kv.0@
                == self.clicked_variable() && kv.1@ == decimal(b as nat)),
    {
        match mode {
            BlockRunMode::Normal => None,
            BlockRunMode::Button(b) => {
                let name = self.config.block.clicked_env_variable.clone();
                Some((name, decimal_string(b as u64)))
            },
        }
    }

    /// Records what a successful run printed: only the first line is kept,
    /// replacing the previous output even when empty.
    pub fn set_output(&mut self, stdout: &[u8])
        ensures
            final(self).output() == Some(kept_output(stdout@)),
            valid_utf8(stdout@) ==> final(self).output() == Some(line_of(decode_utf8(stdout@))),
            final(self).command_view() == old(self).command_view(),
            final(self).args_view() == old(self).args_view(),
            final(self).interval_view() == old(self).interval_view(),
            final(self).clicked_variable() == old(self).clicked_variable(),
    {
        let text = utf8_lossy(stdout);
        self.result = Some(first_line(text.as_str()));
    }

    /// The command line, as the command and its arguments separated by spaces.
    pub fn describe(&self) -> (r: String)
        ensures
            r@ == command_line(self.command_view(), self.args_view()),
    {
        proof {
            reveal_strlit(" ");
        }
        assert(" "@ =~= seq![' ']);
        let mut out = self.command.clone();
        if self.args.len() > 0 {
            out.append(" ");
            let joined = join_strings(&self.args, " ");
            out.append(joined.as_str());
            assert(out@ =~= command_line(self.command_view(), self.args_view()));
        } else {
            assert(self.args_view().len() == 0);
        }
        out
    }
}

} // verus!
