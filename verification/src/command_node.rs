use vstd::prelude::*;

use crate::chars::clone_chars;
use crate::elem_command::{command_matches, Command};
use crate::elem_compound_double_paren::{dbl_paren_matches, dbl_paren_opens, CompoundDoubleParen};
use crate::feeder::Feeder;
use crate::paren::{group_matches, CommandParen};
use crate::shell::ShellCore;

verus! {

/// One executable unit within a pipeline: an external simple command, a
/// parenthesized subshell group, or an arithmetic compound. A closed
/// variant set, dispatched by match.
pub enum CommandNode {
    Simple(Command),
    Paren(CommandParen),
    DoubleParen(CompoundDoubleParen),
}

impl CommandNode {
    /// The recorded source text of this command.
    pub open spec fn text_view(&self) -> Seq<char> {
        match self {
            CommandNode::Simple(c) => c.text@,
            CommandNode::Paren(c) => c.text@,
            CommandNode::DoubleParen(c) => c.text@,
        }
    }

    /// The process id assigned after this command was forked, if any.
    pub open spec fn pid_of(&self) -> Option<i32> {
        match self {
            CommandNode::Simple(c) => c.pid,
            CommandNode::Paren(c) => c.pid,
            CommandNode::DoubleParen(c) => c.pid,
        }
    }

    /// Whether this command runs synchronously, without a fork: exactly
    /// the arithmetic compound.
    pub open spec fn is_sync(&self) -> bool {
        self is DoubleParen
    }

    /// The exit status a synchronous command sets when it runs.
    pub open spec fn sync_status(&self) -> Seq<char>
        recommends
            self.is_sync(),
    {
        match self {
            CommandNode::DoubleParen(c) => crate::elem_compound_double_paren::arith_status(
                crate::calculator::calc_spec(c.expression@),
            ),
            _ => seq!['0'],
        }
    }

    /// A copy of the recorded source text.
    pub fn get_text(&self) -> (r: Vec<char>)
        ensures
            r@ == self.text_view(),
    {
        match self {
            CommandNode::Simple(c) => clone_chars(&c.text),
            CommandNode::Paren(c) => clone_chars(&c.text),
            CommandNode::DoubleParen(c) => clone_chars(&c.text),
        }
    }

    /// The assigned process id, once the command has been forked.
    pub fn get_pid(&self) -> (r: Option<i32>)
        ensures
            r == self.pid_of(),
    {
        match self {
            CommandNode::Simple(c) => c.pid,
            CommandNode::Paren(c) => c.pid,
            CommandNode::DoubleParen(c) => c.pid,
        }
    }

    /// Connects this command's pipe endpoints.
    pub fn set_pipe(&mut self, pin: i32, pout: i32, pprev: i32)
        ensures
            final(self).fds_of() == (pin, pout, pprev),
            final(self).text_view() == old(self).text_view(),
            final(self).pid_of() == old(self).pid_of(),
            final(self).is_sync() == old(self).is_sync(),
    {
        match self {
            CommandNode::Simple(c) => {
                c.fds.pipein = pin;
                c.fds.pipeout = pout;
                c.fds.prevpipein = pprev;
            },
            CommandNode::Paren(c) => {
                c.fds.pipein = pin;
                c.fds.pipeout = pout;
                c.fds.prevpipein = pprev;
            },
            CommandNode::DoubleParen(c) => {
                c.fds.pipein = pin;
                c.fds.pipeout = pout;
                c.fds.prevpipein = pprev;
            },
        }
    }

    /// The connected pipe endpoints: (pipe-in, pipe-out, previous
    /// pipe-in).
    pub open spec fn fds_of(&self) -> (i32, i32, i32) {
        match self {
            CommandNode::Simple(c) => (c.fds.pipein, c.fds.pipeout, c.fds.prevpipein),
            CommandNode::Paren(c) => (c.fds.pipein, c.fds.pipeout, c.fds.prevpipein),
            CommandNode::DoubleParen(c) => (c.fds.pipein, c.fds.pipeout, c.fds.prevpipein),
        }
    }

    /// Tries the command variants in order: arithmetic compound,
    /// subshell group, simple command.
    pub fn parse(feeder: &mut Feeder, core: &mut ShellCore) -> (r: Option<CommandNode>)
        ensures
            final(core).parse_effects_from(old(core)),
            final(feeder).total().len() <= old(feeder).total().len(),
            dbl_paren_opens(old(feeder).buf()) && dbl_paren_matches(old(feeder).pending())
                ==> r is Some,
            old(feeder).buf().len() > 0 && old(feeder).buf()[0] != '(' && command_matches(
                old(feeder).buf(),
            ) ==> r is Some && final(feeder).buf() == old(feeder).buf().skip(
                crate::elem_command::command_prefix_len(old(feeder).buf()),
            ),
            group_matches(old(feeder).buf()) ==> r is Some,
            match r {
                Some(c) => {
                    &&& c.text_view() + final(feeder).total() == old(feeder).total()
                    &&& c.text_view().len() > 0
                    &&& c.pid_of() is None
                },
                None => final(feeder).same_state(old(feeder)) || (final(feeder).buf().len() == 0
                    && (old(feeder).feed_stop || final(feeder).src().len() == 0)),
            },
        decreases feeder.total().len(), 4int,
    {
        proof {
            if group_matches(feeder.buf()) {
                assert(feeder.buf().skip(1)[0] == feeder.buf()[1]);
            }
        }
        match CompoundDoubleParen::parse(feeder, core, false) {
            Some(c) => {
                return Some(CommandNode::DoubleParen(c));
            },
            None => {},
        }
        match CommandParen::parse(feeder, core, false) {
            Some(c) => {
                return Some(CommandNode::Paren(c));
            },
            None => {},
        }
        match Command::parse(feeder, core) {
            Some(c) => Some(CommandNode::Simple(c)),
            None => None,
        }
    }
}

} // verus!
