use vstd::prelude::*;

use crate::chars::{blank_char, copy_range, is_blank_char, lemma_seek_run, seek};
use crate::feeder::{lemma_consume_total, Feeder};
use crate::redirect::Redirect;
use crate::shell::ShellCore;

verus! {

/// The pipe endpoints and redirect list attached to one command before
/// it is dispatched. `-1` marks an endpoint that is not connected.
pub struct FileDescs {
    pub pipein: i32,
    pub pipeout: i32,
    pub prevpipein: i32,
    pub redirects: Vec<Redirect>,
}

impl FileDescs {
    pub fn new() -> (r: FileDescs)
        ensures
            r.pipein == -1,
            r.pipeout == -1,
            r.prevpipein == -1,
            r.redirects@.len() == 0,
    {
        FileDescs { pipein: -1, pipeout: -1, prevpipein: -1, redirects: Vec::new() }
    }
}

/// The length of the non-blank word at the head of `s`.
pub open spec fn word_len(s: Seq<char>) -> int
    decreases s.len(),
{
    if s.len() == 0 || is_blank_char(s[0]) {
        0
    } else {
        1 + word_len(s.drop_first())
    }
}

/// The word at the head stays within the text.
pub proof fn lemma_word_len_bound(s: Seq<char>)
    ensures
        0 <= word_len(s) <= s.len(),
    decreases s.len(),
{
    if s.len() > 0 && !is_blank_char(s[0]) {
        lemma_word_len_bound(s.drop_first());
    }
}

/// `s` split into its maximal runs of non-blank characters.
pub open spec fn split_words(s: Seq<char>) -> Seq<Seq<char>>
    decreases s.len(),
    via split_words_dec
{
    if s.len() == 0 {
        Seq::<Seq<char>>::empty()
    } else if is_blank_char(s[0]) {
        split_words(s.drop_first())
    } else {
        seq![s.take(word_len(s))] + split_words(s.skip(word_len(s)))
    }
}

#[via_fn]
proof fn split_words_dec(s: Seq<char>) {
    if s.len() > 0 && !is_blank_char(s[0]) {
        lemma_word_len_bound(s);
        lemma_word_len_bound(s.drop_first());
        assert(word_len(s) == 1 + word_len(s.drop_first()));
    }
}

/// The views of a vector of argument words.
pub open spec fn words_view(args: Seq<Vec<char>>) -> Seq<Seq<char>> {
    args.map_values(|v: Vec<char>| v@)
}

/// Splits `v`, from position `i` on, into whitespace-separated words.
pub fn split_words_from(v: &Vec<char>, i: usize) -> (r: Vec<Vec<char>>)
    requires
        i <= v@.len(),
    ensures
        words_view(r@) == split_words(v@.skip(i as int)),
    decreases v@.len() - i,
{
    let n = v.len();
    if i >= n {
        let r: Vec<Vec<char>> = Vec::new();
        proof {
            assert(v@.skip(i as int).len() == 0);
            assert(words_view(r@) =~= split_words(v@.skip(i as int)));
        }
        r
    } else if blank_char(v[i]) {
        proof {
            assert(v@.skip(i as int).drop_first() =~= v@.skip(i + 1));
        }
        split_words_from(v, i + 1)
    } else {
        // find the end of the word
        let ghost s = v@.skip(i as int);
        let mut j: usize = i;
        while j < n && !blank_char(v[j])
            invariant
                i <= j <= n,
                n == v@.len(),
                i < n,
                !is_blank_char(v@[i as int]),
                forall|k: int| i <= k < j ==> !is_blank_char(#[trigger] v@[k]),
            decreases n - j,
        {
            j = j + 1;
        }
        proof {
            assert(j > i);
            lemma_word_len_run(v@, i as int, j as int);
        }
        let word = copy_range(v, i, j);
        let rest = split_words_from(v, j);
        let mut r: Vec<Vec<char>> = Vec::new();
        r.push(word);
        let mut rest_m = rest;
        let ghost rest_view = words_view(rest_m@);
        let mut k: usize = 0;
        proof {
            assert(words_view(r@) =~= seq![v@.subrange(i as int, j as int)] + rest_view.take(0));
        }
        while k < rest_m.len()
            invariant
                k <= rest_m@.len(),
                i <= j <= v@.len(),
                words_view(rest_m@) == rest_view,
                words_view(r@) == seq![v@.subrange(i as int, j as int)] + rest_view.take(k as int),
            decreases rest_m@.len() - k,
        {
            let w = crate::chars::clone_chars(&rest_m[k]);
            proof {
                let lhs = words_view(r@.push(w));
                let rhs = seq![v@.subrange(i as int, j as int)] + rest_view.take((k + 1) as int);
                assert(words_view(r@).len() == k + 1);
                assert(r@.len() == k + 1);
                assert(w@ == rest_view[k as int]);
                assert forall|t: int| 0 <= t < k + 2 implies lhs[t] == rhs[t] by {
                    if t < k + 1 {
                        assert(r@.push(w)[t] == r@[t]);
                        assert(lhs[t] == words_view(r@)[t]);
                    } else {
                        assert(r@.push(w)[t] == w);
                    }
                }
                assert(lhs =~= rhs);
            }
            r.push(w);
            k = k + 1;
        }
        proof {
            assert(rest_view.take(rest_view.len() as int) =~= rest_view);
            assert(v@.subrange(i as int, j as int) =~= s.take(word_len(s)));
            assert(v@.skip(j as int) =~= s.skip(word_len(s)));
            assert(words_view(r@) =~= split_words(s));
        }
        r
    }
}

/// A run of non-blanks from `i` to `j`, ended by a blank or the end of
/// the text, is exactly the head word of the suffix at `i`.
proof fn lemma_word_len_run(s: Seq<char>, i: int, j: int)
    requires
        0 <= i <= j <= s.len(),
        forall|k: int| i <= k < j ==> !is_blank_char(#[trigger] s[k]),
        j == s.len() || is_blank_char(s[j]),
    ensures
        word_len(s.skip(i)) == j - i,
    decreases j - i,
{
    if i < j {
        lemma_word_len_run(s, i + 1, j);
        assert(s.skip(i).drop_first() =~= s.skip(i + 1));
    }
}

/// The characters that end a simple command's text: control operators,
/// brackets and the end of the line.
pub open spec fn command_stops() -> Seq<char> {
    seq!['|', '&', ';', ')', '(', '\n']
}

/// The length of the command text at the head of `s`: up to the first
/// delimiter, or all of `s`.
pub open spec fn command_prefix_len(s: Seq<char>) -> int {
    seek(s, 0, command_stops())
}

/// Whether a simple command starts at the head of `s`: a nonempty
/// prefix before the first delimiter that holds at least one word.
pub open spec fn command_matches(s: Seq<char>) -> bool {
    command_prefix_len(s) > 0 && split_words(s.take(command_prefix_len(s))).len() > 0
}

/// The head conditions under which a statement must parse: the first
/// character opens no comment, blank run, line break or negation.
pub open spec fn plain_statement_head(s: Seq<char>) -> bool {
    s.len() > 0 && !is_blank_char(s[0]) && s[0] != '\n' && s[0] != '#' && s[0] != '!'
}

/// Whether a simple command stands at the head of `s` with the subshell
/// terminator `)` immediately after its text.
pub open spec fn command_before_closer(s: Seq<char>) -> bool {
    &&& command_matches(s)
    &&& command_prefix_len(s) < s.len()
    &&& s[command_prefix_len(s)] == ')'
}

/// A simple command: a line split into whitespace-separated argument
/// words, handed to the driver to fork and execute. The pipe endpoints
/// and the process id are filled in at dispatch time.
pub struct Command {
    pub text: Vec<char>,
    pub args: Vec<Vec<char>>,
    pub pid: Option<i32>,
    pub fds: FileDescs,
    pub group_leader: bool,
}

impl Command {
    /// Parses a simple command: the text up to the next delimiter, split
    /// into words. Fails, changing nothing, when no word is present.
    pub fn parse(feeder: &mut Feeder, core: &mut ShellCore) -> (r: Option<Command>)
        ensures
            final(core).same_core(old(core)),
            (r is Some) == command_matches(old(feeder).buf()),
            match r {
                Some(c) => {
                    &&& old(feeder).buf().len() > 0
                    &&& c.text@ == old(feeder).buf().take(command_prefix_len(old(feeder).buf()))
                    &&& final(feeder).buf() == old(feeder).buf().skip(
                        command_prefix_len(old(feeder).buf()),
                    )
                    &&& c.text@ + final(feeder).total() == old(feeder).total()
                    &&& c.text@.len() > 0
                    &&& final(feeder).src() == old(feeder).src()
                    &&& final(feeder).feed_stop == old(feeder).feed_stop
                    &&& words_view(c.args@) == split_words(c.text@)
                    &&& c.args@.len() > 0
                    &&& c.pid is None
                },
                None => final(feeder).same_state(old(feeder)),
            },
    {
        let stops = {
            let mut p: Vec<char> = Vec::new();
            p.push('|');
            p.push('&');
            p.push(';');
            p.push(')');
            p.push('(');
            p.push('\n');
            p
        };
        proof {
            assert(stops@ =~= command_stops());
        }
        let d = feeder.scanner_until(0, &stops);
        proof {
            lemma_seek_run(feeder.buf(), 0, d as int, command_stops());
        }
        if d == 0 {
            return None;
        }
        let backup = feeder.snapshot();
        let line = feeder.consume(d);
        let args = split_words_from(&line, 0);
        proof {
            assert(line@.skip(0) =~= line@);
        }
        if args.len() == 0 {
            feeder.rewind(backup);
            return None;
        }
        proof {
            assert(line@ + feeder.buf() =~= old(feeder).buf());
            lemma_consume_total(*old(feeder), *feeder, line@);
        }
        Some(Command { text: line, args, pid: None, fds: FileDescs::new(), group_leader: false })
    }

    /// Whether this is the process-termination special case: the literal
    /// program name `exit`.
    pub fn is_exit(&self) -> (r: bool)
        ensures
            r == (self.args@.len() > 0 && self.args@[0]@ == seq!['e', 'x', 'i', 't']),
    {
        if self.args.len() == 0 {
            return false;
        }
        let word = {
            let mut p: Vec<char> = Vec::new();
            p.push('e');
            p.push('x');
            p.push('i');
            p.push('t');
            p
        };
        proof {
            assert(word@ =~= seq!['e', 'x', 'i', 't']);
        }
        crate::chars::chars_eq(&self.args[0], &word)
    }

    /// Connects this command's pipe endpoints.
    pub fn set_pipe(&mut self, pin: i32, pout: i32, pprev: i32)
        ensures
            final(self).fds.pipein == pin,
            final(self).fds.pipeout == pout,
            final(self).fds.prevpipein == pprev,
            final(self).fds.redirects@ == old(self).fds.redirects@,
            final(self).text@ == old(self).text@,
            final(self).args@ == old(self).args@,
            final(self).pid == old(self).pid,
            final(self).group_leader == old(self).group_leader,
    {
        self.fds.pipein = pin;
        self.fds.pipeout = pout;
        self.fds.prevpipein = pprev;
    }
}

} // verus!
