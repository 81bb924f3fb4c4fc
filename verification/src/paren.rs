use vstd::prelude::*;

use crate::chars::append_chars;
use crate::elem_command::{command_before_closer, command_prefix_len, plain_statement_head, FileDescs};
use crate::elem_script::Script;
use crate::feeder::{lemma_consume_total, Feeder};
use crate::redirect::Redirect;
use crate::shell::ShellCore;

verus! {

/// The value captured from a subshell in substitution mode: the child's
/// output with exactly one trailing newline stripped, embedded newlines
/// preserved.
pub open spec fn trim_one_newline(s: Seq<char>) -> Seq<char> {
    if s.len() > 0 && s.last() == '\n' {
        s.drop_last()
    } else {
        s
    }
}

/// Whether a parseable subshell group stands at the head of `s`: after
/// the opening `(`, a plain simple-command statement runs up to the
/// matching `)`.
pub open spec fn group_matches(s: Seq<char>) -> bool {
    &&& s.len() > 0
    &&& s[0] == '('
    &&& plain_statement_head(s.skip(1))
    &&& s.skip(1)[0] != '('
    &&& !crate::elem_function::fn_def_matches(s.skip(1))
    &&& command_before_closer(s.skip(1))
}

/// A parenthesized subshell group `( script )`: the nested script runs
/// in a forked child; in substitution mode its output is captured.
pub struct CommandParen {
    pub script: Option<Script>,
    pub text: Vec<char>,
    pub pid: Option<i32>,
    pub substitution_text: Vec<char>,
    pub substitution: bool,
    pub fds: FileDescs,
    pub group_leader: bool,
}

impl CommandParen {
    pub fn new() -> (r: CommandParen)
        ensures
            r.script is None,
            r.text@.len() == 0,
            r.pid is None,
            r.substitution_text@.len() == 0,
            !r.substitution,
            !r.group_leader,
            r.fds.redirects@.len() == 0,
    {
        CommandParen {
            script: None,
            text: Vec::new(),
            pid: None,
            substitution_text: Vec::new(),
            substitution: false,
            fds: FileDescs::new(),
            group_leader: false,
        }
    }

    /// Marks this group as the leader of its process group.
    pub fn set_group_leader(&mut self)
        ensures
            final(self).group_leader,
            final(self).script == old(self).script,
            final(self).text@ == old(self).text@,
            final(self).pid == old(self).pid,
            final(self).substitution == old(self).substitution,
    {
        self.group_leader = true;
    }

    /// Stores the raw bytes captured from the substitution pipe,
    /// trimming exactly one trailing newline.
    pub fn store_substitution(&mut self, raw: &Vec<char>)
        ensures
            final(self).substitution_text@ == trim_one_newline(raw@),
            final(self).script == old(self).script,
            final(self).text@ == old(self).text@,
            final(self).pid == old(self).pid,
            final(self).substitution == old(self).substitution,
            final(self).group_leader == old(self).group_leader,
    {
        let n = raw.len();
        if n > 0 && raw[n - 1] == '\n' {
            self.substitution_text = crate::chars::copy_range(raw, 0, n - 1);
            proof {
                assert(raw@.subrange(0, n - 1) =~= raw@.drop_last());
            }
        } else {
            self.substitution_text = crate::chars::clone_chars(raw);
        }
    }

    /// Parses the nested script of the group.
    fn eat_script(feeder: &mut Feeder, core: &mut ShellCore, ans: &mut CommandParen) -> (r: bool)
        ensures
            final(core).parse_effects_from(old(core)),
            final(feeder).total().len() <= old(feeder).total().len(),
            plain_statement_head(old(feeder).buf()) && old(feeder).buf()[0] != '('
                && !crate::elem_function::fn_def_matches(old(feeder).buf())
                && command_before_closer(old(feeder).buf()) ==> r && final(feeder).buf() == old(feeder).buf().skip(command_prefix_len(old(feeder).buf())),
            r ==> {
                &&& final(ans).script is Some
                &&& final(ans).text@ == old(ans).text@ + final(ans).script.unwrap().text@
                &&& final(ans).text@ + final(feeder).total() == old(ans).text@ + old(feeder).total()
                &&& old(ans).text@.is_prefix_of(final(ans).text@)
                &&& final(ans).pid == old(ans).pid
                &&& final(ans).substitution == old(ans).substitution
                &&& final(ans).group_leader == old(ans).group_leader
                &&& final(ans).substitution_text@ == old(ans).substitution_text@
                &&& final(ans).fds.redirects@ == old(ans).fds.redirects@
            },
            !r ==> *final(ans) == *old(ans),
        decreases feeder.total().len(), 11int,
    {
        match Script::parse(feeder, core, true) {
            Some(s) => {
                let ghost pre = *ans;
                append_chars(&mut ans.text, &s.text);
                ans.script = Some(s);
                proof {
                    assert(pre.text@.is_prefix_of(ans.text@)) by {
                        assert(ans.text@.take(pre.text@.len() as int) =~= pre.text@);
                    }
                    assert(ans.text@ + feeder.total() =~= pre.text@ + old(feeder).total());
                }
                true
            },
            None => false,
        }
    }

    /// Parses `( script )`, pushing a nesting marker around the nested
    /// parse and, outside substitution mode, greedily accepting trailing
    /// redirects. On failure the feeder is restored and the marker
    /// popped.
    pub fn parse(feeder: &mut Feeder, core: &mut ShellCore, substitution: bool) -> (r: Option<
        CommandParen,
    >)
        ensures
            final(core).parse_effects_from(old(core)),
            final(feeder).total().len() <= old(feeder).total().len(),
            group_matches(old(feeder).buf()) ==> r is Some,
            match r {
                Some(c) => {
                    &&& old(feeder).buf().len() > 0
                    &&& old(feeder).buf()[0] == '('
                    &&& c.text@ + final(feeder).total() == old(feeder).total()
                    &&& c.text@.len() >= 2
                    &&& c.script is Some
                    &&& (seq!['('] + c.script.unwrap().text@ + seq![')']).is_prefix_of(c.text@)
                    &&& (c.substitution || c.fds.redirects@.len() == 0) ==> c.text@ == seq!['(']
                        + c.script.unwrap().text@ + seq![')']
                    &&& c.substitution == substitution
                    &&& c.pid is None
                },
                None => final(feeder).same_state(old(feeder)),
            },
        decreases feeder.total().len(), 2int,
    {
        if !matches!(feeder.nth(0), Some('(')) {
            return None;
        }
        let backup = feeder.snapshot();
        let marker = {
            let mut p: Vec<char> = Vec::new();
            p.push('(');
            p
        };
        core.nest_push(marker);
        let mut ans = CommandParen::new();
        ans.substitution = substitution;
        ans.text = feeder.consume(1);
        proof {
            assert(ans.text@ + feeder.buf() =~= old(feeder).buf());
            assert(ans.text@ =~= seq!['(']);
            lemma_consume_total(*old(feeder), *feeder, ans.text@);
        }

        if !Self::eat_script(feeder, core, &mut ans) {
            core.nest_pop();
            proof {
                assert(old(core).nest@.push(marker).drop_last() =~= old(core).nest@);
                if group_matches(old(feeder).buf()) {
                    assert(false);
                }
            }
            feeder.rewind(backup);
            return None;
        }

        if matches!(feeder.nth(0), Some(')')) {
            let ghost t1 = *feeder;
            let c = feeder.consume(1);
            proof {
                assert(c@ + feeder.buf() =~= t1.buf());
                lemma_consume_total(t1, *feeder, c@);
                assert((ans.text@ + c@) + feeder.total() =~= ans.text@ + t1.total());
            }
            proof {
                assert(c@ =~= seq![')']);
            }
            let ghost st = ans.script.unwrap().text@;
            let ghost pre_text = ans.text@;
            append_chars(&mut ans.text, &c);
            proof {
                assert(pre_text == seq!['('] + st);
                assert(ans.text@ == pre_text + c@);
                assert(ans.text@ =~= seq!['('] + ans.script.unwrap().text@ + seq![')']);
                assert((seq!['('] + ans.script.unwrap().text@ + seq![')']).is_prefix_of(
                    ans.text@,
                ));
            }
        } else {
            core.nest_pop();
            proof {
                assert(old(core).nest@.push(marker).drop_last() =~= old(core).nest@);
                if group_matches(old(feeder).buf()) {
                    assert(feeder.buf()[0] == old(feeder).buf().skip(1)[command_prefix_len(
                        old(feeder).buf().skip(1),
                    )]);
                    assert(false);
                }
            }
            feeder.rewind(backup);
            return None;
        }

        if !substitution {
            loop
                invariant
                    ans.text@ + feeder.total() == old(feeder).total(),
                    ans.text@.len() >= 2,
                    ans.script is Some,
                    (seq!['('] + ans.script.unwrap().text@ + seq![')']).is_prefix_of(ans.text@),
                    ans.fds.redirects@.len() == 0 ==> ans.text@ == seq!['(']
                        + ans.script.unwrap().text@ + seq![')'],
                    ans.substitution == substitution,
                    ans.pid is None,
                ensures
                    ans.text@ + feeder.total() == old(feeder).total(),
                    ans.text@.len() >= 2,
                    ans.script is Some,
                    (seq!['('] + ans.script.unwrap().text@ + seq![')']).is_prefix_of(ans.text@),
                    ans.fds.redirects@.len() == 0 ==> ans.text@ == seq!['(']
                        + ans.script.unwrap().text@ + seq![')'],
                    ans.substitution == substitution,
                    ans.pid is None,
                decreases feeder.total().len(),
            {
                let before = feeder.snapshot();
                let ghost head = *feeder;
                let blanks = feeder.consume_blank();
                let ghost mid = *feeder;
                match Redirect::parse(feeder) {
                    Some(rd) => {
                        proof {
                            assert(blanks@ + mid.total() =~= head.total());
                            assert((ans.text@ + blanks@) + rd.text@ + feeder.total() =~= ans.text@
                                + head.total());
                        }
                        append_chars(&mut ans.text, &blanks);
                        append_chars(&mut ans.text, &rd.text);
                        ans.fds.redirects.push(rd);
                    },
                    None => {
                        feeder.rewind(before);
                        break ;
                    },
                }
            }
        }

        core.nest_pop();
        proof {
            assert(old(core).nest@.push(marker).drop_last() =~= old(core).nest@);
        }
        Some(ans)
    }
}

} // verus!
