use vstd::prelude::*;

use crate::chars::{append_chars, blank_run, is_blank_char, lemma_blank_run};
use crate::command_node::CommandNode;
use crate::feeder::{lemma_consume_total, Feeder};
use crate::operators::ControlOperator;
use crate::shell::ShellCore;

verus! {

/// One step of a forked child's descriptor setup: close an end, or
/// duplicate one onto a standard stream slot.
#[derive(Clone, Copy, Debug, PartialEq, Eq, Structural)]
pub enum FdOp {
    Close(i32),
    Dup2(i32, i32),
}

/// The close operations for stage `k`: every pipe end the stage does
/// not own. Stage `k` owns the read end of pipe `k - 1` and the write
/// end of pipe `k`.
pub open spec fn close_list(pipes: Seq<(i32, i32)>, k: int, j: int) -> Seq<FdOp>
    decreases pipes.len() - j,
{
    if j < 0 || j >= pipes.len() {
        Seq::<FdOp>::empty()
    } else {
        (if j == k - 1 {
            Seq::<FdOp>::empty()
        } else {
            seq![FdOp::Close(pipes[j].0)]
        }) + (if j == k {
            Seq::<FdOp>::empty()
        } else {
            seq![FdOp::Close(pipes[j].1)]
        }) + close_list(pipes, k, j + 1)
    }
}

/// The full descriptor plan for stage `k` of a pipeline with
/// `pipes.len() + 1` stages: close all non-owned ends, then duplicate
/// the owned read end onto standard input and the owned write end onto
/// standard output, closing each original after its duplication — so
/// that after setup the stage holds no descriptor to any pipe end not
/// adjacent to it.
pub open spec fn child_ops_spec(pipes: Seq<(i32, i32)>, k: int) -> Seq<FdOp> {
    close_list(pipes, k, 0) + (if k > 0 {
        seq![FdOp::Dup2(pipes[k - 1].0, 0), FdOp::Close(pipes[k - 1].0)]
    } else {
        Seq::<FdOp>::empty()
    }) + (if k < pipes.len() {
        seq![FdOp::Dup2(pipes[k].1, 1), FdOp::Close(pipes[k].1)]
    } else {
        Seq::<FdOp>::empty()
    })
}

/// Every close in `close_list(pipes, k, j0)` is present for each pipe
/// index at or after `j0`.
proof fn lemma_close_list_covers(pipes: Seq<(i32, i32)>, k: int, j0: int, j: int)
    requires
        0 <= j0 <= j < pipes.len(),
    ensures
        j != k - 1 ==> close_list(pipes, k, j0).contains(FdOp::Close(pipes[j].0)),
        j != k ==> close_list(pipes, k, j0).contains(FdOp::Close(pipes[j].1)),
    decreases j - j0,
{
    if j0 == j {
        if j != k - 1 {
            assert(close_list(pipes, k, j0)[0] == FdOp::Close(pipes[j].0));
        }
        if j != k {
            let head: Seq<FdOp> = if j == k - 1 {
                Seq::<FdOp>::empty()
            } else {
                seq![FdOp::Close(pipes[j].0)]
            };
            assert(close_list(pipes, k, j0)[head.len() as int] == FdOp::Close(pipes[j].1));
        }
    } else {
        lemma_close_list_covers(pipes, k, j0 + 1, j);
        let head = (if j0 == k - 1 {
            Seq::<FdOp>::empty()
        } else {
            seq![FdOp::Close(pipes[j0].0)]
        }) + (if j0 == k {
            Seq::<FdOp>::empty()
        } else {
            seq![FdOp::Close(pipes[j0].1)]
        });
        assert(close_list(pipes, k, j0) =~= head + close_list(pipes, k, j0 + 1));
        assert forall|x: FdOp|
            close_list(pipes, k, j0 + 1).contains(x) implies close_list(
            pipes,
            k,
            j0,
        ).contains(x) by {
            let w = choose|w: int|
                0 <= w < close_list(pipes, k, j0 + 1).len() && #[trigger] close_list(
                    pipes,
                    k,
                    j0 + 1,
                )[w] == x;
            assert(close_list(pipes, k, j0)[head.len() + w] == x);
        }
    }
}

/// Pipeline fd isolation: the plan for stage `k` closes every pipe end
/// that is not adjacent to the stage, and (by the plan's tail) the two
/// adjacent ends are moved onto standard input and output and their
/// originals closed.
pub proof fn lemma_stage_isolation(pipes: Seq<(i32, i32)>, k: int, j: int)
    requires
        0 <= k <= pipes.len(),
        0 <= j < pipes.len(),
    ensures
        j != k - 1 ==> child_ops_spec(pipes, k).contains(FdOp::Close(pipes[j].0)),
        j != k ==> child_ops_spec(pipes, k).contains(FdOp::Close(pipes[j].1)),
{
    lemma_close_list_covers(pipes, k, 0, j);
    assert forall|x: FdOp|
        close_list(pipes, k, 0).contains(x) implies child_ops_spec(pipes, k).contains(x) by {
        let w = choose|w: int|
            0 <= w < close_list(pipes, k, 0).len() && #[trigger] close_list(pipes, k, 0)[w] == x;
        assert(child_ops_spec(pipes, k)[w] == x);
    }
}

/// The descriptor plan for one stage, as executable data for the
/// driver to apply in the forked child, in order.
pub fn child_fd_ops(pipes: &Vec<(i32, i32)>, k: usize) -> (r: Vec<FdOp>)
    requires
        k <= pipes@.len(),
    ensures
        r@ == child_ops_spec(pipes@, k as int),
{
    let mut r: Vec<FdOp> = Vec::new();
    let n = pipes.len();
    let mut j: usize = 0;
    proof {
        assert(r@ =~= close_list(pipes@, k as int, 0).take(0));
    }
    while j < n
        invariant
            j <= n,
            n == pipes@.len(),
            k <= n,
            close_list(pipes@, k as int, 0) =~= r@ + close_list(pipes@, k as int, j as int),
        decreases n - j,
    {
        let ghost pre = r@;
        let ghost head = (if j == k - 1 {
            Seq::<FdOp>::empty()
        } else {
            seq![FdOp::Close(pipes@[j as int].0)]
        }) + (if j == k {
            Seq::<FdOp>::empty()
        } else {
            seq![FdOp::Close(pipes@[j as int].1)]
        });
        if !(k >= 1 && j == k - 1) {
            r.push(FdOp::Close(pipes[j].0));
        }
        if j != k {
            r.push(FdOp::Close(pipes[j].1));
        }
        proof {
            assert(r@ =~= pre + head);
            assert(close_list(pipes@, k as int, j as int) =~= head + close_list(
                pipes@,
                k as int,
                j + 1,
            ));
            assert(close_list(pipes@, k as int, 0) =~= r@ + close_list(pipes@, k as int, j + 1));
        }
        j = j + 1;
    }
    if k > 0 {
        r.push(FdOp::Dup2(pipes[k - 1].0, 0));
        r.push(FdOp::Close(pipes[k - 1].0));
    }
    if k < n {
        r.push(FdOp::Dup2(pipes[k].1, 1));
        r.push(FdOp::Close(pipes[k].1));
    }
    proof {
        assert(r@ =~= child_ops_spec(pipes@, k as int));
    }
    r
}

/// Whether a negated simple command stands at the head of `s`: `!`,
/// optional blanks, and a plain command.
pub open spec fn negated_command_head(s: Seq<char>) -> bool {
    &&& s.len() > 0
    &&& s[0] == '!'
    &&& s.skip(1).skip(blank_run(s.skip(1), 0)).len() > 0
    &&& s.skip(1).skip(blank_run(s.skip(1), 0))[0] != '('
    &&& crate::elem_command::command_matches(s.skip(1).skip(blank_run(s.skip(1), 0)))
}

/// The process ids of the already-forked commands, in stage order.
pub open spec fn pids_view(cmds: Seq<CommandNode>) -> Seq<i32>
    decreases cmds.len(),
{
    if cmds.len() == 0 {
        Seq::<i32>::empty()
    } else {
        pids_view(cmds.drop_last()) + match cmds.last().pid_of() {
            Some(p) => seq![p],
            None => Seq::<i32>::empty(),
        }
    }
}

/// An ordered sequence of commands connected by `|`, executed as one
/// process group, with a leading-negation flag and a background flag.
pub struct Pipeline {
    pub commands: Vec<CommandNode>,
    pub text: Vec<char>,
    pub is_bg: bool,
    pub not_flag: bool,
}

impl Pipeline {
    pub fn new() -> (r: Pipeline)
        ensures
            r.commands@.len() == 0,
            r.text@.len() == 0,
            !r.is_bg,
            !r.not_flag,
    {
        Pipeline { commands: Vec::new(), text: Vec::new(), is_bg: false, not_flag: false }
    }

    /// Whether every stage runs without a fork and the pipeline is not
    /// backgrounded; such a pipeline can be executed synchronously.
    pub open spec fn is_sync(&self) -> bool {
        &&& !self.is_bg
        &&& self.commands@.len() == 1
        &&& self.commands@[0].is_sync()
    }

    /// The exit status that executing this (synchronous) pipeline sets:
    /// its single stage's status, flipped by a leading `!`.
    pub open spec fn sync_status(&self) -> Seq<char>
        recommends
            self.is_sync(),
    {
        if self.not_flag {
            crate::shell::flip_status(self.commands@[0].sync_status())
        } else {
            self.commands@[0].sync_status()
        }
    }

    /// Executes a synchronous pipeline: runs its arithmetic stage and
    /// applies the leading negation to the resulting status. No process
    /// is forked and no wait occurs.
    pub fn exec(&mut self, core: &mut ShellCore)
        requires
            old(self).is_sync(),
        ensures
            final(core).exit_status() == old(self).sync_status(),
            forall|m: Seq<char>|
                m != crate::shell::status_name() ==> #[trigger] crate::shell::lookup(
                    final(core).vars@,
                    m,
                ) == crate::shell::lookup(old(core).vars@, m),
            final(core).same_except_vars(old(core)),
            final(self).is_sync(),
            final(self).sync_status() == old(self).sync_status(),
            final(self).text@ == old(self).text@,
            final(self).not_flag == old(self).not_flag,
            final(self).is_bg == old(self).is_bg,
            final(self).commands@.len() == old(self).commands@.len(),
    {
        let c0 = self.commands.remove(0);
        match c0 {
            CommandNode::DoubleParen(mut c) => {
                c.exec(core);
                let updated = CommandNode::DoubleParen(c);
                self.commands.insert(0, updated);
                proof {
                    assert(self.commands@[0] == updated);
                }
            },
            other => {
                proof {
                    assert(false);
                }
                self.commands.insert(0, other);
            },
        }
        if self.not_flag {
            core.reverse_exit_status();
        }
    }

    /// Connects each stage's pipe endpoints: stage `k` writes to pipe
    /// `k` and reads from pipe `k - 1`, so stage `k`'s standard output
    /// is connected to stage `k + 1`'s standard input for every
    /// adjacent pair.
    pub fn set_pipes(&mut self, pipes: &Vec<(i32, i32)>)
        requires
            pipes@.len() + 1 == old(self).commands@.len(),
        ensures
            final(self).commands@.len() == old(self).commands@.len(),
            forall|k: int|
                0 <= k < final(self).commands@.len() ==> (#[trigger] final(self).commands@[k].fds_of()) == (
                    if k < pipes@.len() {
                        pipes@[k].0
                    } else {
                        (-1) as i32
                    },
                    if k < pipes@.len() {
                        pipes@[k].1
                    } else {
                        (-1) as i32
                    },
                    if k > 0 {
                        pipes@[k - 1].0
                    } else {
                        (-1) as i32
                    },
                ),
            forall|k: int|
                0 <= k < final(self).commands@.len() ==> (#[trigger] final(self).commands@[k].text_view()) == old(self).commands@[k].text_view(),
            final(self).text@ == old(self).text@,
            final(self).is_bg == old(self).is_bg,
            final(self).not_flag == old(self).not_flag,
    {
        let n = self.commands.len();
        let ghost orig = *self;
        proof {
            assert(orig == *old(self));
        }
        let mut k: usize = 0;
        while k < n
            invariant
                orig == *old(self),
                k <= n,
                n == self.commands@.len(),
                n == old(self).commands@.len(),
                pipes@.len() + 1 == n,
                self.text@ == old(self).text@,
                self.is_bg == old(self).is_bg,
                self.not_flag == old(self).not_flag,
                forall|j: int| k <= j < n ==> self.commands@[j] == old(self).commands@[j],
                forall|j: int|
                    0 <= j < k ==> (#[trigger] self.commands@[j].fds_of()) == (
                        if j < pipes@.len() {
                            pipes@[j].0
                        } else {
                            (-1) as i32
                        },
                        if j < pipes@.len() {
                            pipes@[j].1
                        } else {
                            (-1) as i32
                        },
                        if j > 0 {
                            pipes@[j - 1].0
                        } else {
                            (-1) as i32
                        },
                    ),
                forall|j: int|
                    0 <= j < k ==> (#[trigger] self.commands@[j].text_view()) == old(self).commands@[j].text_view(),
            decreases n - k,
        {
            let pin: i32 = if k < pipes.len() {
                pipes[k].0
            } else {
                -1
            };
            let pout: i32 = if k < pipes.len() {
                pipes[k].1
            } else {
                -1
            };
            let pprev: i32 = if k > 0 {
                pipes[k - 1].0
            } else {
                -1
            };
            let ghost pre = self.commands@;
            let mut c = self.commands.remove(k);
            c.set_pipe(pin, pout, pprev);
            self.commands.insert(k, c);
            proof {
                assert(self.commands@ =~= pre.update(k as int, self.commands@[k as int]));
                assert(self.commands@[k as int].text_view() == old(self).commands@[
                    k as int].text_view());
            }
            k = k + 1;
        }
    }

    /// The process ids of the stages that have been forked.
    pub fn pids(&self) -> (r: Vec<i32>)
        ensures
            r@ == pids_view(self.commands@),
    {
        let mut r: Vec<i32> = Vec::new();
        let mut i: usize = 0;
        proof {
            assert(self.commands@.take(0) =~= Seq::<CommandNode>::empty());
        }
        while i < self.commands.len()
            invariant
                i <= self.commands@.len(),
                r@ == pids_view(self.commands@.take(i as int)),
            decreases self.commands@.len() - i,
        {
            proof {
                assert(self.commands@.take((i + 1) as int).drop_last() =~= self.commands@.take(
                    i as int,
                ));
                assert(self.commands@.take((i + 1) as int).last() == self.commands@[i as int]);
            }
            match self.commands[i].get_pid() {
                Some(p) => {
                    r.push(p);
                    proof {
                        assert(r@ =~= pids_view(self.commands@.take((i + 1) as int)));
                    }
                },
                None => {
                    proof {
                        assert(r@ =~= pids_view(self.commands@.take((i + 1) as int)));
                    }
                },
            }
            i = i + 1;
        }
        proof {
            assert(self.commands@.take(self.commands@.len() as int) =~= self.commands@);
        }
        r
    }

    /// One or more commands separated by `|`, with a leading `!`
    /// (negation) and a trailing `&` (background). A pipe whose next
    /// command is not yet parseable is left unconsumed and the pipeline
    /// ends before it. On failure the feeder is restored to its
    /// pre-call state.
    pub fn parse(feeder: &mut Feeder, core: &mut ShellCore) -> (r: Option<Pipeline>)
        ensures
            final(core).parse_effects_from(old(core)),
            final(feeder).total().len() <= old(feeder).total().len(),
            old(feeder).buf().len() > 0 && old(feeder).buf()[0] != '!' && old(feeder).buf()[0]
                != '(' && crate::elem_command::command_matches(old(feeder).buf()) ==> r is Some,
            old(feeder).buf().len() > 0 && old(feeder).buf()[0] != '!' && old(feeder).buf()[0]
                != '(' && crate::elem_command::command_before_closer(old(feeder).buf())
                ==> r is Some && final(feeder).buf() == old(feeder).buf().skip(
                crate::elem_command::command_prefix_len(old(feeder).buf()),
            ),
            crate::paren::group_matches(old(feeder).buf()) ==> r is Some,
            negated_command_head(old(feeder).buf()) ==> r is Some,
            match r {
                Some(p) => {
                    &&& p.commands@.len() >= 1
                    &&& p.text@ + final(feeder).total() == old(feeder).total()
                    &&& p.text@.len() > 0
                    &&& (p.not_flag ==> p.text@[0] == '!')
                    &&& (p.is_bg ==> p.text@.last() == '&')
                },
                None => final(feeder).same_state(old(feeder)),
            },
        decreases feeder.total().len(), 6int,
    {
        if feeder.len() == 0 {
            return None;
        }
        let backup = feeder.snapshot();
        let mut ans = Pipeline::new();
        let mut text: Vec<char> = Vec::new();

        if matches!(feeder.nth(0), Some('!')) {
            ans.not_flag = true;
            let c = feeder.consume(1);
            let ghost m = *feeder;
            append_chars(&mut text, &c);
            let b = feeder.consume_blank();
            append_chars(&mut text, &b);
            proof {
                assert(c@ + m.buf() =~= old(feeder).buf());
                assert(text@ =~= c@ + b@);
                assert(text@ + feeder.buf() =~= old(feeder).buf());
                lemma_consume_total(*old(feeder), *feeder, text@);
                assert(m.buf() =~= old(feeder).buf().skip(1));
                assert forall|k: int| 0 <= k < b@.len() implies is_blank_char(
                    #[trigger] m.buf()[k],
                ) by {
                    assert(b@[k] == m.buf()[k]);
                }
                assert(b@.len() < m.buf().len() ==> !is_blank_char(m.buf()[b@.len() as int]))
                    by {
                    if feeder.buf().len() > 0 {
                        assert(feeder.buf()[0] == m.buf()[b@.len() as int]);
                    }
                }
                lemma_blank_run(m.buf(), 0, b@.len() as int);
                assert(feeder.buf() =~= m.buf().skip(b@.len() as int));
            }
        }

        let ghost closer_forced = old(feeder).buf().len() > 0 && old(feeder).buf()[0] != '!'
            && old(feeder).buf()[0] != '(' && crate::elem_command::command_before_closer(
            old(feeder).buf(),
        );
        let ghost t0 = *feeder;
        match CommandNode::parse(feeder, core) {
            Some(c) => {
                let t = c.get_text();
                proof {
                    assert((text@ + t@) + feeder.total() =~= text@ + t0.total());
                }
                append_chars(&mut text, &t);
                ans.commands.push(c);
            },
            None => {
                proof {
                    if negated_command_head(old(feeder).buf()) {
                        assert(false);
                    }
                }
                feeder.rewind(backup);
                return None;
            },
        }

        loop
            invariant
                text@ + feeder.total() == old(feeder).total(),
                core.parse_effects_from(old(core)),
                text@.len() > 0,
                ans.commands@.len() > 0,
                !ans.is_bg,
                ans.not_flag ==> text@[0] == '!',
                closer_forced == (old(feeder).buf().len() > 0 && old(feeder).buf()[0] != '!'
                    && old(feeder).buf()[0] != '(' && crate::elem_command::command_before_closer(
                    old(feeder).buf(),
                )),
                closer_forced ==> feeder.buf() == old(feeder).buf().skip(
                    crate::elem_command::command_prefix_len(old(feeder).buf()),
                ),
            ensures
                text@ + feeder.total() == old(feeder).total(),
                core.parse_effects_from(old(core)),
                text@.len() > 0,
                ans.commands@.len() > 0,
                !ans.is_bg,
                ans.not_flag ==> text@[0] == '!',
                closer_forced ==> feeder.buf() == old(feeder).buf().skip(
                    crate::elem_command::command_prefix_len(old(feeder).buf()),
                ),
            decreases feeder.total().len(),
        {
            let seg = feeder.snapshot();
            let ghost seg_text = text@;
            let seg_len = text.len();
            let ghost tb0 = *feeder;
            let b = feeder.consume_blank();
            proof {
                assert(b@ + feeder.buf() =~= tb0.buf());
                lemma_consume_total(tb0, *feeder, b@);
                assert((text@ + b@) + feeder.total() =~= text@ + tb0.total());
            }
            proof {
                if closer_forced {
                    assert(b@.len() == 0) by {
                        if b@.len() > 0 {
                            assert(is_blank_char(b@[0]));
                            assert(b@[0] == tb0.buf()[0]);
                        }
                    }
                    assert(feeder.buf() == tb0.buf());
                    assert(feeder.buf()[0] == ')');
                }
            }
            append_chars(&mut text, &b);
            let (n, op) = feeder.scanner_control_op();
            if !(n == 1 && matches!(op, Some(ControlOperator::Pipe))) {
                break ;
            }
            proof {
                if closer_forced {
                    assert(false);
                }
            }
            let ghost t2 = *feeder;
            let p = feeder.consume(1);
            proof {
                assert(p@ + feeder.buf() =~= t2.buf());
                lemma_consume_total(t2, *feeder, p@);
                assert((text@ + p@) + feeder.total() =~= text@ + t2.total());
            }
            append_chars(&mut text, &p);
            let ghost t3 = *feeder;
            let w = feeder.request_next_line();
            proof {
                assert((text@ + w@) + feeder.total() =~= text@ + t3.total());
            }
            append_chars(&mut text, &w);
            let ghost t4 = *feeder;
            match CommandNode::parse(feeder, core) {
                Some(c) => {
                    let t = c.get_text();
                    proof {
                        assert((text@ + t@) + feeder.total() =~= text@ + t4.total());
                    }
                    append_chars(&mut text, &t);
                    ans.commands.push(c);
                },
                None => {
                    // the pipe has no parseable continuation: leave it
                    // unconsumed and end the pipeline before it
                    feeder.rewind(seg);
                    text.truncate(seg_len);
                    proof {
                        assert(text@ =~= seg_text);
                    }
                    break ;
                },
            }
        }

        let (n2, op2) = feeder.scanner_control_op();
        if n2 == 1 && matches!(op2, Some(ControlOperator::BgAnd)) {
            ans.is_bg = true;
            let ghost t5 = *feeder;
            let a = feeder.consume(1);
            proof {
                assert(a@ + feeder.buf() =~= t5.buf());
                lemma_consume_total(t5, *feeder, a@);
                assert((text@ + a@) + feeder.total() =~= text@ + t5.total());
                assert(a@[0] == t5.buf()[0]);
                assert(t5.buf()[0] == '&');
            }
            append_chars(&mut text, &a);
            proof {
                assert(text@.last() == '&');
            }
        }
        ans.text = text;
        Some(ans)
    }
}

} // verus!
