use vstd::prelude::*;

use crate::chars::{append_chars, clone_chars};
use crate::feeder::{lemma_consume_total, Feeder};
use crate::operators::ControlOperator;
use crate::pipeline::Pipeline;
use crate::shell::ShellCore;

verus! {

/// Whether the pipeline at the current position is skipped: a pipeline
/// after `||` is skipped on success, one after `&&` on failure.
pub open spec fn skip_pipeline(status_ok: bool, eop: ControlOperator) -> bool {
    (status_ok && eop == ControlOperator::Or) || (!status_ok && eop == ControlOperator::And)
}

/// The exit status after running a job's pipelines from position `i`
/// on, with `eop` the operator recorded before position `i` and `st`
/// the current status.
pub open spec fn job_final(
    pls: Seq<Pipeline>,
    ends: Seq<ControlOperator>,
    i: int,
    eop: ControlOperator,
    st: Seq<char>,
) -> Seq<char>
    decreases pls.len() - i,
{
    if i < 0 || i >= pls.len() {
        st
    } else {
        job_final(
            pls,
            ends,
            i + 1,
            if i < ends.len() {
                ends[i]
            } else {
                ControlOperator::NoChar
            },
            if skip_pipeline(st == seq!['0'], eop) {
                st
            } else {
                pls[i].sync_status()
            },
        )
    }
}

/// Which pipelines actually run, from position `i` on.
pub open spec fn job_runs(
    pls: Seq<Pipeline>,
    ends: Seq<ControlOperator>,
    i: int,
    eop: ControlOperator,
    st: Seq<char>,
) -> Seq<bool>
    decreases pls.len() - i,
{
    if i < 0 || i >= pls.len() {
        Seq::<bool>::empty()
    } else {
        seq![!skip_pipeline(st == seq!['0'], eop)] + job_runs(
            pls,
            ends,
            i + 1,
            if i < ends.len() {
                ends[i]
            } else {
                ControlOperator::NoChar
            },
            if skip_pipeline(st == seq!['0'], eop) {
                st
            } else {
                pls[i].sync_status()
            },
        )
    }
}

/// `job_runs` yields one flag per remaining pipeline.
pub proof fn lemma_job_runs_len(
    pls: Seq<Pipeline>,
    ends: Seq<ControlOperator>,
    i: int,
    eop: ControlOperator,
    st: Seq<char>,
)
    requires
        0 <= i <= pls.len(),
    ensures
        job_runs(pls, ends, i, eop, st).len() == pls.len() - i,
    decreases pls.len() - i,
{
    if i < pls.len() {
        lemma_job_runs_len(
            pls,
            ends,
            i + 1,
            if i < ends.len() {
                ends[i]
            } else {
                ControlOperator::NoChar
            },
            if skip_pipeline(st == seq!['0'], eop) {
                st
            } else {
                pls[i].sync_status()
            },
        );
    }
}

/// Short-circuit sequencing of a two-pipeline job. After `&&`, the
/// second pipeline never runs when the first fails; after `||`, it
/// never runs when the first succeeds, and runs exactly when the first
/// fails; the final status is that of the last pipeline that ran.
pub proof fn lemma_short_circuit(
    p0: Pipeline,
    p1: Pipeline,
    op: ControlOperator,
    st0: Seq<char>,
)
    ensures
        op == ControlOperator::And && p0.sync_status() != seq!['0'] ==> job_runs(
            seq![p0, p1],
            seq![op, ControlOperator::NoChar],
            0,
            ControlOperator::NoChar,
            st0,
        ) == seq![true, false] && job_final(
            seq![p0, p1],
            seq![op, ControlOperator::NoChar],
            0,
            ControlOperator::NoChar,
            st0,
        ) == p0.sync_status(),
        op == ControlOperator::Or && p0.sync_status() == seq!['0'] ==> job_runs(
            seq![p0, p1],
            seq![op, ControlOperator::NoChar],
            0,
            ControlOperator::NoChar,
            st0,
        ) == seq![true, false] && job_final(
            seq![p0, p1],
            seq![op, ControlOperator::NoChar],
            0,
            ControlOperator::NoChar,
            st0,
        ) == p0.sync_status(),
        op == ControlOperator::Or && p0.sync_status() != seq!['0'] ==> job_runs(
            seq![p0, p1],
            seq![op, ControlOperator::NoChar],
            0,
            ControlOperator::NoChar,
            st0,
        ) == seq![true, true] && job_final(
            seq![p0, p1],
            seq![op, ControlOperator::NoChar],
            0,
            ControlOperator::NoChar,
            st0,
        ) == p1.sync_status(),
{
    let pls = seq![p0, p1];
    let ends = seq![op, ControlOperator::NoChar];
    reveal_with_fuel(job_runs, 4);
    reveal_with_fuel(job_final, 4);
    assert(pls.len() == 2);
    assert(pls[0] == p0);
    assert(pls[1] == p1);
    assert(ends[0] == op);
    if op == ControlOperator::And && p0.sync_status() != seq!['0'] {
        assert(job_runs(pls, ends, 0, ControlOperator::NoChar, st0) =~= seq![true, false]);
    }
    if op == ControlOperator::Or && p0.sync_status() == seq!['0'] {
        assert(job_runs(pls, ends, 0, ControlOperator::NoChar, st0) =~= seq![true, false]);
    }
    if op == ControlOperator::Or && p0.sync_status() != seq!['0'] {
        assert(job_runs(pls, ends, 0, ControlOperator::NoChar, st0) =~= seq![true, true]);
    }
}

/// How a backgrounded job is dispatched: a whole `&&`/`||` chain is
/// forked once as a unit; a single pipeline is backgrounded directly.
#[derive(Clone, Copy, Debug, PartialEq, Eq, Structural)]
pub enum BgDispatch {
    Chain,
    Single,
}

/// An ordered sequence of pipelines with the control operator (`&&`,
/// `||`, or the `NoChar` sentinel) recorded after each one; the unit of
/// top-level sequencing.
pub struct Job {
    pub pipelines: Vec<Pipeline>,
    pub pipeline_ends: Vec<ControlOperator>,
    pub text: Vec<char>,
}

impl Job {
    /// Structural invariant of a parsed job: one recorded operator per
    /// pipeline, each `And`, `Or` or the sentinel.
    pub open spec fn wf(&self) -> bool {
        &&& self.pipeline_ends@.len() == self.pipelines@.len()
        &&& forall|i: int|
            0 <= i < self.pipeline_ends@.len() ==> (#[trigger] self.pipeline_ends@[i]
                == ControlOperator::And || self.pipeline_ends@[i] == ControlOperator::Or
                || self.pipeline_ends@[i] == ControlOperator::NoChar)
    }

    pub fn new() -> (r: Job)
        ensures
            r.pipelines@.len() == 0,
            r.pipeline_ends@.len() == 0,
            r.text@.len() == 0,
    {
        Job { pipelines: Vec::new(), pipeline_ends: Vec::new(), text: Vec::new() }
    }

    /// Tries to parse one more pipeline into `ans`.
    pub fn eat_pipeline(feeder: &mut Feeder, core: &mut ShellCore, ans: &mut Job) -> (r: bool)
        ensures
            final(core).parse_effects_from(old(core)),
            final(feeder).total().len() <= old(feeder).total().len(),
            final(ans).pipeline_ends@ == old(ans).pipeline_ends@,
            old(feeder).buf().len() > 0 && old(feeder).buf()[0] != '!' && old(feeder).buf()[0]
                != '(' && crate::elem_command::command_matches(old(feeder).buf()) ==> r,
            old(feeder).buf().len() > 0 && old(feeder).buf()[0] != '!' && old(feeder).buf()[0]
                != '(' && crate::elem_command::command_before_closer(old(feeder).buf()) ==> r
                && final(feeder).buf() == old(feeder).buf().skip(
                crate::elem_command::command_prefix_len(old(feeder).buf()),
            ),
            crate::paren::group_matches(old(feeder).buf()) ==> r,
            crate::pipeline::negated_command_head(old(feeder).buf()) ==> r,
            r ==> {
                &&& final(ans).pipelines@.len() == old(ans).pipelines@.len() + 1
                &&& final(ans).pipelines@ == old(ans).pipelines@.push(
                    final(ans).pipelines@.last(),
                )
                &&& final(ans).pipelines@.last().text@.len() > 0
                &&& final(ans).pipelines@.last().commands@.len() >= 1
                &&& final(ans).text@ == old(ans).text@ + final(ans).pipelines@.last().text@
                &&& final(ans).pipelines@.last().text@ + final(feeder).total() == old(
                    feeder,
                ).total()
            },
            !r ==> *final(ans) == *old(ans) && final(feeder).same_state(old(feeder)),
        decreases feeder.total().len(), 7int,
    {
        match Pipeline::parse(feeder, core) {
            Some(p) => {
                append_chars(&mut ans.text, &p.text);
                let ghost pv = p;
                ans.pipelines.push(p);
                proof {
                    assert(ans.pipelines@ =~= old(ans).pipelines@.push(pv));
                }
                true
            },
            None => false,
        }
    }

    /// Records the operator that follows a pipeline: consumes an `&&` or
    /// `||` and reports true, or pushes the sentinel and reports false.
    pub fn eat_pipeline_end(feeder: &mut Feeder, ans: &mut Job) -> (r: bool)
        ensures
            final(ans).pipelines@ == old(ans).pipelines@,
            r == (crate::feeder::control_op_kind(old(feeder).buf()) == Some(ControlOperator::And)
                || crate::feeder::control_op_kind(old(feeder).buf()) == Some(
                ControlOperator::Or,
            )),
            r ==> {
                &&& final(ans).pipeline_ends@ == old(ans).pipeline_ends@.push(
                    crate::feeder::control_op_kind(old(feeder).buf()).unwrap(),
                )
                &&& final(ans).text@ + final(feeder).total() == old(ans).text@ + old(
                    feeder,
                ).total()
                &&& final(ans).text@.len() == old(ans).text@.len() + 2
                &&& final(ans).text@.take(old(ans).text@.len() as int) == old(ans).text@
                &&& final(feeder).src() == old(feeder).src()
                &&& final(feeder).feed_stop == old(feeder).feed_stop
            },
            !r ==> {
                &&& final(ans).pipeline_ends@ == old(ans).pipeline_ends@.push(
                    ControlOperator::NoChar,
                )
                &&& final(ans).text@ == old(ans).text@
                &&& final(feeder).same_state(old(feeder))
            },
    {
        let (n, op) = feeder.scanner_control_op();
        match op {
            Some(ControlOperator::And) => {
                ans.pipeline_ends.push(ControlOperator::And);
                let c = feeder.consume(n);
                proof {
                    assert(c@ + feeder.buf() =~= old(feeder).buf());
                    lemma_consume_total(*old(feeder), *feeder, c@);
                    assert((old(ans).text@ + c@) + feeder.total() =~= old(ans).text@ + old(
                        feeder,
                    ).total());
                }
                append_chars(&mut ans.text, &c);
                proof {
                    assert(ans.text@.take(old(ans).text@.len() as int) =~= old(ans).text@);
                }
                true
            },
            Some(ControlOperator::Or) => {
                ans.pipeline_ends.push(ControlOperator::Or);
                let c = feeder.consume(n);
                proof {
                    assert(c@ + feeder.buf() =~= old(feeder).buf());
                    lemma_consume_total(*old(feeder), *feeder, c@);
                    assert((old(ans).text@ + c@) + feeder.total() =~= old(ans).text@ + old(
                        feeder,
                    ).total());
                }
                append_chars(&mut ans.text, &c);
                proof {
                    assert(ans.text@.take(old(ans).text@.len() as int) =~= old(ans).text@);
                }
                true
            },
            _ => {
                ans.pipeline_ends.push(ControlOperator::NoChar);
                false
            },
        }
    }

    /// Whether every pipeline of this job can run synchronously.
    pub open spec fn all_sync(&self) -> bool {
        forall|k: int| 0 <= k < self.pipelines@.len() ==> (#[trigger] self.pipelines@[k]).is_sync()
    }

    /// Executable form of the skip rule: the decision the driver asks
    /// before dispatching each pipeline of a job.
    pub fn should_skip(status_ok: bool, eop: ControlOperator) -> (r: bool)
        ensures
            r == skip_pipeline(status_ok, eop),
    {
        (status_ok && matches!(eop, ControlOperator::Or)) || (!status_ok && matches!(
            eop,
            ControlOperator::And,
        ))
    }

    /// Runs a fully synchronous job: pipelines in order, each skipped or
    /// run by the short-circuit rule, the exit status threaded through.
    /// A pipeline that the rule skips is left untouched.
    pub fn exec(&mut self, core: &mut ShellCore)
        requires
            old(self).wf(),
            old(self).all_sync(),
        ensures
            final(core).exit_status() == job_final(
                old(self).pipelines@,
                old(self).pipeline_ends@,
                0,
                ControlOperator::NoChar,
                old(core).exit_status(),
            ),
            forall|m: Seq<char>|
                m != crate::shell::status_name() ==> #[trigger] crate::shell::lookup(
                    final(core).vars@,
                    m,
                ) == crate::shell::lookup(old(core).vars@, m),
            final(core).same_except_vars(old(core)),
            final(self).pipelines@.len() == old(self).pipelines@.len(),
            final(self).pipeline_ends@ == old(self).pipeline_ends@,
            final(self).text@ == old(self).text@,
            forall|j: int|
                0 <= j < old(self).pipelines@.len() && !(#[trigger] job_runs(
                    old(self).pipelines@,
                    old(self).pipeline_ends@,
                    0,
                    ControlOperator::NoChar,
                    old(core).exit_status(),
                )[j]) ==> final(self).pipelines@[j] == old(self).pipelines@[j],
    {
        let ghost pls0 = self.pipelines@;
        let ghost ends0 = self.pipeline_ends@;
        let ghost st0 = core.exit_status();
        let ghost rt = job_runs(pls0, ends0, 0, ControlOperator::NoChar, st0);
        proof {
            lemma_job_runs_len(pls0, ends0, 0, ControlOperator::NoChar, st0);
            assert(rt.skip(0) =~= rt);
        }
        let n = self.pipelines.len();
        let mut i: usize = 0;
        let mut eop = ControlOperator::NoChar;
        while i < n
            invariant
                i <= n,
                n == pls0.len(),
                self.pipelines@.len() == n,
                self.pipeline_ends@ == ends0,
                self.text@ == old(self).text@,
                old(self).pipeline_ends@ == ends0,
                ends0.len() == n,
                rt.len() == n,
                forall|k: int| 0 <= k < n ==> (#[trigger] pls0[k]).is_sync(),
                forall|k: int|
                    0 <= k < ends0.len() ==> (#[trigger] ends0[k] == ControlOperator::And
                        || ends0[k] == ControlOperator::Or || ends0[k]
                        == ControlOperator::NoChar),
                forall|j: int| i <= j < n ==> self.pipelines@[j] == pls0[j],
                forall|j: int| 0 <= j < i && !rt[j] ==> self.pipelines@[j] == pls0[j],
                job_final(pls0, ends0, i as int, eop, core.exit_status()) == job_final(
                    pls0,
                    ends0,
                    0,
                    ControlOperator::NoChar,
                    st0,
                ),
                job_runs(pls0, ends0, i as int, eop, core.exit_status()) == rt.skip(i as int),
                forall|m: Seq<char>|
                    m != crate::shell::status_name() ==> #[trigger] crate::shell::lookup(
                        core.vars@,
                        m,
                    ) == crate::shell::lookup(old(core).vars@, m),
                core.same_except_vars(old(core)),
            decreases n - i,
        {
            let ghost st_pre = core.exit_status();
            let ok = core.is_success();
            proof {
                assert(job_runs(pls0, ends0, i as int, eop, st_pre) == seq![
                    !skip_pipeline(st_pre == seq!['0'], eop)
                ] + job_runs(
                    pls0,
                    ends0,
                    i + 1,
                    ends0[i as int],
                    if skip_pipeline(st_pre == seq!['0'], eop) {
                        st_pre
                    } else {
                        pls0[i as int].sync_status()
                    },
                ));
                assert(rt.skip(i as int)[0] == rt[i as int]);
                assert(rt.skip(i as int).drop_first() =~= rt.skip(i + 1));
            }
            if !Job::should_skip(ok, eop) {
                let mut p = self.pipelines.remove(i);
                let ghost pre = self.pipelines@;
                proof {
                    assert(p == pls0[i as int]);
                }
                p.exec(core);
                self.pipelines.insert(i, p);
                proof {
                    assert(self.pipelines@ =~= pre.insert(i as int, p));
                }
            }
            eop = self.pipeline_ends[i];
            i = i + 1;
        }
        proof {
            assert(rt.skip(n as int).len() == 0);
        }
    }

    /// Registers the dispatched pipeline at `pos` with the job table: a
    /// background pipeline is stored without blocking (its entry is
    /// immediately visible and no wait is owed); a foreground pipeline
    /// becomes the foreground job and the caller must wait on it.
    pub fn set_job_and_wait(&self, pos: usize, core: &mut ShellCore) -> (must_wait: bool)
        requires
            pos < self.pipelines@.len(),
        ensures
            must_wait == !self.pipelines@[pos as int].is_bg,
            self.pipelines@[pos as int].is_bg ==> {
                &&& final(core).jobs.entries@.len() == old(core).jobs.entries@.len() + 1
                &&& final(core).jobs.entries@.last().pids@ == crate::pipeline::pids_view(
                    self.pipelines@[pos as int].commands@,
                )
                &&& final(core).jobs.entries@.last().text@ == self.pipelines@[pos as int].text@
                &&& final(core).jobs.entries@.last().is_bg
                &&& final(core).jobs.foreground == old(core).jobs.foreground
            },
            !self.pipelines@[pos as int].is_bg ==> {
                &&& final(core).jobs.entries@ == old(core).jobs.entries@
                &&& match final(core).jobs.foreground {
                    Some(e) => e.pids@ == crate::pipeline::pids_view(
                        self.pipelines@[pos as int].commands@,
                    ) && e.text@ == self.pipelines@[pos as int].text@ && !e.is_bg,
                    None => false,
                }
            },
            final(core).vars@ == old(core).vars@,
            final(core).functions@ == old(core).functions@,
            final(core).flags@ == old(core).flags@,
            final(core).nest@ == old(core).nest@,
            final(core).diagnostics@ == old(core).diagnostics@,
    {
        let t = clone_chars(&self.pipelines[pos].text);
        let pids = self.pipelines[pos].pids();
        let pgid: i32 = if pids.len() > 0 {
            pids[0]
        } else {
            -1
        };
        if self.pipelines[pos].is_bg {
            core.jobs.add_bg_job(t, pids, pgid);
            false
        } else {
            core.jobs.set_fg_job(t, pids, pgid);
            true
        }
    }

    /// Completes a foreground wait: records the wait outcome as the new
    /// exit status (a signal death as `128 + signal`) and applies the
    /// pipeline's leading negation.
    pub fn finish_foreground(&self, pos: usize, core: &mut ShellCore, outcome: crate::shell::WaitOutcome)
        requires
            pos < self.pipelines@.len(),
        ensures
            final(core).exit_status() == (if self.pipelines@[pos as int].not_flag {
                crate::shell::flip_status(
                    crate::shell::dec_digits(crate::shell::wait_status_code(outcome) as nat),
                )
            } else {
                crate::shell::dec_digits(crate::shell::wait_status_code(outcome) as nat)
            }),
            final(core).jobs.foreground is None,
            final(core).jobs.entries@ == old(core).jobs.entries@,
            forall|m: Seq<char>|
                m != crate::shell::status_name() ==> #[trigger] crate::shell::lookup(
                    final(core).vars@,
                    m,
                ) == crate::shell::lookup(old(core).vars@, m),
            final(core).functions@ == old(core).functions@,
            final(core).flags@ == old(core).flags@,
            final(core).nest@ == old(core).nest@,
            final(core).diagnostics@ == old(core).diagnostics@,
    {
        core.apply_wait_status(outcome);
        if self.pipelines[pos].not_flag {
            core.reverse_exit_status();
        }
    }

    /// Decides how to dispatch this job in the background: a job joined
    /// by `&&`/`||` must be forked once as a whole chain; a single
    /// pipeline is marked background (and shown with the job's full
    /// text) and dispatched directly.
    pub fn exec_bg(&mut self) -> (r: BgDispatch)
        requires
            old(self).wf(),
            old(self).pipelines@.len() >= 1,
        ensures
            r == (if old(self).pipeline_ends@[0] == ControlOperator::And || old(
                self,
            ).pipeline_ends@[0] == ControlOperator::Or {
                BgDispatch::Chain
            } else {
                BgDispatch::Single
            }),
            r == BgDispatch::Chain ==> *final(self) == *old(self),
            r == BgDispatch::Single ==> {
                &&& final(self).pipelines@.len() == old(self).pipelines@.len()
                &&& final(self).pipelines@[0].is_bg
                &&& final(self).pipelines@[0].text@ == old(self).text@
                &&& final(self).pipelines@[0].commands@ == old(self).pipelines@[0].commands@
                &&& final(self).pipelines@[0].not_flag == old(self).pipelines@[0].not_flag
                &&& forall|j: int|
                    1 <= j < old(self).pipelines@.len() ==> final(self).pipelines@[j] == old(
                        self,
                    ).pipelines@[j]
                &&& final(self).pipeline_ends@ == old(self).pipeline_ends@
                &&& final(self).text@ == old(self).text@
            },
    {
        let first = self.pipeline_ends[0];
        if matches!(first, ControlOperator::And) || matches!(first, ControlOperator::Or) {
            return BgDispatch::Chain;
        }
        let mut p = self.pipelines.remove(0);
        let ghost pre = self.pipelines@;
        p.is_bg = true;
        p.text = clone_chars(&self.text);
        self.pipelines.insert(0, p);
        proof {
            assert(self.pipelines@ =~= pre.insert(0, self.pipelines@[0]));
        }
        BgDispatch::Single
    }

    /// Registers a whole backgrounded chain under the single process id
    /// of the child that runs it.
    pub fn register_bg_chain(&self, core: &mut ShellCore, pid: i32)
        ensures
            final(core).jobs.entries@.len() == old(core).jobs.entries@.len() + 1,
            final(core).jobs.entries@.last().pids@ == seq![pid],
            final(core).jobs.entries@.last().pgid == pid,
            final(core).jobs.entries@.last().text@ == self.text@,
            final(core).jobs.entries@.last().is_bg,
            final(core).jobs.foreground == old(core).jobs.foreground,
            final(core).vars@ == old(core).vars@,
            final(core).functions@ == old(core).functions@,
            final(core).flags@ == old(core).flags@,
            final(core).nest@ == old(core).nest@,
            final(core).diagnostics@ == old(core).diagnostics@,
    {
        let t = clone_chars(&self.text);
        let mut pids: Vec<i32> = Vec::new();
        pids.push(pid);
        proof {
            assert(pids@ =~= seq![pid]);
        }
        core.jobs.add_bg_job(t, pids, pid);
    }

    /// One or more pipelines joined by `&&`/`||`, with leading comment
    /// and blank runs attributed to the job's text; the operator
    /// recorded after the last pipeline is always the sentinel, and an
    /// operator whose right-hand pipeline is missing is left
    /// unconsumed. Fails and restores the feeder when no pipeline
    /// matches.
    pub fn parse(feeder: &mut Feeder, core: &mut ShellCore) -> (r: Option<Job>)
        ensures
            final(core).parse_effects_from(old(core)),
            final(feeder).total().len() <= old(feeder).total().len(),
            old(feeder).buf().len() == 0 ==> r is None && final(feeder).same_state(old(feeder))
                && final(core).same_core(old(core)),
            old(feeder).buf().len() > 0 && !crate::chars::is_blank_char(old(feeder).buf()[0])
                && old(feeder).buf()[0] != '\n' && old(feeder).buf()[0] != '#' && old(
                feeder,
            ).buf()[0] != '!' && crate::elem_command::command_matches(old(feeder).buf())
                ==> r is Some,
            crate::elem_command::plain_statement_head(old(feeder).buf()) && old(feeder).buf()[0]
                != '(' && crate::elem_command::command_before_closer(old(feeder).buf())
                ==> r is Some && final(feeder).buf() == old(feeder).buf().skip(
                crate::elem_command::command_prefix_len(old(feeder).buf()),
            ),
            crate::paren::group_matches(old(feeder).buf()) ==> r is Some,
            crate::pipeline::negated_command_head(old(feeder).buf()) ==> r is Some,
            match r {
                Some(j) => {
                    &&& j.wf()
                    &&& j.pipelines@.len() >= 1
                    &&& j.pipeline_ends@.last() == ControlOperator::NoChar
                    &&& j.pipelines@.len() <= j.text@.len()
                    &&& j.text@.len() > 0
                    &&& j.text@ + final(feeder).total() == old(feeder).total()
                },
                None => final(feeder).same_state(old(feeder)),
            },
        decreases feeder.total().len(), 8int,
    {
        if feeder.len() == 0 {
            return None;
        }
        let ghost jclose = crate::elem_command::plain_statement_head(old(feeder).buf()) && old(
            feeder,
        ).buf()[0] != '(' && crate::elem_command::command_before_closer(old(feeder).buf());
        let backup = feeder.snapshot();
        let mut ans = Job::new();
        let ghost t0 = *feeder;
        let c = feeder.consume_comment_multiline();
        proof {
            lemma_consume_total(t0, *feeder, c@);
        }
        append_chars(&mut ans.text, &c);

        let ghost a0 = ans.text@;
        let ghost tb = *feeder;
        if !Job::eat_pipeline(feeder, core, &mut ans) {
            feeder.rewind(backup);
            return None;
        }
        proof {
            assert(ans.text@ + feeder.total() =~= a0 + tb.total());
        }

        loop
            invariant_except_break
                ans.pipeline_ends@.len() + 1 == ans.pipelines@.len(),
                forall|i: int|
                    0 <= i < ans.pipeline_ends@.len() ==> (#[trigger] ans.pipeline_ends@[i]
                        == ControlOperator::And || ans.pipeline_ends@[i] == ControlOperator::Or),
            invariant
                ans.text@ + feeder.total() == old(feeder).total(),
                core.parse_effects_from(old(core)),
                ans.pipelines@.len() >= 1,
                ans.pipelines@.len() <= ans.text@.len(),
                ans.text@.len() > 0,
                jclose == (crate::elem_command::plain_statement_head(old(feeder).buf()) && old(
                    feeder,
                ).buf()[0] != '(' && crate::elem_command::command_before_closer(
                    old(feeder).buf(),
                )),
                jclose ==> feeder.buf() == old(feeder).buf().skip(
                    crate::elem_command::command_prefix_len(old(feeder).buf()),
                ),
            ensures
                ans.text@ + feeder.total() == old(feeder).total(),
                core.parse_effects_from(old(core)),
                ans.pipeline_ends@.len() == ans.pipelines@.len(),
                ans.pipelines@.len() >= 1,
                ans.pipeline_ends@.last() == ControlOperator::NoChar,
                ans.pipelines@.len() <= ans.text@.len(),
                ans.text@.len() > 0,
                forall|i: int|
                    0 <= i < ans.pipeline_ends@.len() ==> (#[trigger] ans.pipeline_ends@[i]
                        == ControlOperator::And || ans.pipeline_ends@[i] == ControlOperator::Or
                        || ans.pipeline_ends@[i] == ControlOperator::NoChar),
            decreases feeder.total().len(),
        {
            let seg = feeder.snapshot();
            let ghost seg_text = ans.text@;
            let ghost seg_ends = ans.pipeline_ends@;
            let seg_len = ans.text.len();
            if !Job::eat_pipeline_end(feeder, &mut ans) {
                break ;
            }
            proof {
                if jclose {
                    assert(false);
                }
            }
            let ghost after_end = ans.text@;
            let ghost t1 = *feeder;
            let c2 = feeder.consume_comment_multiline();
            proof {
                lemma_consume_total(t1, *feeder, c2@);
                assert((ans.text@ + c2@) + feeder.total() =~= ans.text@ + t1.total());
            }
            append_chars(&mut ans.text, &c2);

            let ghost a1 = ans.text@;
            let ghost tb1 = *feeder;
            if !Job::eat_pipeline(feeder, core, &mut ans) {
                // the operator has no right-hand pipeline: restore and
                // record the sentinel in its place
                feeder.rewind(seg);
                proof {
                    assert(after_end.take(seg_len as int) == seg_text);
                    assert(a1.take(seg_len as int) =~= after_end.take(seg_len as int));
                    assert(ans.text@.take(seg_len as int) =~= a1.take(seg_len as int));
                }
                ans.text.truncate(seg_len);
                let _ = ans.pipeline_ends.pop();
                ans.pipeline_ends.push(ControlOperator::NoChar);
                proof {
                    assert(ans.text@ =~= seg_text);
                    assert(ans.pipeline_ends@ =~= seg_ends.push(ControlOperator::NoChar));
                    assert(ans.pipeline_ends@.last() == ControlOperator::NoChar);
                }
                break ;
            }
            proof {
                assert(ans.text@ + feeder.total() =~= a1 + tb1.total());
            }
        }

        Some(ans)
    }
}

} // verus!
