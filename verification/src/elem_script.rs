use vstd::prelude::*;

use crate::chars::{append_chars, is_blank_char};
use crate::elem_command::{command_before_closer, command_matches, command_prefix_len, command_stops, plain_statement_head};
use crate::elem_function::Function;
use crate::elem_setvars::SetVariables;
use crate::feeder::{lemma_consume_total, Feeder};
use crate::job::{job_final, Job};
use crate::operators::ControlOperator;
use crate::shell::{Diagnostic, ShellCore};

verus! {

/// One element of a parsed script's node list: a job, or a
/// variable-assignment statement applied when the script executes.
pub enum ScriptElem {
    JobElem(Job),
    Assign(SetVariables),
}

/// Structural invariant of one element; an assignment never binds the
/// exit-status variable itself.
pub open spec fn elem_wf(e: ScriptElem) -> bool {
    match e {
        ScriptElem::JobElem(j) => j.wf(),
        ScriptElem::Assign(sv) => sv.name@ != crate::shell::status_name(),
    }
}

/// Whether one element can run synchronously.
pub open spec fn elem_sync(e: ScriptElem) -> bool {
    match e {
        ScriptElem::JobElem(j) => j.wf() && j.all_sync(),
        ScriptElem::Assign(sv) => sv.name@ != crate::shell::status_name(),
    }
}

/// The exit status after running one element from status `st`: an
/// assignment leaves the status alone.
pub open spec fn elem_status(e: ScriptElem, st: Seq<char>) -> Seq<char> {
    match e {
        ScriptElem::JobElem(j) => job_final(
            j.pipelines@,
            j.pipeline_ends@,
            0,
            ControlOperator::NoChar,
            st,
        ),
        ScriptElem::Assign(_) => st,
    }
}

/// The number of pipelines one element contributes.
pub open spec fn elem_pipelines(e: ScriptElem) -> int {
    match e {
        ScriptElem::JobElem(j) => j.pipelines@.len() as int,
        ScriptElem::Assign(_) => 0,
    }
}

/// The name an assignment element binds (empty for a job).
pub open spec fn assign_name(e: ScriptElem) -> Seq<char> {
    match e {
        ScriptElem::JobElem(_) => Seq::<char>::empty(),
        ScriptElem::Assign(sv) => sv.name@,
    }
}

/// The exit status after running a list of elements in order, starting
/// from status `st`.
pub open spec fn script_final(elems: Seq<ScriptElem>, st: Seq<char>) -> Seq<char>
    decreases elems.len(),
{
    if elems.len() == 0 {
        st
    } else {
        script_final(elems.drop_first(), elem_status(elems[0], st))
    }
}

/// The total number of pipelines across a list of elements.
pub open spec fn pipelines_count(elems: Seq<ScriptElem>) -> int
    decreases elems.len(),
{
    if elems.len() == 0 {
        0
    } else {
        pipelines_count(elems.drop_last()) + elem_pipelines(elems.last())
    }
}

/// The set of variable names that the list's assignments bind.
pub open spec fn script_assigns(elems: Seq<ScriptElem>) -> Set<Seq<char>>
    decreases elems.len(),
{
    if elems.len() == 0 {
        Set::<Seq<char>>::empty()
    } else if elems[0] is Assign {
        script_assigns(elems.drop_first()).insert(assign_name(elems[0]))
    } else {
        script_assigns(elems.drop_first())
    }
}

/// An assignment element's name is among the list's bound names.
proof fn lemma_assign_member(elems: Seq<ScriptElem>, i: int)
    requires
        0 <= i < elems.len(),
        elems[i] is Assign,
    ensures
        script_assigns(elems).contains(assign_name(elems[i])),
    decreases i,
{
    if i > 0 {
        lemma_assign_member(elems.drop_first(), i - 1);
        assert(elems.drop_first()[i - 1] == elems[i]);
    }
}

/// A parsed input: a list of jobs and assignment statements with the
/// recorded source text and the number of pipelines it contains.
pub struct Script {
    pub list: Vec<ScriptElem>,
    pub text: Vec<char>,
    pub procnum: usize,
}

impl Script {
    /// Every element of the script satisfies its structural invariant.
    pub open spec fn wf(&self) -> bool {
        forall|i: int| 0 <= i < self.list@.len() ==> elem_wf(#[trigger] self.list@[i])
    }

    /// Whether every element of the script can run synchronously.
    pub open spec fn all_sync(&self) -> bool {
        forall|i: int| 0 <= i < self.list@.len() ==> elem_sync(#[trigger] self.list@[i])
    }

    /// Runs a fully synchronous script: its elements in order, jobs
    /// threading the exit status through and assignments binding their
    /// variables; a variable no assignment names keeps its value.
    pub fn exec(&mut self, core: &mut ShellCore)
        requires
            old(self).all_sync(),
        ensures
            final(core).exit_status() == script_final(old(self).list@, old(core).exit_status()),
            forall|m: Seq<char>|
                m != crate::shell::status_name() && !script_assigns(old(self).list@).contains(m)
                    ==> #[trigger] crate::shell::lookup(final(core).vars@, m)
                    == crate::shell::lookup(old(core).vars@, m),
            final(core).same_except_vars(old(core)),
            final(self).list@.len() == old(self).list@.len(),
            final(self).text@ == old(self).text@,
            final(self).procnum == old(self).procnum,
    {
        let ghost js0 = self.list@;
        let ghost st0 = core.exit_status();
        let n = self.list.len();
        let mut i: usize = 0;
        proof {
            assert(js0.skip(0) =~= js0);
        }
        while i < n
            invariant
                i <= n,
                n == js0.len(),
                self.list@.len() == n,
                self.text@ == old(self).text@,
                self.procnum == old(self).procnum,
                forall|j: int| i <= j < n ==> self.list@[j] == js0[j],
                forall|j: int| 0 <= j < n ==> elem_sync(#[trigger] js0[j]),
                script_final(js0.skip(i as int), core.exit_status()) == script_final(js0, st0),
                forall|m: Seq<char>|
                    m != crate::shell::status_name() && !script_assigns(js0).contains(m)
                        ==> #[trigger] crate::shell::lookup(core.vars@, m)
                        == crate::shell::lookup(old(core).vars@, m),
                core.same_except_vars(old(core)),
            decreases n - i,
        {
            let ghost st_pre = core.exit_status();
            let elem = self.list.remove(i);
            let ghost pre = self.list@;
            proof {
                assert(elem == js0[i as int]);
                assert(js0.skip(i as int)[0] == js0[i as int]);
                assert(js0.skip(i as int).drop_first() =~= js0.skip(i + 1));
            }
            match elem {
                ScriptElem::JobElem(mut j) => {
                    j.exec(core);
                    self.list.insert(i, ScriptElem::JobElem(j));
                    proof {
                        assert(core.exit_status() == elem_status(js0[i as int], st_pre));
                    }
                },
                ScriptElem::Assign(sv) => {
                    sv.exec(core);
                    proof {
                        lemma_assign_member(js0, i as int);
                        assert(core.exit_status() == st_pre);
                        assert(elem_status(js0[i as int], st_pre) == st_pre);
                    }
                    self.list.insert(i, ScriptElem::Assign(sv));
                },
            }
            proof {
                assert(script_final(js0.skip(i as int), st_pre) == script_final(
                    js0.skip(i + 1),
                    core.exit_status(),
                ));
            }
            proof {
                assert(self.list@ =~= pre.insert(i as int, self.list@[i as int]));
            }
            i = i + 1;
        }
        proof {
            assert(js0.skip(n as int).len() == 0);
        }
    }

    pub fn new() -> (r: Script)
        ensures
            r.list@.len() == 0,
            r.text@.len() == 0,
            r.procnum == 0,
    {
        Script { list: Vec::new(), text: Vec::new(), procnum: 0 }
    }

    /// Parses a sequence of statements separated by `;` and newlines,
    /// skipping blanks and comments, trying in order: function
    /// definitions (registered into the function mapping at once, not
    /// counted toward `procnum`), variable-assignment statements, and
    /// jobs. Stops at exhausted input, at a closing `)` (the subshell
    /// terminator), or after one statement when `next` is false.
    ///
    /// An unexpected leading `)` discards the buffer, reports a
    /// diagnostic and sets status 2; an unrecognized phrase does the
    /// same with status 1. Either way no node is produced and the driver
    /// executes nothing.
    #[verifier::rlimit(100)]
    pub fn parse(feeder: &mut Feeder, core: &mut ShellCore, next: bool) -> (r: Option<Script>)
        ensures
            final(core).parse_effects_from(old(core)),
            final(feeder).total().len() <= old(feeder).total().len(),
            old(feeder).buf().len() == 0 ==> r is None && final(feeder).same_state(old(feeder))
                && final(core).same_core(old(core)),
            old(feeder).buf().len() > 0 && old(feeder).buf()[0] == ')' ==> r is None && final(feeder).buf().len() == 0 && final(core).exit_status() == seq!['2'] && final(core).diagnostics@.len() == old(core).diagnostics@.len() + 1,
            old(feeder).buf().len() > 0 && !is_blank_char(old(feeder).buf()[0]) && old(feeder).buf()[0] != '\n' && old(feeder).buf()[0] != '#' && old(feeder).buf()[0] != '!'
                && command_matches(old(feeder).buf()) ==> r is Some,
            plain_statement_head(old(feeder).buf()) && old(feeder).buf()[0] != '('
                && !crate::elem_function::fn_def_matches(old(feeder).buf())
                && command_before_closer(old(feeder).buf()) ==> r is Some && final(feeder).buf() == old(feeder).buf().skip(command_prefix_len(old(feeder).buf())),
            crate::paren::group_matches(old(feeder).buf()) ==> r is Some,
            crate::pipeline::negated_command_head(old(feeder).buf()) ==> r is Some,
            !next ==> (match r {
                Some(s) => s.list@.len() <= 1,
                None => true,
            }),
            match r {
                Some(s) => {
                    &&& s.wf()
                    &&& s.text@.len() > 0
                    &&& s.text@ + final(feeder).total() == old(feeder).total()
                    &&& s.procnum == pipelines_count(s.list@)
                },
                None => (old(feeder).buf().len() == 0 && final(feeder).same_state(old(feeder))
                    && final(core).same_core(old(core))) || (old(feeder).buf().len() > 0 && old(feeder).buf()[0] == ')' && final(feeder).buf().len() == 0 && final(core).diagnostics@.len() > old(core).diagnostics@.len() && final(core).exit_status()
                    == seq!['2']) || (old(feeder).buf().len() > 0 && old(feeder).buf()[0] != ')'
                    && final(feeder).buf().len() == 0 && final(core).diagnostics@.len() > old(core).diagnostics@.len() && final(core).exit_status() == seq!['1']),
            },
        decreases feeder.total().len(), 10int,
    {
        if feeder.len() == 0 {
            return None;
        }
        if matches!(feeder.nth(0), Some(')')) {
            let n = feeder.len();
            let dumped = feeder.consume(n);
            core.push_diagnostic(Diagnostic::UnexpectedSymbol(dumped));
            let status = {
                let mut p: Vec<char> = Vec::new();
                p.push('2');
                p
            };
            proof {
                assert(status@ =~= seq!['2']);
            }
            core.set_exit_status(status);
            return None;
        }

        let mut ans = Script::new();
        let ghost forced = old(feeder).buf().len() > 0 && !is_blank_char(old(feeder).buf()[0])
            && old(feeder).buf()[0] != '\n' && old(feeder).buf()[0] != '#' && old(feeder).buf()[0] != '!' && command_matches(old(feeder).buf());
        let ghost sclose = plain_statement_head(old(feeder).buf()) && old(feeder).buf()[0] != '('
            && !crate::elem_function::fn_def_matches(old(feeder).buf())
            && command_before_closer(old(feeder).buf());
        let ghost gforce = crate::paren::group_matches(old(feeder).buf());
        let ghost nforce = crate::pipeline::negated_command_head(old(feeder).buf());
        loop
            invariant_except_break
                !next ==> ans.list@.len() == 0,
            invariant
                ans.text@ + feeder.total() == old(feeder).total(),
                core.parse_effects_from(old(core)),
                ans.procnum == pipelines_count(ans.list@),
                ans.procnum <= ans.text@.len(),
                forall|i: int| 0 <= i < ans.list@.len() ==> elem_wf(#[trigger] ans.list@[i]),
                forced == (old(feeder).buf().len() > 0 && !is_blank_char(old(feeder).buf()[0])
                    && old(feeder).buf()[0] != '\n' && old(feeder).buf()[0] != '#' && old(feeder).buf()[0] != '!' && command_matches(old(feeder).buf())),
                forced ==> (ans.text@.len() > 0 || feeder.buf() == old(feeder).buf()),
                sclose == (plain_statement_head(old(feeder).buf()) && old(feeder).buf()[0] != '('
                    && !crate::elem_function::fn_def_matches(old(feeder).buf())
                    && command_before_closer(old(feeder).buf())),
                sclose ==> ((ans.text@.len() == 0 && feeder.buf() == old(feeder).buf()) || (
                ans.text@.len() > 0 && feeder.buf() == old(feeder).buf().skip(
                    command_prefix_len(old(feeder).buf()),
                ))),
                gforce == crate::paren::group_matches(old(feeder).buf()),
                gforce ==> (ans.text@.len() > 0 || feeder.buf() == old(feeder).buf()),
                nforce == crate::pipeline::negated_command_head(old(feeder).buf()),
                nforce ==> (ans.text@.len() > 0 || feeder.buf() == old(feeder).buf()),
            ensures
                ans.text@ + feeder.total() == old(feeder).total(),
                core.parse_effects_from(old(core)),
                ans.procnum == pipelines_count(ans.list@),
                forall|i: int| 0 <= i < ans.list@.len() ==> elem_wf(#[trigger] ans.list@[i]),
                forced ==> ans.text@.len() > 0,
                sclose ==> ans.text@.len() > 0 && feeder.buf() == old(feeder).buf().skip(
                    command_prefix_len(old(feeder).buf()),
                ),
                gforce ==> ans.text@.len() > 0,
                nforce ==> ans.text@.len() > 0,
                !next ==> ans.list@.len() <= 1,
            decreases feeder.total().len(),
        {
            let ghost t0 = *feeder;
            let c = feeder.consume_comment_multiline();
            proof {
                lemma_consume_total(t0, *feeder, c@);
                assert((ans.text@ + c@) + feeder.total() =~= ans.text@ + t0.total());
            }
            append_chars(&mut ans.text, &c);

            if feeder.len() == 0 {
                proof {
                    if forced && ans.text@.len() == 0 {
                        assert(false);
                    }
                    if sclose {
                        assert(false);
                    }
                    if gforce && ans.text@.len() == 0 {
                        assert(false);
                    }
                    if nforce && ans.text@.len() == 0 {
                        assert(false);
                    }
                }
                break ;
            }
            if matches!(feeder.nth(0), Some(')')) {
                proof {
                    if forced && ans.text@.len() == 0 {
                        assert(command_stops().contains(')')) by {
                            assert(command_stops()[3] == ')');
                        }
                        assert(false);
                    }
                    if sclose && ans.text@.len() == 0 {
                        assert(command_stops().contains(')')) by {
                            assert(command_stops()[3] == ')');
                        }
                        assert(false);
                    }
                    if gforce && ans.text@.len() == 0 {
                        assert(false);
                    }
                    if nforce && ans.text@.len() == 0 {
                        assert(false);
                    }
                }
                break ;
            }
            proof {
                if sclose && ans.text@.len() > 0 {
                    assert(false);
                }
            }
            if matches!(feeder.nth(0), Some(';')) {
                proof {
                    if sclose {
                        assert(command_stops().contains(';')) by {
                            assert(command_stops()[2] == ';');
                        }
                        assert(false);
                    }
                    if gforce && ans.text@.len() == 0 {
                        assert(false);
                    }
                }
                let ghost t1 = *feeder;
                let semi = feeder.consume(1);
                proof {
                    assert(semi@ + feeder.buf() =~= t1.buf());
                    lemma_consume_total(t1, *feeder, semi@);
                    assert((ans.text@ + semi@) + feeder.total() =~= ans.text@ + t1.total());
                }
                append_chars(&mut ans.text, &semi);
                continue ;
            }

            let ghost fb = *feeder;
            match Function::parse(feeder, core) {
                Some(f) => {
                    proof {
                        if sclose {
                            assert(false);
                        }
                        assert((ans.text@ + f.text@) + feeder.total() =~= ans.text@ + fb.total());
                    }
                    append_chars(&mut ans.text, &f.text);
                    continue ;
                },
                None => {},
            }

            let ghost sb = *feeder;
            match SetVariables::parse(feeder, core) {
                Some(sv) => {
                    proof {
                        assert((ans.text@ + sv.text@) + feeder.total() =~= ans.text@
                            + sb.total());
                    }
                    append_chars(&mut ans.text, &sv.text);
                    proof {
                        assert(sv.name@ != crate::shell::status_name()) by {
                            if sv.name@ == crate::shell::status_name() {
                                assert(crate::elem_function::is_name_char(sv.name@[0]));
                            }
                        }
                    }
                    let ghost pre_list = ans.list@;
                    ans.list.push(ScriptElem::Assign(sv));
                    proof {
                        assert(ans.list@.drop_last() =~= pre_list);
                        if sclose {
                            assert(sb.buf() == old(feeder).buf());
                            assert(feeder.buf() == old(feeder).buf().skip(
                                command_prefix_len(old(feeder).buf()),
                            ));
                            assert(ans.text@.len() > 0);
                        }
                    }
                    if !next {
                        break ;
                    }
                    continue ;
                },
                None => {},
            }

            let ghost a0 = ans.text@;
            let ghost tb = *feeder;
            match Job::parse(feeder, core) {
                Some(j) => {
                    proof {
                        assert((a0 + j.text@) + feeder.total() =~= a0 + tb.total());
                    }
                    append_chars(&mut ans.text, &j.text);
                    let np = j.pipelines.len();
                    let tl = ans.text.len();
                    proof {
                        assert(ans.procnum + np <= tl);
                    }
                    ans.procnum = ans.procnum + np;
                    let ghost pre_list = ans.list@;
                    let ghost jv = j;
                    ans.list.push(ScriptElem::JobElem(j));
                    proof {
                        assert(ans.list@.drop_last() =~= pre_list);
                        assert(ans.list@.last() == ScriptElem::JobElem(jv));
                        if sclose {
                            assert(tb.buf() == old(feeder).buf());
                            assert(feeder.buf() == old(feeder).buf().skip(
                                command_prefix_len(old(feeder).buf()),
                            ));
                            assert(ans.text@.len() > 0);
                        }
                    }
                },
                None => {
                    proof {
                        if forced && ans.text@.len() == 0 {
                            assert(false);
                        }
                        if sclose {
                            assert(false);
                        }
                        if gforce && ans.text@.len() == 0 {
                            assert(false);
                        }
                        if nforce && ans.text@.len() == 0 {
                            assert(false);
                        }
                    }
                    break ;
                },
            }
            if !next {
                break ;
            }
        }

        if ans.text.len() > 0 {
            Some(ans)
        } else {
            core.push_diagnostic(Diagnostic::UnknownPhrase);
            let status = {
                let mut p: Vec<char> = Vec::new();
                p.push('1');
                p
            };
            proof {
                assert(status@ =~= seq!['1']);
            }
            core.set_exit_status(status);
            let n = feeder.len();
            let _ = feeder.consume(n);
            None
        }
    }
}

} // verus!
