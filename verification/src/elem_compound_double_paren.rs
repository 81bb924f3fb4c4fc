use vstd::prelude::*;

use crate::calculator::{calc_spec, calculate};
use crate::chars::{lemma_seek_run, seek};
use crate::chars::append_chars;
use crate::elem_command::FileDescs;
use crate::feeder::{lemma_consume_total, src_flat, Feeder};
use crate::redirect::Redirect;
use crate::shell::{lookup, status_name, u64_to_dec, ShellCore};

verus! {

/// The decimal rendering of a (saturated) signed value.
pub open spec fn dec_signed(v: int) -> Seq<char> {
    if v >= 0 {
        crate::shell::dec_digits(v as nat)
    } else {
        seq!['-'] + crate::shell::dec_digits((-v) as nat)
    }
}

/// Renders a 64-bit signed value in decimal.
pub fn i64_to_dec(v: i64) -> (r: Vec<char>)
    ensures
        r@ == dec_signed(v as int),
{
    if v >= 0 {
        u64_to_dec(v as u64)
    } else {
        let m: u64 = if v == i64::MIN {
            9223372036854775808u64
        } else {
            (-v) as u64
        };
        let mut r: Vec<char> = Vec::new();
        r.push('-');
        let digits = u64_to_dec(m);
        append_chars(&mut r, &digits);
        proof {
            assert(r@ =~= seq!['-'] + digits@);
        }
        r
    }
}

/// The exit status that an arithmetic result maps to: zero is failure
/// (`"1"`), any nonzero value success (`"0"`) — shell arithmetic-test
/// truthiness.
pub open spec fn arith_status(v: int) -> Seq<char> {
    if v == 0 {
        seq!['1']
    } else {
        seq!['0']
    }
}

/// Whether `s` opens an arithmetic compound: it starts with `((`.
pub open spec fn dbl_paren_opens(s: Seq<char>) -> bool {
    s.len() >= 2 && s[0] == '(' && s[1] == '('
}

/// Whether a complete arithmetic compound `((e))` stands at the head of
/// `s`: after the opener, the first `)` is immediately followed by a
/// second one.
pub open spec fn dbl_paren_matches(s: Seq<char>) -> bool {
    dbl_paren_opens(s) && seek(s.skip(2), 0, seq![')']) + 1 < s.skip(2).len() && s.skip(2)[seek(
        s.skip(2),
        0,
        seq![')'],
    ) + 1] == ')'
}

/// An arithmetic compound command `(( expression ))`: evaluated
/// synchronously against current state, no fork.
pub struct CompoundDoubleParen {
    pub text: Vec<char>,
    pub expression: Vec<char>,
    pub pid: Option<i32>,
    pub substitution_text: Vec<char>,
    pub substitution: bool,
    pub fds: FileDescs,
}

impl CompoundDoubleParen {
    pub fn new() -> (r: CompoundDoubleParen)
        ensures
            r.text@.len() == 0,
            r.expression@.len() == 0,
            r.pid is None,
            r.substitution_text@.len() == 0,
            !r.substitution,
            r.fds.redirects@.len() == 0,
    {
        CompoundDoubleParen {
            text: Vec::new(),
            expression: Vec::new(),
            pid: None,
            substitution_text: Vec::new(),
            substitution: false,
            fds: FileDescs::new(),
        }
    }

    /// Evaluates the expression and records shell truthiness: `"?"`
    /// becomes `"1"` exactly when the numeric result is zero, `"0"`
    /// otherwise; the rendered value is kept as the substitution text.
    pub fn exec(&mut self, core: &mut ShellCore)
        ensures
            final(core).exit_status() == arith_status(calc_spec(old(self).expression@)),
            forall|m: Seq<char>|
                m != status_name() ==> #[trigger] lookup(final(core).vars@, m) == lookup(
                    old(core).vars@,
                    m,
                ),
            final(core).same_except_vars(old(core)),
            final(self).substitution_text@ == dec_signed(calc_spec(old(self).expression@)),
            final(self).expression@ == old(self).expression@,
            final(self).text@ == old(self).text@,
            final(self).pid == old(self).pid,
            final(self).substitution == old(self).substitution,
    {
        let v = calculate(&self.expression);
        self.substitution_text = i64_to_dec(v);
        let mut status: Vec<char> = Vec::new();
        if v == 0 {
            status.push('1');
            proof {
                assert(status@ =~= seq!['1']);
            }
        } else {
            status.push('0');
            proof {
                assert(status@ =~= seq!['0']);
            }
        }
        core.set_exit_status(status);
    }

    /// Parses `(( expression ))`, pulling further lines while the
    /// closing `))` is not yet buffered. A complete compound among the
    /// pending input is always parsed; when input runs out
    /// mid-speculation the remaining buffer is fully consumed (the hard
    /// end-of-input rule) and no node is produced.
    #[verifier::rlimit(60)]
    pub fn parse(feeder: &mut Feeder, core: &mut ShellCore, substitution: bool) -> (r: Option<
        CompoundDoubleParen,
    >)
        ensures
            final(core).same_core(old(core)),
            final(feeder).total().len() <= old(feeder).total().len(),
            !dbl_paren_opens(old(feeder).buf()) ==> r is None && final(feeder).same_state(
                old(feeder),
            ),
            dbl_paren_opens(old(feeder).buf()) ==> ((r is Some) == dbl_paren_matches(
                old(feeder).pending(),
            )),
            dbl_paren_opens(old(feeder).buf()) && r is None ==> final(feeder).buf().len() == 0
                && (old(feeder).feed_stop || final(feeder).src().len() == 0),
            match r {
                Some(c) => {
                    &&& c.text@ + final(feeder).total() == old(feeder).total()
                    &&& (seq!['(', '('] + c.expression@ + seq![')', ')']).is_prefix_of(c.text@)
                    &&& forall|i: int|
                        0 <= i < c.expression@.len() ==> c.expression@[i] != ')'
                    &&& c.substitution == substitution
                    &&& c.pid is None
                    &&& final(feeder).feed_stop == old(feeder).feed_stop
                },
                None => true,
            },
    {
        let two_open = {
            let mut p: Vec<char> = Vec::new();
            p.push('(');
            p.push('(');
            p
        };
        proof {
            assert(two_open@ =~= seq!['(', '(']);
        }
        if feeder.len() < 2 || !feeder.starts_with(&two_open) {
            proof {
                if feeder.buf().len() >= 2 && feeder.buf()[0] == '(' && feeder.buf()[1] == '(' {
                    assert(two_open@ =~= feeder.buf().take(2));
                }
            }
            return None;
        }
        let ghost pend = feeder.pending();
        let mut backup = feeder.snapshot();
        proof {
            assert(backup.buf() =~= pend.take(backup.buf().len() as int));
        }
        let mut ans = CompoundDoubleParen::new();
        ans.substitution = substitution;

        let close = {
            let mut p: Vec<char> = Vec::new();
            p.push(')');
            p
        };
        let two_close = {
            let mut p: Vec<char> = Vec::new();
            p.push(')');
            p.push(')');
            p
        };

        loop
            invariant_except_break
                feeder.same_state(&backup),
            invariant
                dbl_paren_opens(old(feeder).buf()),
                two_open@.is_prefix_of(backup.buf()),
                backup.total() == old(feeder).total(),
                backup.feed_stop == old(feeder).feed_stop,
                pend == old(feeder).pending(),
                backup.buf() == pend.take(backup.buf().len() as int),
                old(feeder).feed_stop ==> backup.buf() == old(feeder).buf() && backup.src()
                    == old(feeder).src(),
                close@.len() == 1 && close@[0] == ')',
                two_close@.len() == 2 && two_close@[0] == ')' && two_close@[1] == ')',
                two_open@.len() == 2 && two_open@[0] == '(' && two_open@[1] == '(',
                ans.substitution == substitution,
                ans.pid is None,
            ensures
                ans.text@ == seq!['(', '('] + ans.expression@,
                forall|i: int| 0 <= i < ans.expression@.len() ==> ans.expression@[i] != ')',
                ans.text@ + feeder.buf() == backup.buf(),
                feeder.src() == backup.src(),
                backup.total() == old(feeder).total(),
                backup.feed_stop == old(feeder).feed_stop,
                feeder.feed_stop == backup.feed_stop,
                backup.buf() == pend.take(backup.buf().len() as int),
                two_close@.is_prefix_of(feeder.buf()),
                ans.substitution == substitution,
                ans.pid is None,
            decreases backup.src().len(),
        {
            ans.text = feeder.consume(2);
            proof {
                assert(ans.text@ =~= seq!['(', '(']);
            }

            let pos = feeder.scanner_until(0, &close);
            if pos != feeder.len() {
                ans.expression = feeder.consume(pos);
                append_chars(&mut ans.text, &ans.expression);
            } else {
                let ghost pb = backup;
                let (b, ok) = feeder.rewind_feed_backup(&backup);
                backup = b;
                if !ok {
                    proof {
                        assert(pend =~= pb.buf());
                        assert forall|k: int| 0 <= k < pend.skip(2).len() implies pend.skip(2)[k]
                            != ')' by {
                            assert(pb.buf().skip(2)[k] != ')');
                        }
                        lemma_seek_run(pend.skip(2), 0, pend.skip(2).len() as int, seq![')']);
                        assert(!dbl_paren_matches(pend));
                    }
                    let n = feeder.len();
                    let _ = feeder.consume(n);
                    return None;
                }
                proof {
                    assert(!pb.feed_stop && pb.src().len() > 0);
                    assert(src_flat(pb.src()) == pb.src()[0] + src_flat(pb.src().drop_first()));
                    assert(pend =~= pb.buf() + src_flat(pb.src()));
                    assert(backup.buf() =~= pend.take(backup.buf().len() as int));
                }
                continue ;
            }

            if feeder.len() < 2 || !feeder.starts_with(&two_close) {
                let ghost pb = backup;
                let ghost e = ans.expression@;
                let ghost checked = feeder.buf();
                proof {
                    if checked.len() >= 2 && checked[0] == ')' && checked[1] == ')' {
                        assert(two_close@ =~= checked.take(2));
                    }
                }
                let (b, ok) = feeder.rewind_feed_backup(&backup);
                backup = b;
                if !ok {
                    proof {
                        assert(pend =~= pb.buf());
                        assert(checked =~= pb.buf().skip(2 + e.len() as int));
                        assert forall|k: int| 0 <= k < e.len() implies pend.skip(2)[k] != ')' by {
                            assert(pend.skip(2)[k] == e[k]);
                        }
                        assert(pend.skip(2)[e.len() as int] == ')');
                        assert(seq![')'].contains(')')) by {
                            assert(seq![')'][0] == ')');
                        }
                        lemma_seek_run(pend.skip(2), 0, e.len() as int, seq![')']);
                        assert(!dbl_paren_matches(pend)) by {
                            if e.len() as int + 1 < pend.skip(2).len() as int {
                                assert(pend.skip(2)[e.len() as int + 1] == checked[1]);
                            }
                        }
                    }
                    let n = feeder.len();
                    let _ = feeder.consume(n);
                    return None;
                }
                proof {
                    assert(!pb.feed_stop && pb.src().len() > 0);
                    assert(src_flat(pb.src()) == pb.src()[0] + src_flat(pb.src().drop_first()));
                    assert(pend =~= pb.buf() + src_flat(pb.src()));
                    assert(backup.buf() =~= pend.take(backup.buf().len() as int));
                }
            } else {
                proof {
                    assert(ans.text@ + feeder.buf() =~= backup.buf());
                }
                break ;
            }
        }

        proof {
            let e = ans.expression@;
            let m = backup.buf().len() as int;
            assert(backup.buf().len() >= 4 + e.len());
            assert forall|k: int| 0 <= k < e.len() implies pend.skip(2)[k] != ')' by {
                assert(pend.skip(2)[k] == pend[2 + k]);
                assert(pend[2 + k] == backup.buf()[2 + k]);
                assert(backup.buf()[2 + k] == e[k]);
            }
            assert(pend[2 + e.len() as int] == backup.buf()[2 + e.len() as int]);
            assert(backup.buf()[2 + e.len() as int] == ')');
            assert(pend[3 + e.len() as int] == backup.buf()[3 + e.len() as int]);
            assert(backup.buf()[3 + e.len() as int] == ')');
            assert(seq![')'].contains(')')) by {
                assert(seq![')'][0] == ')');
            }
            lemma_seek_run(pend.skip(2), 0, e.len() as int, seq![')']);
            assert(dbl_paren_matches(pend));
        }

        let closing = feeder.consume(2);
        append_chars(&mut ans.text, &closing);
        proof {
            assert(closing@ =~= seq![')', ')']);
            assert(ans.text@ + feeder.buf() =~= backup.buf());
            lemma_consume_total(backup, *feeder, ans.text@);
        }
        if substitution {
            return Some(ans);
        }

        // trailing redirects
        loop
            invariant
                ans.text@ + feeder.total() == old(feeder).total(),
                feeder.feed_stop == old(feeder).feed_stop,
                (seq!['(', '('] + ans.expression@ + seq![')', ')']).is_prefix_of(ans.text@),
                forall|i: int| 0 <= i < ans.expression@.len() ==> ans.expression@[i] != ')',
                ans.substitution == substitution,
                ans.pid is None,
            ensures
                ans.text@ + feeder.total() == old(feeder).total(),
                feeder.feed_stop == old(feeder).feed_stop,
                (seq!['(', '('] + ans.expression@ + seq![')', ')']).is_prefix_of(ans.text@),
                forall|i: int| 0 <= i < ans.expression@.len() ==> ans.expression@[i] != ')',
                ans.substitution == substitution,
                ans.pid is None,
            decreases feeder.total().len(),
        {
            let before = feeder.snapshot();
            let ghost head = *feeder;
            let blanks = feeder.consume_blank();
            let ghost mid = *feeder;
            match Redirect::parse(feeder) {
                Some(rd) => {
                    proof {
                        assert(blanks@ + mid.total() =~= head.total());
                        assert(rd.text@ + feeder.total() == mid.total());
                        assert((ans.text@ + blanks@) + rd.text@ + feeder.total() =~= ans.text@
                            + head.total());
                    }
                    append_chars(&mut ans.text, &blanks);
                    append_chars(&mut ans.text, &rd.text);
                    ans.fds.redirects.push(rd);
                },
                None => {
                    feeder.rewind(before);
                    break ;
                },
            }
        }

        Some(ans)
    }
}

} // verus!
