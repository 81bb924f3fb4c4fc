use vstd::prelude::*;

use crate::chars::{copy_range, lemma_seek_run};
use crate::elem_command::{command_matches, command_prefix_len, command_stops, split_words, words_view};
use crate::elem_function::{is_name_char, name_run};
use crate::feeder::{lemma_consume_total, Feeder};
use crate::shell::{lookup, ShellCore};

verus! {

/// Whether `w` is an assignment word: a nonempty name, `=`, and the
/// (possibly empty) value.
pub open spec fn assignment_word(w: Seq<char>) -> bool {
    name_run(w, 0) > 0 && name_run(w, 0) < w.len() && w[name_run(w, 0)] == '='
}

/// Whether a variable-assignment statement stands at the head of `s`:
/// the text up to the first delimiter is a single assignment word.
pub open spec fn setvars_matches(s: Seq<char>) -> bool {
    &&& command_prefix_len(s) > 0
    &&& split_words(s.take(command_prefix_len(s))).len() == 1
    &&& assignment_word(split_words(s.take(command_prefix_len(s)))[0])
}

/// A variable-assignment statement `name=value`: parsed into the node
/// list and applied to the variable table when the script executes, so
/// an assignment inside a forked subshell never leaks to the parent.
pub struct SetVariables {
    pub name: Vec<char>,
    pub value: Vec<char>,
    pub text: Vec<char>,
}

impl SetVariables {
    /// Parses one assignment statement. On failure nothing changes.
    pub fn parse(feeder: &mut Feeder, core: &mut ShellCore) -> (r: Option<SetVariables>)
        ensures
            final(core).same_core(old(core)),
            (r is Some) == setvars_matches(old(feeder).buf()),
            match r {
                Some(sv) => {
                    &&& sv.text@ == old(feeder).buf().take(command_prefix_len(old(feeder).buf()))
                    &&& final(feeder).buf() == old(feeder).buf().skip(
                        command_prefix_len(old(feeder).buf()),
                    )
                    &&& sv.text@.len() > 0
                    &&& sv.text@ + final(feeder).total() == old(feeder).total()
                    &&& final(feeder).src() == old(feeder).src()
                    &&& final(feeder).feed_stop == old(feeder).feed_stop
                    &&& sv.name@ == split_words(sv.text@)[0].take(name_run(
                        split_words(sv.text@)[0],
                        0,
                    ))
                    &&& sv.value@ == split_words(sv.text@)[0].skip(name_run(
                        split_words(sv.text@)[0],
                        0,
                    ) + 1)
                    &&& sv.name@.len() > 0
                    &&& forall|i: int| 0 <= i < sv.name@.len() ==> is_name_char(#[trigger] sv.name@[i])
                },
                None => final(feeder).same_state(old(feeder)),
            },
    {
        let stops = {
            let mut p: Vec<char> = Vec::new();
            p.push('|');
            p.push('&');
            p.push(';');
            p.push(')');
            p.push('(');
            p.push('\n');
            p
        };
        proof {
            assert(stops@ =~= command_stops());
        }
        let d = feeder.scanner_until(0, &stops);
        proof {
            lemma_seek_run(feeder.buf(), 0, d as int, command_stops());
        }
        if d == 0 {
            return None;
        }
        let backup = feeder.snapshot();
        let line = feeder.consume(d);
        let words = crate::elem_command::split_words_from(&line, 0);
        proof {
            assert(line@.skip(0) =~= line@);
        }
        if words.len() != 1 {
            feeder.rewind(backup);
            return None;
        }
        let w = &words[0];
        proof {
            assert(w@ == words_view(words@)[0]);
        }
        let n = w.len();
        let mut k: usize = 0;
        while k < n && crate::elem_function::name_char(w[k])
            invariant
                k <= n,
                n == w@.len(),
                forall|j: int| 0 <= j < k ==> is_name_char(#[trigger] w@[j]),
            decreases n - k,
        {
            k = k + 1;
        }
        proof {
            crate::elem_function::lemma_name_run(w@, 0, k as int);
        }
        if k == 0 || k >= n || w[k] != '=' {
            feeder.rewind(backup);
            return None;
        }
        let name = copy_range(w, 0, k);
        let value = copy_range(w, k + 1, n);
        proof {
            assert(name@ =~= w@.take(k as int));
            assert(forall|i: int| 0 <= i < k ==> is_name_char(#[trigger] name@[i]));
            assert(value@ =~= w@.skip(k as int + 1));
            assert(line@ + feeder.buf() =~= old(feeder).buf());
            lemma_consume_total(*old(feeder), *feeder, line@);
        }
        Some(SetVariables { name, value, text: line })
    }

    /// Applies the assignment to the variable table: the named variable
    /// takes the recorded value and every other binding is untouched.
    pub fn exec(&self, core: &mut ShellCore)
        ensures
            lookup(final(core).vars@, self.name@) == self.value@,
            forall|m: Seq<char>|
                m != self.name@ ==> #[trigger] lookup(final(core).vars@, m) == lookup(
                    old(core).vars@,
                    m,
                ),
            final(core).same_except_vars(old(core)),
    {
        let v = crate::chars::clone_chars(&self.value);
        core.set_var(&self.name, v);
    }
}

} // verus!
