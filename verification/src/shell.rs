use vstd::prelude::*;

use crate::chars::{chars_eq, clone_chars};

verus! {

/// One name/value binding in the variable or function table.
pub struct Binding {
    pub name: Vec<char>,
    pub value: Vec<char>,
}

/// A terminal state of a waited-for child process, as the driver reports
/// it back to the library.
#[derive(Clone, Copy, Debug, PartialEq, Eq, Structural)]
pub enum WaitOutcome {
    /// The process exited with the given code.
    Exited(u32),
    /// The process was killed by the given signal number.
    Signaled(u32),
}

/// A report that a parse function leaves for the user; the driver prints
/// these.
pub enum Diagnostic {
    /// An unexpected terminator began the input; carries the discarded text.
    UnexpectedSymbol(Vec<char>),
    /// No production matched the input.
    UnknownPhrase,
}

/// One entry of the job table: the processes dispatched for a pipeline
/// (or a backgrounded chain), the group they were placed in, the
/// foreground/background state, and the display text.
pub struct JobEntry {
    pub pids: Vec<i32>,
    pub pgid: i32,
    pub text: Vec<char>,
    pub is_bg: bool,
}

/// The table of dispatched jobs: the background entries, and the current
/// foreground job while the shell is blocked on it.
pub struct JobTable {
    pub entries: Vec<JobEntry>,
    pub foreground: Option<JobEntry>,
}

impl JobTable {
    /// Stores a background job entry without blocking: the issuing call
    /// returns at once and the entry is immediately visible.
    pub fn add_bg_job(&mut self, text: Vec<char>, pids: Vec<i32>, pgid: i32)
        ensures
            final(self).entries@.len() == old(self).entries@.len() + 1,
            final(self).entries@ == old(self).entries@.push(
                final(self).entries@[old(self).entries@.len() as int],
            ),
            final(self).entries@.last().pids@ == pids@,
            final(self).entries@.last().pgid == pgid,
            final(self).entries@.last().text@ == text@,
            final(self).entries@.last().is_bg,
            final(self).foreground == old(self).foreground,
    {
        let entry = JobEntry { pids, pgid, text, is_bg: true };
        self.entries.push(entry);
        proof {
            assert(self.entries@ =~= old(self).entries@.push(self.entries@.last()));
        }
    }

    /// Installs the current foreground job; the shell will block on it
    /// before continuing.
    pub fn set_fg_job(&mut self, text: Vec<char>, pids: Vec<i32>, pgid: i32)
        ensures
            final(self).entries@ == old(self).entries@,
            match final(self).foreground {
                Some(e) => e.pids@ == pids@ && e.pgid == pgid && e.text@ == text@ && !e.is_bg,
                None => false,
            },
    {
        self.foreground = Some(JobEntry { pids, pgid, text, is_bg: false });
    }
}

/// The value bound to `name` in `binds`, taking the first match; empty
/// when the name is unbound.
pub open spec fn lookup(binds: Seq<Binding>, name: Seq<char>) -> Seq<char>
    decreases binds.len(),
{
    if binds.len() == 0 {
        Seq::<char>::empty()
    } else if binds[0].name@ == name {
        binds[0].value@
    } else {
        lookup(binds.drop_first(), name)
    }
}

/// Success flipped to failure and vice versa: what a leading `!` does
/// to an exit status.
pub open spec fn flip_status(s: Seq<char>) -> Seq<char> {
    if s == seq!['0'] {
        seq!['1']
    } else {
        seq!['0']
    }
}

/// The name of the special variable holding the last exit status.
pub open spec fn status_name() -> Seq<char> {
    seq!['?']
}

/// The decimal rendering of `n`, most significant digit first.
pub open spec fn dec_digits(n: nat) -> Seq<char>
    decreases n,
{
    if n < 10 {
        seq![digit_char(n)]
    } else {
        dec_digits(n / 10).push(digit_char(n % 10))
    }
}

/// The character for one decimal digit.
pub open spec fn digit_char(d: nat) -> char {
    if d == 0 {
        '0'
    } else if d == 1 {
        '1'
    } else if d == 2 {
        '2'
    } else if d == 3 {
        '3'
    } else if d == 4 {
        '4'
    } else if d == 5 {
        '5'
    } else if d == 6 {
        '6'
    } else if d == 7 {
        '7'
    } else if d == 8 {
        '8'
    } else {
        '9'
    }
}

/// Renders `n` in decimal.
pub fn u64_to_dec(n: u64) -> (r: Vec<char>)
    ensures
        r@ == dec_digits(n as nat),
    decreases n,
{
    if n < 10 {
        let c: char = match n {
            0 => '0',
            1 => '1',
            2 => '2',
            3 => '3',
            4 => '4',
            5 => '5',
            6 => '6',
            7 => '7',
            8 => '8',
            _ => '9',
        };
        let mut r: Vec<char> = Vec::new();
        r.push(c);
        proof {
            assert(r@ =~= seq![digit_char(n as nat)]);
        }
        r
    } else {
        let mut r = u64_to_dec(n / 10);
        let d = n % 10;
        let c: char = match d {
            0 => '0',
            1 => '1',
            2 => '2',
            3 => '3',
            4 => '4',
            5 => '5',
            6 => '6',
            7 => '7',
            8 => '8',
            _ => '9',
        };
        r.push(c);
        r
    }
}

/// The process-wide shared shell state: variables (including the exit
/// status `"?"`), user functions, the job table, runtime flags, the
/// parse-time nesting stack, and pending diagnostics.
pub struct ShellCore {
    pub vars: Vec<Binding>,
    pub functions: Vec<Binding>,
    pub flags: Vec<char>,
    pub nest: Vec<Vec<char>>,
    pub jobs: JobTable,
    pub diagnostics: Vec<Diagnostic>,
}

impl ShellCore {
    /// The current exit status string, the value of `"?"`.
    pub open spec fn exit_status(&self) -> Seq<char> {
        lookup(self.vars@, status_name())
    }

    /// Whether the last command succeeded.
    pub open spec fn status_is_success(&self) -> bool {
        self.exit_status() == seq!['0']
    }

    /// All components of the shared state are unchanged (compared by
    /// their views).
    pub open spec fn same_core(&self, other: &ShellCore) -> bool {
        &&& self.vars@ == other.vars@
        &&& self.functions@ == other.functions@
        &&& self.flags@ == other.flags@
        &&& self.nest@ == other.nest@
        &&& self.jobs.entries@ == other.jobs.entries@
        &&& self.jobs.foreground == other.jobs.foreground
        &&& self.diagnostics@ == other.diagnostics@
    }

    /// What a parse call may do to the shared state: report diagnostics,
    /// set the exit status, and register function definitions;
    /// everything else is untouched.
    pub open spec fn parse_effects_from(&self, pre: &ShellCore) -> bool {
        &&& pre.functions@.len() <= self.functions@.len()
        &&& self.flags@ == pre.flags@
        &&& self.nest@ == pre.nest@
        &&& self.jobs.entries@ == pre.jobs.entries@
        &&& self.jobs.foreground == pre.jobs.foreground
        &&& forall|m: Seq<char>|
            m != status_name() ==> #[trigger] lookup(self.vars@, m) == lookup(pre.vars@, m)
        &&& pre.diagnostics@.is_prefix_of(self.diagnostics@)
    }

    /// Everything except the variable table is unchanged.
    pub open spec fn same_except_vars(&self, other: &ShellCore) -> bool {
        &&& self.functions@ == other.functions@
        &&& self.flags@ == other.flags@
        &&& self.nest@ == other.nest@
        &&& self.jobs.entries@ == other.jobs.entries@
        &&& self.jobs.foreground == other.jobs.foreground
        &&& self.diagnostics@ == other.diagnostics@
    }

    pub fn new() -> (r: ShellCore)
        ensures
            r.vars@.len() == 0,
            r.functions@.len() == 0,
            r.flags@.len() == 0,
            r.nest@.len() == 0,
            r.jobs.entries@.len() == 0,
            r.jobs.foreground is None,
            r.diagnostics@.len() == 0,
    {
        ShellCore {
            vars: Vec::new(),
            functions: Vec::new(),
            flags: Vec::new(),
            nest: Vec::new(),
            jobs: JobTable { entries: Vec::new(), foreground: None },
            diagnostics: Vec::new(),
        }
    }

    /// Whether the single-character runtime flag `f` is set.
    pub fn has_flag(&self, f: char) -> (r: bool)
        ensures
            r == self.flags@.contains(f),
    {
        let mut i: usize = 0;
        while i < self.flags.len()
            invariant
                i <= self.flags@.len(),
                forall|j: int| 0 <= j < i ==> self.flags@[j] != f,
            decreases self.flags@.len() - i,
        {
            if self.flags[i] == f {
                return true;
            }
            i = i + 1;
        }
        false
    }

    /// The value of the variable `name`, or empty when unbound.
    pub fn get_var(&self, name: &Vec<char>) -> (r: Vec<char>)
        ensures
            r@ == lookup(self.vars@, name@),
    {
        let mut i: usize = 0;
        proof {
            assert(self.vars@.skip(0) =~= self.vars@);
        }
        while i < self.vars.len()
            invariant
                i <= self.vars@.len(),
                lookup(self.vars@, name@) == lookup(self.vars@.skip(i as int), name@),
                forall|j: int| 0 <= j < i ==> self.vars@[j].name@ != name@,
            decreases self.vars@.len() - i,
        {
            proof {
                assert(self.vars@.skip(i as int)[0] == self.vars@[i as int]);
            }
            if chars_eq(&self.vars[i].name, name) {
                return clone_chars(&self.vars[i].value);
            }
            proof {
                assert(self.vars@.skip(i as int).drop_first() =~= self.vars@.skip(i + 1));
            }
            i = i + 1;
        }
        proof {
            assert(self.vars@.skip(self.vars@.len() as int).len() == 0);
        }
        Vec::new()
    }

    /// Binds `name` to `value`, replacing the binding that `lookup`
    /// would find, and leaving every other name's value unchanged.
    pub fn set_var(&mut self, name: &Vec<char>, value: Vec<char>)
        ensures
            lookup(final(self).vars@, name@) == value@,
            forall|m: Seq<char>|
                m != name@ ==> #[trigger] lookup(final(self).vars@, m) == lookup(
                    old(self).vars@,
                    m,
                ),
            final(self).same_except_vars(old(self)),
    {
        let mut i: usize = 0;
        while i < self.vars.len()
            invariant
                i <= self.vars@.len(),
                forall|j: int| 0 <= j < i ==> self.vars@[j].name@ != name@,
                self.vars@ == old(self).vars@,
                self.same_except_vars(old(self)),
            decreases self.vars@.len() - i,
        {
            if chars_eq(&self.vars[i].name, name) {
                let ghost pre = self.vars@;
                let n = clone_chars(name);
                self.vars.set(i, Binding { name: n, value });
                proof {
                    lemma_lookup_update(pre, self.vars@, name@, i as int);
                }
                return ;
            }
            i = i + 1;
        }
        let ghost pre = self.vars@;
        let n = clone_chars(name);
        self.vars.push(Binding { name: n, value });
        proof {
            lemma_lookup_append(pre, self.vars@, name@);
        }
    }

    /// Registers a user function under `name`.
    pub fn set_function(&mut self, name: &Vec<char>, body: Vec<char>)
        ensures
            lookup(final(self).functions@, name@) == body@,
            old(self).functions@.len() <= final(self).functions@.len(),
            forall|m: Seq<char>|
                m != name@ ==> #[trigger] lookup(final(self).functions@, m) == lookup(
                    old(self).functions@,
                    m,
                ),
            final(self).vars@ == old(self).vars@,
            final(self).flags@ == old(self).flags@,
            final(self).nest@ == old(self).nest@,
            final(self).jobs.entries@ == old(self).jobs.entries@,
            final(self).jobs.foreground == old(self).jobs.foreground,
            final(self).diagnostics@ == old(self).diagnostics@,
    {
        let mut i: usize = 0;
        while i < self.functions.len()
            invariant
                i <= self.functions@.len(),
                forall|j: int| 0 <= j < i ==> self.functions@[j].name@ != name@,
                self.functions@ == old(self).functions@,
                self.vars@ == old(self).vars@,
                self.flags@ == old(self).flags@,
                self.nest@ == old(self).nest@,
                self.jobs.entries@ == old(self).jobs.entries@,
                self.jobs.foreground == old(self).jobs.foreground,
                self.diagnostics@ == old(self).diagnostics@,
            decreases self.functions@.len() - i,
        {
            if chars_eq(&self.functions[i].name, name) {
                let ghost pre = self.functions@;
                let n = clone_chars(name);
                self.functions.set(i, Binding { name: n, value: body });
                proof {
                    lemma_lookup_update(pre, self.functions@, name@, i as int);
                }
                return ;
            }
            i = i + 1;
        }
        let ghost pre = self.functions@;
        let n = clone_chars(name);
        self.functions.push(Binding { name: n, value: body });
        proof {
            lemma_lookup_append(pre, self.functions@, name@);
        }
    }

    /// The body registered for the user function `name`, or empty.
    pub fn get_function(&self, name: &Vec<char>) -> (r: Vec<char>)
        ensures
            r@ == lookup(self.functions@, name@),
    {
        let mut i: usize = 0;
        proof {
            assert(self.functions@.skip(0) =~= self.functions@);
        }
        while i < self.functions.len()
            invariant
                i <= self.functions@.len(),
                lookup(self.functions@, name@) == lookup(self.functions@.skip(i as int), name@),
                forall|j: int| 0 <= j < i ==> self.functions@[j].name@ != name@,
            decreases self.functions@.len() - i,
        {
            proof {
                assert(self.functions@.skip(i as int)[0] == self.functions@[i as int]);
            }
            if chars_eq(&self.functions[i].name, name) {
                return clone_chars(&self.functions[i].value);
            }
            proof {
                assert(self.functions@.skip(i as int).drop_first() =~= self.functions@.skip(i + 1));
            }
            i = i + 1;
        }
        proof {
            assert(self.functions@.skip(self.functions@.len() as int).len() == 0);
        }
        Vec::new()
    }

    /// Sets the exit status `"?"` to the given string.
    pub fn set_exit_status(&mut self, status: Vec<char>)
        ensures
            final(self).exit_status() == status@,
            forall|m: Seq<char>|
                m != status_name() ==> #[trigger] lookup(final(self).vars@, m) == lookup(
                    old(self).vars@,
                    m,
                ),
            final(self).same_except_vars(old(self)),
    {
        let mut name: Vec<char> = Vec::new();
        name.push('?');
        proof {
            assert(name@ =~= status_name());
        }
        self.set_var(&name, status);
    }

    /// Whether the exit status is the success value `"0"`.
    pub fn is_success(&self) -> (r: bool)
        ensures
            r == self.status_is_success(),
    {
        let mut name: Vec<char> = Vec::new();
        name.push('?');
        proof {
            assert(name@ =~= status_name());
        }
        let v = self.get_var(&name);
        let mut zero: Vec<char> = Vec::new();
        zero.push('0');
        proof {
            assert(zero@ =~= seq!['0']);
        }
        chars_eq(&v, &zero)
    }

    /// Flips success and failure: `"?"` becomes `"1"` when it was `"0"`,
    /// and `"0"` otherwise; used for a pipeline's leading `!`.
    pub fn reverse_exit_status(&mut self)
        ensures
            old(self).status_is_success() ==> final(self).exit_status() == seq!['1'],
            !old(self).status_is_success() ==> final(self).exit_status() == seq!['0'],
            forall|m: Seq<char>|
                m != status_name() ==> #[trigger] lookup(final(self).vars@, m) == lookup(
                    old(self).vars@,
                    m,
                ),
            final(self).same_except_vars(old(self)),
    {
        let mut status: Vec<char> = Vec::new();
        if self.is_success() {
            status.push('1');
            proof {
                assert(status@ =~= seq!['1']);
            }
        } else {
            status.push('0');
            proof {
                assert(status@ =~= seq!['0']);
            }
        }
        self.set_exit_status(status);
    }

    /// Records the exit status of a waited-for foreground job, clearing
    /// the foreground slot. A signal death is translated to the
    /// `128 + signal` convention; codes and signals are capped so the
    /// translation never overflows.
    pub fn apply_wait_status(&mut self, outcome: WaitOutcome)
        ensures
            final(self).exit_status() == dec_digits(wait_status_code(outcome) as nat),
            forall|m: Seq<char>|
                m != status_name() ==> #[trigger] lookup(final(self).vars@, m) == lookup(
                    old(self).vars@,
                    m,
                ),
            final(self).jobs.foreground is None,
            final(self).jobs.entries@ == old(self).jobs.entries@,
            final(self).functions@ == old(self).functions@,
            final(self).flags@ == old(self).flags@,
            final(self).nest@ == old(self).nest@,
            final(self).diagnostics@ == old(self).diagnostics@,
    {
        let code: u32 = match outcome {
            WaitOutcome::Exited(c) => if c > 255 {
                255
            } else {
                c
            },
            WaitOutcome::Signaled(s) => {
                let sig = if s > 127 {
                    127
                } else {
                    s
                };
                128 + sig
            },
        };
        let status = u64_to_dec(code as u64);
        self.set_exit_status(status);
        self.jobs.foreground = None;
    }

    /// Pushes a marker for an open bracket-like construct.
    pub fn nest_push(&mut self, marker: Vec<char>)
        ensures
            final(self).nest@ == old(self).nest@.push(marker),
            final(self).vars@ == old(self).vars@,
            final(self).functions@ == old(self).functions@,
            final(self).flags@ == old(self).flags@,
            final(self).jobs.entries@ == old(self).jobs.entries@,
            final(self).jobs.foreground == old(self).jobs.foreground,
            final(self).diagnostics@ == old(self).diagnostics@,
    {
        self.nest.push(marker);
    }

    /// Pops the innermost nesting marker, if any.
    pub fn nest_pop(&mut self)
        ensures
            old(self).nest@.len() == 0 ==> final(self).nest@ == old(self).nest@,
            old(self).nest@.len() > 0 ==> final(self).nest@ == old(self).nest@.drop_last(),
            final(self).vars@ == old(self).vars@,
            final(self).functions@ == old(self).functions@,
            final(self).flags@ == old(self).flags@,
            final(self).jobs.entries@ == old(self).jobs.entries@,
            final(self).jobs.foreground == old(self).jobs.foreground,
            final(self).diagnostics@ == old(self).diagnostics@,
    {
        let _ = self.nest.pop();
        proof {
            if old(self).nest@.len() > 0 {
                assert(self.nest@ =~= old(self).nest@.drop_last());
            }
        }
    }

    /// Leaves a diagnostic for the driver to report.
    pub fn push_diagnostic(&mut self, d: Diagnostic)
        ensures
            final(self).diagnostics@ == old(self).diagnostics@.push(d),
            final(self).vars@ == old(self).vars@,
            final(self).functions@ == old(self).functions@,
            final(self).flags@ == old(self).flags@,
            final(self).nest@ == old(self).nest@,
            final(self).jobs.entries@ == old(self).jobs.entries@,
            final(self).jobs.foreground == old(self).jobs.foreground,
    {
        self.diagnostics.push(d);
    }
}

/// The numeric exit code that a wait outcome maps to: the (capped) exit
/// code itself, or `128 + signal` for a signal death.
pub open spec fn wait_status_code(outcome: WaitOutcome) -> int {
    match outcome {
        WaitOutcome::Exited(c) => if c > 255 {
            255
        } else {
            c as int
        },
        WaitOutcome::Signaled(s) => if s > 127 {
            255
        } else {
            128 + s as int
        },
    }
}

/// Updating the first binding of `name` makes `lookup` of `name` find the
/// new value and leaves every other name's lookup unchanged.
proof fn lemma_lookup_update(pre: Seq<Binding>, post: Seq<Binding>, name: Seq<char>, i: int)
    requires
        0 <= i < pre.len(),
        post.len() == pre.len(),
        forall|j: int| 0 <= j < pre.len() && j != i ==> post[j] == pre[j],
        post[i].name@ == name,
        forall|j: int| 0 <= j < i ==> pre[j].name@ != name,
        pre[i].name@ == name,
    ensures
        lookup(post, name) == post[i].value@,
        forall|m: Seq<char>| m != name ==> #[trigger] lookup(post, m) == lookup(pre, m),
    decreases i,
{
    if i == 0 {
        assert(lookup(post, name) == post[0].value@);
        assert forall|m: Seq<char>| m != name implies #[trigger] lookup(post, m) == lookup(
            pre,
            m,
        ) by {
            assert(post.drop_first() =~= pre.drop_first());
            assert(pre[0].name@ == name);
            assert(lookup(post, m) == lookup(post.drop_first(), m));
            assert(lookup(pre, m) == lookup(pre.drop_first(), m));
        }
    } else {
        let pre1 = pre.drop_first();
        let post1 = post.drop_first();
        assert(post[0] == pre[0]);
        assert(pre[0].name@ != name);
        assert forall|j: int| 0 <= j < pre1.len() && j != i - 1 implies post1[j] == pre1[j] by {
            assert(post1[j] == post[j + 1]);
            assert(pre1[j] == pre[j + 1]);
        }
        assert(post1[i - 1] == post[i]);
        assert(pre1[i - 1] == pre[i]);
        assert forall|j: int| 0 <= j < i - 1 implies pre1[j].name@ != name by {
            assert(pre1[j] == pre[j + 1]);
        }
        lemma_lookup_update(pre1, post1, name, i - 1);
        assert(lookup(post, name) == lookup(post1, name));
        assert forall|m: Seq<char>| m != name implies #[trigger] lookup(post, m) == lookup(
            pre,
            m,
        ) by {
            if pre[0].name@ == m {
                assert(lookup(post, m) == post[0].value@);
                assert(lookup(pre, m) == pre[0].value@);
            } else {
                assert(lookup(post, m) == lookup(post1, m));
                assert(lookup(pre, m) == lookup(pre1, m));
            }
        }
    }
}

/// Appending a binding for a name that is absent makes `lookup` of that
/// name find it and leaves every other name's lookup unchanged.
proof fn lemma_lookup_append(pre: Seq<Binding>, post: Seq<Binding>, name: Seq<char>)
    requires
        post.len() == pre.len() + 1,
        forall|j: int| 0 <= j < pre.len() ==> post[j] == pre[j],
        post[pre.len() as int].name@ == name,
        forall|j: int| 0 <= j < pre.len() ==> pre[j].name@ != name,
    ensures
        lookup(post, name) == post[pre.len() as int].value@,
        forall|m: Seq<char>| m != name ==> #[trigger] lookup(post, m) == lookup(pre, m),
    decreases pre.len(),
{
    if pre.len() == 0 {
        assert(post[0].name@ == name);
        assert(lookup(post, name) == post[0].value@);
        assert forall|m: Seq<char>| m != name implies #[trigger] lookup(post, m) == lookup(
            pre,
            m,
        ) by {
            assert(lookup(pre, m) == Seq::<char>::empty());
            assert(post.drop_first().len() == 0);
            assert(lookup(post, m) == lookup(post.drop_first(), m));
        }
    } else {
        let pre1 = pre.drop_first();
        let post1 = post.drop_first();
        assert(post[0] == pre[0]);
        assert(pre[0].name@ != name);
        assert forall|j: int| 0 <= j < pre1.len() implies post1[j] == pre1[j] by {
            assert(post1[j] == post[j + 1]);
            assert(pre1[j] == pre[j + 1]);
        }
        assert(post1[pre1.len() as int] == post[pre.len() as int]);
        assert forall|j: int| 0 <= j < pre1.len() implies pre1[j].name@ != name by {
            assert(pre1[j] == pre[j + 1]);
        }
        lemma_lookup_append(pre1, post1, name);
        assert(lookup(post, name) == lookup(post1, name));
        assert forall|m: Seq<char>| m != name implies #[trigger] lookup(post, m) == lookup(
            pre,
            m,
        ) by {
            if pre[0].name@ == m {
                assert(lookup(post, m) == post[0].value@);
                assert(lookup(pre, m) == pre[0].value@);
            } else {
                assert(lookup(post, m) == lookup(post1, m));
                assert(lookup(pre, m) == lookup(pre1, m));
            }
        }
    }
}

} // verus!
