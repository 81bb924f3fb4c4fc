use vstd::prelude::*;

use crate::chars::{append_chars, blank_char, clone_chars, contains_char, copy_range, is_blank_char};
use crate::operators::ControlOperator;

verus! {

/// The incremental, backtrackable text buffer that parsing operates over.
///
/// `remaining` holds the unconsumed input; `source` is the queue of lines
/// that the abstract line provider has made available but that have not
/// yet been pulled into the buffer. The driver around the library reads
/// real input and enqueues it with `push_source_line`; every refill
/// operation here pulls from that queue, so interactive and batch input
/// are treated uniformly.
pub struct Feeder {
    pub remaining: Vec<char>,
    pub from_lineno: u32,
    pub to_lineno: u32,
    pub pos_in_line: u32,
    pub feed_stop: bool,
    pub source: Vec<Vec<char>>,
}

/// Saturating 32-bit addition used for line/column bookkeeping, so that
/// position counters stay monotone without ever aborting.
pub open spec fn sat_add32(a: u32, n: int) -> u32 {
    if a + n > u32::MAX {
        u32::MAX
    } else {
        (a + n) as u32
    }
}

/// The control operator recognized at the head of `s`, with
/// longest-match precedence: `&&` before `&`, `||` before `|`.
pub open spec fn control_op_kind(s: Seq<char>) -> Option<ControlOperator> {
    if s.len() >= 2 && s[0] == '&' && s[1] == '&' {
        Some(ControlOperator::And)
    } else if s.len() >= 2 && s[0] == '|' && s[1] == '|' {
        Some(ControlOperator::Or)
    } else if s.len() >= 1 && s[0] == '&' {
        Some(ControlOperator::BgAnd)
    } else if s.len() >= 1 && s[0] == '|' {
        Some(ControlOperator::Pipe)
    } else if s.len() >= 1 && s[0] == ';' {
        Some(ControlOperator::Semicolon)
    } else {
        None
    }
}

/// The length of the operator that `control_op_kind` recognizes.
pub open spec fn control_op_len(s: Seq<char>) -> int {
    match control_op_kind(s) {
        Some(ControlOperator::And) => 2,
        Some(ControlOperator::Or) => 2,
        Some(_) => 1,
        None => 0,
    }
}

/// Whether the pattern `pat` occurs in `s` at offset `i`.
pub open spec fn match_at(s: Seq<char>, pat: Seq<char>, i: int) -> bool {
    0 <= i && i + pat.len() <= s.len() && s.subrange(i, i + pat.len()) == pat
}

/// Whether `s` ends with an escaped newline (backslash, newline).
pub open spec fn ends_escaped_nl(s: Seq<char>) -> bool {
    s.len() >= 2 && s[s.len() - 2] == '\\' && s[s.len() - 1] == '\n'
}

/// The buffer and queue that result from pulling continuation lines until
/// the buffer no longer ends with an escaped newline. When the queue runs
/// out mid-continuation the whole buffer is discarded, mirroring the hard
/// end-of-input rule.
pub open spec fn join_continuations(buf: Seq<char>, src: Seq<Seq<char>>) -> (Seq<char>, Seq<
    Seq<char>,
>)
    decreases src.len(),
{
    if !ends_escaped_nl(buf) {
        (buf, src)
    } else if src.len() == 0 {
        (Seq::<char>::empty(), src)
    } else {
        join_continuations(buf.take(buf.len() - 2) + src[0], src.drop_first())
    }
}

/// The number of leading characters that belong to comment and
/// blank/newline runs: what the comment-skipping consumption removes.
pub open spec fn comment_blank_len(s: Seq<char>) -> int
    decreases s.len(),
    via comment_blank_len_dec
{
    if s.len() == 0 {
        0
    } else if is_blank_char(s[0]) || s[0] == '\n' {
        1 + comment_blank_len(s.drop_first())
    } else if s[0] == '#' {
        if crate::chars::seek(s, 0, seq!['\n']) >= s.len() {
            s.len() as int
        } else {
            crate::chars::seek(s, 0, seq!['\n']) + 1 + comment_blank_len(
                s.skip(crate::chars::seek(s, 0, seq!['\n']) + 1),
            )
        }
    } else {
        0
    }
}

#[via_fn]
proof fn comment_blank_len_dec(s: Seq<char>) {
    if s.len() > 0 && !(is_blank_char(s[0]) || s[0] == '\n') && s[0] == '#' {
        crate::chars::lemma_seek_bound(s, 0, seq!['\n']);
    }
}

/// The comment/blank prefix stays within the text.
pub proof fn lemma_comment_blank_len_bound(s: Seq<char>)
    ensures
        0 <= comment_blank_len(s) <= s.len(),
    decreases s.len(),
{
    if s.len() > 0 && (is_blank_char(s[0]) || s[0] == '\n') {
        lemma_comment_blank_len_bound(s.drop_first());
    } else if s.len() > 0 && s[0] == '#' {
        crate::chars::lemma_seek_bound(s, 0, seq!['\n']);
        if crate::chars::seek(s, 0, seq!['\n']) < s.len() {
            lemma_comment_blank_len_bound(s.skip(crate::chars::seek(s, 0, seq!['\n']) + 1));
        }
    }
}

/// Removing a run of `j` leading blanks and newlines shortens the
/// comment/blank prefix by exactly `j`.
proof fn lemma_comment_blank_len_blanks(s: Seq<char>, j: int)
    requires
        0 <= j <= s.len(),
        forall|k: int| 0 <= k < j ==> is_blank_char(#[trigger] s[k]) || s[k] == '\n',
    ensures
        comment_blank_len(s) == j + comment_blank_len(s.skip(j)),
    decreases j,
{
    if j > 0 {
        assert(s.drop_first() =~= s.skip(1));
        assert forall|k: int| 0 <= k < j - 1 implies is_blank_char(#[trigger] s.skip(1)[k])
            || s.skip(1)[k] == '\n' by {
            assert(s.skip(1)[k] == s[k + 1]);
        }
        lemma_comment_blank_len_blanks(s.skip(1), j - 1);
        assert(s.skip(1).skip(j - 1) =~= s.skip(j));
    } else {
        assert(s.skip(0) =~= s);
    }
}

/// The concatenation of a queue of source lines.
pub open spec fn src_flat(s: Seq<Seq<char>>) -> Seq<char>
    decreases s.len(),
{
    if s.len() == 0 {
        Seq::<char>::empty()
    } else {
        s[0] + src_flat(s.drop_first())
    }
}

/// Consuming from the buffer alone takes the cut off the front of the
/// whole pending input.
pub proof fn lemma_consume_total(pre: Feeder, post: Feeder, cut: Seq<char>)
    requires
        post.src() == pre.src(),
        cut + post.buf() == pre.buf(),
    ensures
        cut + post.total() == pre.total(),
{
    assert(cut + post.total() =~= pre.total());
}

/// Moving the first queued line into the buffer leaves the whole pending
/// input unchanged.
pub proof fn lemma_feed_total(pre: Feeder, post: Feeder)
    requires
        pre.src().len() > 0,
        post.buf() == pre.buf() + pre.src()[0],
        post.src() == pre.src().drop_first(),
    ensures
        post.total() == pre.total(),
{
    assert(src_flat(pre.src()) == pre.src()[0] + src_flat(pre.src().drop_first()));
    assert(post.total() =~= pre.total());
}

/// The queued source lines, viewed as sequences of characters.
pub open spec fn src_of(source: Seq<Vec<char>>) -> Seq<Seq<char>> {
    source.map_values(|v: Vec<char>| v@)
}

impl Feeder {
    /// The view of the unconsumed buffer.
    pub open spec fn buf(&self) -> Seq<char> {
        self.remaining@
    }

    /// The view of the queued, not yet delivered source lines.
    pub open spec fn src(&self) -> Seq<Seq<char>> {
        src_of(self.source@)
    }

    /// All pending input: the unconsumed buffer followed by the queued
    /// source lines.
    pub open spec fn total(&self) -> Seq<char> {
        self.buf() + src_flat(self.src())
    }

    /// The input a parse can ever see: the buffer alone when refill is
    /// stopped, otherwise the buffer plus every queued source line.
    pub open spec fn pending(&self) -> Seq<char> {
        if self.feed_stop {
            self.buf()
        } else {
            self.total()
        }
    }

    /// Two feeders are in the same state when buffer, counters, stop flag
    /// and pending source agree.
    pub open spec fn same_state(&self, other: &Feeder) -> bool {
        &&& self.buf() == other.buf()
        &&& self.from_lineno == other.from_lineno
        &&& self.to_lineno == other.to_lineno
        &&& self.pos_in_line == other.pos_in_line
        &&& self.feed_stop == other.feed_stop
        &&& self.src() == other.src()
    }

    /// Everything but the buffer text: counters, stop flag and source queue.
    pub open spec fn same_except_buf(&self, other: &Feeder) -> bool {
        &&& self.from_lineno == other.from_lineno
        &&& self.to_lineno == other.to_lineno
        &&& self.feed_stop == other.feed_stop
        &&& self.src() == other.src()
    }

    pub fn new() -> (r: Feeder)
        ensures
            r.buf() == Seq::<char>::empty(),
            r.src() == Seq::<Seq<char>>::empty(),
            r.from_lineno == 0,
            r.to_lineno == 0,
            r.pos_in_line == 0,
            !r.feed_stop,
    {
        let r = Feeder {
            remaining: Vec::new(),
            from_lineno: 0,
            to_lineno: 0,
            pos_in_line: 0,
            feed_stop: false,
            source: Vec::new(),
        };
        proof {
            assert(r.src() =~= Seq::<Seq<char>>::empty());
        }
        r
    }

    /// Constructs a feeder over a complete in-memory text, as used for
    /// isolated sub-parses such as command substitution bodies. No refill
    /// will ever be attempted (`feed_stop` is set).
    pub fn new_from(text: Vec<char>) -> (r: Feeder)
        ensures
            r.buf() == text@,
            r.src() == Seq::<Seq<char>>::empty(),
            r.from_lineno == 0,
            r.to_lineno == 0,
            r.pos_in_line == 0,
            r.feed_stop,
    {
        let mut r = Feeder::new();
        r.feed_stop = true;
        r.remaining = text;
        r
    }

    /// Makes one more line available to the refill operations. This is the
    /// queue of the abstract "next line" provider: the surrounding driver
    /// reads real input and enqueues it here.
    pub fn push_source_line(&mut self, line: Vec<char>)
        ensures
            final(self).src() == old(self).src().push(line@),
            final(self).buf() == old(self).buf(),
            final(self).from_lineno == old(self).from_lineno,
            final(self).to_lineno == old(self).to_lineno,
            final(self).pos_in_line == old(self).pos_in_line,
            final(self).feed_stop == old(self).feed_stop,
    {
        self.source.push(line);
        proof {
            assert(self.src() =~= old(self).src().push(line@));
        }
    }

    pub fn lineno(&self) -> (r: (u32, u32))
        ensures
            r == (self.from_lineno, self.to_lineno),
    {
        (self.from_lineno, self.to_lineno)
    }

    pub fn pos(&self) -> (r: u32)
        ensures
            r == self.pos_in_line,
    {
        self.pos_in_line
    }

    pub fn len(&self) -> (r: usize)
        ensures
            r == self.buf().len(),
    {
        self.remaining.len()
    }

    /// The suffix of the buffer starting at `s`, as a fresh vector.
    pub fn chars_after(&self, s: usize) -> (r: Vec<char>)
        requires
            s <= self.buf().len(),
        ensures
            r@ == self.buf().skip(s as int),
    {
        let r = copy_range(&self.remaining, s, self.remaining.len());
        proof {
            assert(self.buf().subrange(s as int, self.buf().len() as int) =~= self.buf().skip(
                s as int,
            ));
        }
        r
    }

    /// The `p`-th buffered character, or `None` past the end. An index out
    /// of range surfaces as a recoverable `None`, never as an abort.
    pub fn nth(&self, p: usize) -> (r: Option<char>)
        ensures
            p < self.buf().len() ==> r == Some(self.buf()[p as int]),
            p >= self.buf().len() ==> r is None,
    {
        if p < self.remaining.len() {
            Some(self.remaining[p])
        } else {
            None
        }
    }

    /// A structural copy of the whole feeder state, taken before a
    /// speculative parse so that `rewind` can restore it.
    pub fn snapshot(&self) -> (r: Feeder)
        ensures
            r.same_state(self),
    {
        let mut source: Vec<Vec<char>> = Vec::new();
        let mut i: usize = 0;
        while i < self.source.len()
            invariant
                i <= self.source@.len(),
                src_of(source@) == src_of(self.source@).take(i as int),
            decreases self.source@.len() - i,
        {
            let line = clone_chars(&self.source[i]);
            proof {
                let lhs = src_of(source@.push(line));
                let rhs = src_of(self.source@).take((i + 1) as int);
                assert(src_of(source@).len() == src_of(self.source@).take(i as int).len());
                assert(source@.len() == i);
                assert forall|j: int| 0 <= j < i + 1 implies lhs[j] == rhs[j] by {
                    if j < i {
                        assert(source@.push(line)[j] == source@[j]);
                        assert(lhs[j] == src_of(source@)[j]);
                    } else {
                        assert(source@.push(line)[j] == line);
                    }
                }
                assert(lhs =~= rhs);
            }
            source.push(line);
            i = i + 1;
        }
        proof {
            assert(src_of(self.source@).take(self.source@.len() as int) =~= src_of(self.source@));
        }
        Feeder {
            remaining: clone_chars(&self.remaining),
            from_lineno: self.from_lineno,
            to_lineno: self.to_lineno,
            pos_in_line: self.pos_in_line,
            feed_stop: self.feed_stop,
            source,
        }
    }

    /// Restores the entire buffer/position state from a previously taken
    /// snapshot; used whenever a speculative production fails.
    pub fn rewind(&mut self, backup: Feeder)
        ensures
            final(self).same_state(&backup),
    {
        *self = backup;
    }

    /// Removes and returns the first `cutpos` buffered characters,
    /// advancing the in-line column. The caller guarantees the bound.
    pub fn consume(&mut self, cutpos: usize) -> (cut: Vec<char>)
        requires
            cutpos <= old(self).buf().len(),
        ensures
            cut@ == old(self).buf().take(cutpos as int),
            final(self).buf() == old(self).buf().skip(cutpos as int),
            final(self).pos_in_line == sat_add32(old(self).pos_in_line, cutpos as int),
            final(self).same_except_buf(old(self)),
    {
        let cut = copy_range(&self.remaining, 0, cutpos);
        let rest = copy_range(&self.remaining, cutpos, self.remaining.len());
        self.remaining = rest;
        if cutpos as u64 > (u32::MAX - self.pos_in_line) as u64 {
            self.pos_in_line = u32::MAX;
        } else {
            self.pos_in_line = self.pos_in_line + (cutpos as u32);
        }
        proof {
            assert(cut@ =~= old(self).buf().take(cutpos as int));
            assert(self.buf() =~= old(self).buf().skip(cutpos as int));
        }
        cut
    }

    /// Whether the buffer starts with the given prefix.
    pub fn starts_with(&self, prefix: &Vec<char>) -> (r: bool)
        ensures
            r == prefix@.is_prefix_of(self.buf()),
    {
        if prefix.len() > self.remaining.len() {
            return false;
        }
        let mut i: usize = 0;
        while i < prefix.len()
            invariant
                prefix@.len() <= self.buf().len(),
                i <= prefix@.len(),
                forall|j: int| 0 <= j < i ==> prefix@[j] == self.buf()[j],
            decreases prefix@.len() - i,
        {
            if prefix[i] != self.remaining[i] {
                proof {
                    assert(self.buf().take(prefix@.len() as int)[i as int] != prefix@[i as int]);
                }
                return false;
            }
            i = i + 1;
        }
        proof {
            assert(prefix@ =~= self.buf().take(prefix@.len() as int));
        }
        true
    }


    /// The offset of the first buffered character at or after `start` that
    /// occurs in `stops`, or the buffer length if none does.
    pub fn scanner_until(&self, start: usize, stops: &Vec<char>) -> (r: usize)
        requires
            start <= self.buf().len(),
        ensures
            start <= r <= self.buf().len(),
            forall|i: int| start <= i < r ==> !stops@.contains(#[trigger] self.buf()[i]),
            r < self.buf().len() ==> stops@.contains(self.buf()[r as int]),
    {
        let mut i: usize = start;
        while i < self.remaining.len()
            invariant
                start <= i <= self.buf().len(),
                forall|j: int| start <= j < i ==> !stops@.contains(#[trigger] self.buf()[j]),
            decreases self.buf().len() - i,
        {
            if contains_char(stops, self.remaining[i]) {
                return i;
            }
            i = i + 1;
        }
        i
    }

    /// The length of the run of characters of the class `class` that
    /// starts at `start`.
    pub fn scanner_while(&self, start: usize, class: &Vec<char>) -> (r: usize)
        requires
            start <= self.buf().len(),
        ensures
            start + r <= self.buf().len(),
            forall|i: int| start <= i < start + r ==> class@.contains(#[trigger] self.buf()[i]),
            start + r < self.buf().len() ==> !class@.contains(self.buf()[(start + r) as int]),
    {
        let mut i: usize = start;
        while i < self.remaining.len()
            invariant
                start <= i <= self.buf().len(),
                forall|j: int| start <= j < i ==> class@.contains(#[trigger] self.buf()[j]),
            decreases self.buf().len() - i,
        {
            if !contains_char(class, self.remaining[i]) {
                return i - start;
            }
            i = i + 1;
        }
        i - start
    }

    /// The length of the run of blanks (space or tab) starting at `start`.
    pub fn scanner_blank_part(&self, start: usize) -> (r: usize)
        requires
            start <= self.buf().len(),
        ensures
            start + r <= self.buf().len(),
            forall|i: int| start <= i < start + r ==> is_blank_char(#[trigger] self.buf()[i]),
            start + r < self.buf().len() ==> !is_blank_char(self.buf()[(start + r) as int]),
    {
        let mut i: usize = start;
        while i < self.remaining.len()
            invariant
                start <= i <= self.buf().len(),
                forall|j: int| start <= j < i ==> is_blank_char(#[trigger] self.buf()[j]),
            decreases self.buf().len() - i,
        {
            if !blank_char(self.remaining[i]) {
                return i - start;
            }
            i = i + 1;
        }
        i - start
    }

    /// The length of the blank run at the head of the buffer.
    pub fn scanner_blank(&self) -> (r: usize)
        ensures
            r <= self.buf().len(),
            forall|i: int| 0 <= i < r ==> is_blank_char(#[trigger] self.buf()[i]),
            r < self.buf().len() ==> !is_blank_char(self.buf()[r as int]),
    {
        self.scanner_blank_part(0)
    }

    /// Recognizes a control operator at the head of the buffer, with
    /// longest-match precedence: `&&` before `&`, `||` before `|`.
    pub fn scanner_control_op(&self) -> (r: (usize, Option<ControlOperator>))
        ensures
            r.0 == control_op_len(self.buf()),
            r.1 == control_op_kind(self.buf()),
            r.0 <= self.buf().len(),
    {
        if self.remaining.len() >= 2 && self.remaining[0] == '&' && self.remaining[1] == '&' {
            (2, Some(ControlOperator::And))
        } else if self.remaining.len() >= 2 && self.remaining[0] == '|' && self.remaining[1]
            == '|' {
            (2, Some(ControlOperator::Or))
        } else if self.remaining.len() >= 1 && self.remaining[0] == '&' {
            (1, Some(ControlOperator::BgAnd))
        } else if self.remaining.len() >= 1 && self.remaining[0] == '|' {
            (1, Some(ControlOperator::Pipe))
        } else if self.remaining.len() >= 1 && self.remaining[0] == ';' {
            (1, Some(ControlOperator::Semicolon))
        } else {
            (0, None)
        }
    }

    /// Consumes the blank run at the head of the buffer.
    pub fn consume_blank(&mut self) -> (r: Vec<char>)
        ensures
            r@ + final(self).buf() == old(self).buf(),
            forall|i: int| 0 <= i < r@.len() ==> is_blank_char(#[trigger] r@[i]),
            final(self).buf().len() > 0 ==> !is_blank_char(final(self).buf()[0]),
            final(self).same_except_buf(old(self)),
    {
        let d = self.scanner_blank();
        let r = self.consume(d);
        proof {
            assert(r@ + self.buf() =~= old(self).buf());
        }
        r
    }

    /// Consumes one `#`-to-newline comment at the head of the buffer,
    /// including the newline when it is buffered.
    pub fn consume_comment(&mut self) -> (r: Vec<char>)
        ensures
            r@ + final(self).buf() == old(self).buf(),
            final(self).same_except_buf(old(self)),
            (r@.len() > 0) <==> (old(self).buf().len() > 0 && old(self).buf()[0] == '#'),
            r@.len() > 0 ==> r@[0] == '#',
            forall|i: int| 0 <= i < r@.len() - 1 ==> r@[i] != '\n',
            r@.len() > 0 && final(self).buf().len() > 0 ==> r@.last() == '\n',
    {
        let mut ans: Vec<char> = Vec::new();
        if self.len() != 0 && matches!(self.nth(0), Some('#')) {
            let stops = vec!['\n'];
            let d = self.scanner_until(0, &stops);
            assert(d > 0) by {
                if d == 0 {
                    assert(stops@.contains(old(self).buf()[0]));
                    assert(stops@[0] == '\n');
                }
            }
            let c = self.consume(d);
            append_chars(&mut ans, &c);
            if self.len() != 0 && matches!(self.nth(0), Some('\n')) {
                let c2 = self.consume(1);
                append_chars(&mut ans, &c2);
            }
        }
        proof {
            assert(ans@ + self.buf() =~= old(self).buf());
        }
        ans
    }

    /// Consumes the maximal run of blanks and newlines at the head of the
    /// buffer.
    pub fn consume_blank_return(&mut self) -> (r: Vec<char>)
        ensures
            r@ + final(self).buf() == old(self).buf(),
            forall|i: int|
                0 <= i < r@.len() ==> is_blank_char(#[trigger] r@[i]) || r@[i] == '\n',
            final(self).buf().len() > 0 ==> !is_blank_char(final(self).buf()[0])
                && final(self).buf()[0] != '\n',
            final(self).same_except_buf(old(self)),
    {
        let mut ans: Vec<char> = Vec::new();
        loop
            invariant
                ans@ + self.buf() == old(self).buf(),
                forall|i: int|
                    0 <= i < ans@.len() ==> is_blank_char(#[trigger] ans@[i]) || ans@[i] == '\n',
                self.same_except_buf(old(self)),
            ensures
                ans@ + self.buf() == old(self).buf(),
                forall|i: int|
                    0 <= i < ans@.len() ==> is_blank_char(#[trigger] ans@[i]) || ans@[i] == '\n',
                self.buf().len() > 0 ==> !is_blank_char(self.buf()[0]) && self.buf()[0] != '\n',
                self.same_except_buf(old(self)),
            decreases self.buf().len(),
        {
            let d = self.scanner_blank();
            if d != 0 {
                let c = self.consume(d);
                append_chars(&mut ans, &c);
                proof {
                    assert(ans@ + self.buf() =~= old(self).buf());
                }
            } else if self.len() > 0 && matches!(self.nth(0), Some('\n')) {
                let c = self.consume(1);
                append_chars(&mut ans, &c);
                proof {
                    assert(ans@ + self.buf() =~= old(self).buf());
                }
            } else {
                break;
            }
        }
        ans
    }

    /// Consumes any run of comments, blanks and newlines at the head of
    /// the buffer.
    pub fn consume_comment_multiline(&mut self) -> (r: Vec<char>)
        ensures
            r@ + final(self).buf() == old(self).buf(),
            r@ == old(self).buf().take(comment_blank_len(old(self).buf())),
            final(self).same_except_buf(old(self)),
            final(self).buf().len() > 0 ==> !is_blank_char(final(self).buf()[0])
                && final(self).buf()[0] != '\n' && final(self).buf()[0] != '#',
            (old(self).buf().len() == 0 || (!is_blank_char(old(self).buf()[0]) && old(self).buf()[0] != '\n' && old(self).buf()[0] != '#')) ==> r@.len() == 0 && final(self).buf() == old(self).buf(),
    {
        let mut ans: Vec<char> = Vec::new();
        proof {
            lemma_comment_blank_len_bound(old(self).buf());
        }
        loop
            invariant
                ans@ + self.buf() == old(self).buf(),
                self.same_except_buf(old(self)),
                comment_blank_len(old(self).buf()) == ans@.len() + comment_blank_len(
                    self.buf(),
                ),
                (old(self).buf().len() == 0 || (!is_blank_char(old(self).buf()[0]) && old(self).buf()[0] != '\n' && old(self).buf()[0] != '#')) ==> ans@.len() == 0,
            ensures
                ans@ + self.buf() == old(self).buf(),
                self.same_except_buf(old(self)),
                comment_blank_len(old(self).buf()) == ans@.len() + comment_blank_len(
                    self.buf(),
                ),
                self.buf().len() > 0 ==> !is_blank_char(self.buf()[0]) && self.buf()[0] != '\n'
                    && self.buf()[0] != '#',
                (old(self).buf().len() == 0 || (!is_blank_char(old(self).buf()[0]) && old(self).buf()[0] != '\n' && old(self).buf()[0] != '#')) ==> ans@.len() == 0,
            decreases self.buf().len(),
        {
            let org_len = ans.len();
            let ghost pre = ans@;
            let ghost b0 = self.buf();
            let c = self.consume_comment();
            let ghost b1 = self.buf();
            let c2 = self.consume_blank_return();
            proof {
                // the comment accounts for the head of the comment/blank prefix
                if c@.len() > 0 {
                    assert(b0[0] == '#');
                    if b1.len() > 0 {
                        assert(c@.last() == '\n');
                        assert forall|k: int| 0 <= k < c@.len() - 1 implies !seq![
                            '\n'
                        ].contains(#[trigger] b0[k]) by {
                            assert(b0[k] == c@[k]);
                        }
                        assert(b0[c@.len() - 1] == '\n');
                        assert(seq!['\n'].contains('\n')) by {
                            assert(seq!['\n'][0] == '\n');
                        }
                        crate::chars::lemma_seek_run(b0, 0, c@.len() - 1, seq!['\n']);
                        assert(b1 =~= b0.skip(c@.len() as int));
                        assert(comment_blank_len(b0) == c@.len() + comment_blank_len(b1));
                    } else {
                        // the comment ran to the end of the buffer
                        assert(b1 =~= b0.skip(c@.len() as int));
                        assert(c@.len() == b0.len());
                        assert(seq!['\n'].contains('\n')) by {
                            assert(seq!['\n'][0] == '\n');
                        }
                        if c@.last() == '\n' {
                            assert forall|k: int| 0 <= k < c@.len() - 1 implies !seq![
                                '\n'
                            ].contains(#[trigger] b0[k]) by {
                                assert(b0[k] == c@[k]);
                            }
                            assert(b0[c@.len() - 1] == '\n');
                            crate::chars::lemma_seek_run(b0, 0, c@.len() - 1, seq!['\n']);
                        } else {
                            assert forall|k: int| 0 <= k < b0.len() implies !seq![
                                '\n'
                            ].contains(#[trigger] b0[k]) by {
                                assert(b0[k] == c@[k]);
                            }
                            crate::chars::lemma_seek_run(b0, 0, b0.len() as int, seq!['\n']);
                        }
                        assert(comment_blank_len(b0) == c@.len() + comment_blank_len(b1));
                    }
                } else {
                    assert(b1 == b0);
                }
                // the blank/newline run accounts for the rest of the step
                assert forall|k: int| 0 <= k < c2@.len() implies is_blank_char(
                    #[trigger] b1[k],
                ) || b1[k] == '\n' by {
                    assert(c2@[k] == b1[k]);
                }
                lemma_comment_blank_len_blanks(b1, c2@.len() as int);
                assert(self.buf() =~= b1.skip(c2@.len() as int));
            }
            append_chars(&mut ans, &c);
            append_chars(&mut ans, &c2);
            proof {
                assert(ans@ =~= pre + (c@ + c2@));
                assert(ans@ + self.buf() =~= old(self).buf());
            }
            if ans.len() == org_len {
                break;
            }
        }
        proof {
            assert(ans@ =~= old(self).buf().take(comment_blank_len(old(self).buf())));
        }
        ans
    }


    /// Replaces the first occurrence of `from` in the buffer by `to`;
    /// leaves the buffer unchanged when `from` does not occur.
    pub fn replace(&mut self, from: &Vec<char>, to: &Vec<char>)
        ensures
            final(self).same_except_buf(old(self)),
            final(self).pos_in_line == old(self).pos_in_line,
            (forall|i: int| !match_at(old(self).buf(), from@, i)) ==> final(self).buf() == old(self).buf(),
            (exists|i: int| match_at(old(self).buf(), from@, i)) ==> exists|i: int|
                {
                    &&& #[trigger] match_at(old(self).buf(), from@, i)
                    &&& forall|j: int| 0 <= j < i ==> !match_at(old(self).buf(), from@, j)
                    &&& final(self).buf() == old(self).buf().take(i) + to@ + old(self).buf().skip(
                        i + from@.len(),
                    )
                },
    {
        if from.len() == 0 {
            let mut out = clone_chars(to);
            let rest = clone_chars(&self.remaining);
            append_chars(&mut out, &rest);
            proof {
                assert(match_at(self.buf(), from@, 0)) by {
                    assert(self.buf().subrange(0, 0) =~= from@);
                }
                assert(out@ =~= self.buf().take(0) + to@ + self.buf().skip(0));
            }
            self.remaining = out;
            return ;
        }
        if from.len() > self.remaining.len() {
            proof {
                assert(forall|i: int| !match_at(self.buf(), from@, i));
            }
            return ;
        }
        let total_len = self.remaining.len();
        let bound = total_len - from.len();
        let mut i: usize = 0;
        while i <= bound
            invariant
                from@.len() > 0,
                from@.len() <= self.buf().len(),
                bound == self.buf().len() - from@.len(),
                i <= bound + 1,
                forall|j: int| 0 <= j < i ==> !match_at(self.buf(), from@, j),
                self.buf() == old(self).buf(),
                self.same_except_buf(old(self)),
                self.pos_in_line == old(self).pos_in_line,
                total_len == self.buf().len(),
            decreases bound + 1 - i,
        {
            if self.match_here(from, i) {
                let mut out = copy_range(&self.remaining, 0, i);
                append_chars(&mut out, to);
                let tail = copy_range(&self.remaining, i + from.len(), self.remaining.len());
                append_chars(&mut out, &tail);
                proof {
                    assert(out@ == self.buf().take(i as int) + to@ + self.buf().skip(
                        i + from@.len(),
                    ));
                }
                self.remaining = out;
                return ;
            }
            i = i + 1;
        }
        proof {
            assert forall|j: int| !match_at(self.buf(), from@, j) by {
                if 0 <= j && j + from@.len() <= self.buf().len() {
                    assert(j < i);
                }
            }
        }
    }

    /// Whether `pat` occurs in the buffer at offset `i`.
    fn match_here(&self, pat: &Vec<char>, i: usize) -> (r: bool)
        requires
            i + pat@.len() <= self.buf().len(),
        ensures
            r == match_at(self.buf(), pat@, i as int),
    {
        let n = self.remaining.len();
        let mut k: usize = 0;
        while k < pat.len()
            invariant
                i + pat@.len() <= self.buf().len(),
                n == self.buf().len(),
                k <= pat@.len(),
                forall|j: int| 0 <= j < k ==> self.buf()[i + j] == pat@[j],
            decreases pat@.len() - k,
        {
            if self.remaining[i + k] != pat[k] {
                proof {
                    assert(self.buf().subrange(i as int, i + pat@.len())[k as int] != pat@[
                        k as int
                    ]);
                }
                return false;
            }
            k = k + 1;
        }
        proof {
            assert(self.buf().subrange(i as int, i + pat@.len()) =~= pat@);
        }
        true
    }

    /// Pops the next line from the source queue, or reports that no
    /// further input is available.
    fn next_source_line(&mut self) -> (r: Option<Vec<char>>)
        ensures
            (old(self).feed_stop || old(self).src().len() == 0) ==> r is None && final(self).same_state(old(self)),
            !(old(self).feed_stop || old(self).src().len() == 0) ==> match r {
                Some(l) => {
                    &&& l@ == old(self).src()[0]
                    &&& final(self).src() == old(self).src().drop_first()
                    &&& final(self).buf() == old(self).buf()
                    &&& final(self).from_lineno == old(self).from_lineno
                    &&& final(self).to_lineno == old(self).to_lineno
                    &&& final(self).pos_in_line == old(self).pos_in_line
                    &&& final(self).feed_stop == old(self).feed_stop
                },
                None => false,
            },
    {
        if self.feed_stop {
            return None;
        }
        if self.source.len() == 0 {
            return None;
        }
        let line = self.source.remove(0);
        proof {
            assert(self.src() =~= old(self).src().drop_first());
        }
        Some(line)
    }

    /// Ingests one line into the buffer, advancing the line counters and
    /// resetting the column when the buffer was empty.
    pub fn add_line(&mut self, line: Vec<char>)
        ensures
            final(self).buf() == old(self).buf() + line@,
            final(self).to_lineno == sat_add32(old(self).to_lineno, 1),
            old(self).buf().len() == 0 ==> final(self).from_lineno == final(self).to_lineno
                && final(self).pos_in_line == 0,
            old(self).buf().len() > 0 ==> final(self).from_lineno == old(self).from_lineno
                && final(self).pos_in_line == old(self).pos_in_line,
            final(self).src() == old(self).src(),
            final(self).feed_stop == old(self).feed_stop,
    {
        if self.to_lineno < u32::MAX {
            self.to_lineno = self.to_lineno + 1;
        }
        if self.remaining.len() == 0 {
            self.from_lineno = self.to_lineno;
            self.pos_in_line = 0;
            self.remaining = line;
            proof {
                assert(self.buf() =~= old(self).buf() + self.buf());
            }
        } else {
            let mut l = line;
            self.remaining.append(&mut l);
        }
    }

    /// Pulls one more line from the source queue into the buffer. Returns
    /// false, changing nothing, when no further input is available.
    pub fn feed_additional_line(&mut self) -> (r: bool)
        ensures
            !r ==> final(self).same_state(old(self)) && (old(self).feed_stop || old(self).src().len() == 0),
            r ==> {
                &&& !old(self).feed_stop
                &&& old(self).src().len() > 0
                &&& final(self).buf() == old(self).buf() + old(self).src()[0]
                &&& final(self).src() == old(self).src().drop_first()
                &&& final(self).feed_stop == old(self).feed_stop
                &&& final(self).to_lineno == sat_add32(old(self).to_lineno, 1)
                &&& (old(self).buf().len() == 0 ==> final(self).pos_in_line == 0 && final(self).from_lineno == final(self).to_lineno)
                &&& (old(self).buf().len() > 0 ==> final(self).pos_in_line == old(self).pos_in_line
                    && final(self).from_lineno == old(self).from_lineno)
                &&& final(self).total() == old(self).total()
            },
    {
        match self.next_source_line() {
            Some(line) => {
                self.add_line(line);
                proof {
                    lemma_feed_total(*old(self), *self);
                }
                true
            },
            None => false,
        }
    }

    /// Pulls the next line into the buffer and then keeps pulling while
    /// the buffer ends with an escaped newline, joining continuation
    /// lines. When the source runs out mid-continuation the buffer is
    /// discarded, so an incomplete fragment is never re-parsed.
    pub fn feed_line(&mut self) -> (r: bool)
        ensures
            !r ==> final(self).same_state(old(self)) && (old(self).feed_stop || old(self).src().len() == 0),
            r ==> {
                &&& !old(self).feed_stop
                &&& old(self).src().len() > 0
                &&& (final(self).buf(), final(self).src()) == join_continuations(
                    old(self).buf() + old(self).src()[0],
                    old(self).src().drop_first(),
                )
                &&& final(self).feed_stop == old(self).feed_stop
            },
    {
        if self.feed_stop {
            return false;
        }
        if !self.feed_additional_line() {
            return false;
        }
        loop
            invariant
                !self.feed_stop,
                self.feed_stop == old(self).feed_stop,
                old(self).src().len() > 0,
                join_continuations(self.buf(), self.src()) == join_continuations(
                    old(self).buf() + old(self).src()[0],
                    old(self).src().drop_first(),
                ),
            ensures
                (self.buf(), self.src()) == join_continuations(
                    old(self).buf() + old(self).src()[0],
                    old(self).src().drop_first(),
                ),
                self.feed_stop == old(self).feed_stop,
            decreases self.src().len(),
        {
            let n = self.remaining.len();
            if !(n >= 2) {
                break;
            }
            if !(self.remaining[n - 2] == '\\' && self.remaining[n - 1] == '\n') {
                break;
            }
            let ghost pre = *self;
            self.remaining.pop();
            self.remaining.pop();
            proof {
                assert(self.buf() =~= pre.buf().take(pre.buf().len() - 2));
            }
            if !self.feed_additional_line() {
                self.remaining = Vec::new();
                proof {
                    assert(self.buf() =~= Seq::<char>::empty());
                }
                return true;
            }
        }
        true
    }

    /// Consumes trailing blank/newline runs, then refills once if the
    /// buffer is now empty; used between grammar productions. Returns the
    /// consumed blank text.
    pub fn request_next_line(&mut self) -> (t: Vec<char>)
        ensures
            forall|i: int|
                0 <= i < t@.len() ==> is_blank_char(#[trigger] t@[i]) || t@[i] == '\n',
            t@.len() <= old(self).buf().len() && t@ == old(self).buf().take(t@.len() as int),
            old(self).buf().skip(t@.len() as int).len() > 0 ==> final(self).buf() == old(self).buf().skip(t@.len() as int) && final(self).src() == old(self).src(),
            old(self).buf().skip(t@.len() as int).len() == 0 ==> {
                &&& ((old(self).feed_stop || old(self).src().len() == 0) ==> final(self).buf().len() == 0 && final(self).src() == old(self).src())
                &&& (!(old(self).feed_stop || old(self).src().len() == 0) ==> final(self).buf()
                    == old(self).src()[0] && final(self).src() == old(self).src().drop_first())
            },
            final(self).feed_stop == old(self).feed_stop,
            t@ + final(self).total() == old(self).total(),
    {
        let t = self.consume_blank_return();
        proof {
            assert(old(self).buf().take(t@.len() as int) =~= t@);
            assert(old(self).buf().skip(t@.len() as int) =~= self.buf());
            lemma_consume_total(*old(self), *self, t@);
        }
        if self.len() == 0 {
            let _ = self.feed_additional_line();
        }
        t
    }

    /// Restores the state from `backup`, then attempts exactly one
    /// refill; the core backtracking-with-more-input primitive. Returns
    /// the new snapshot and whether the refill succeeded.
    pub fn rewind_feed_backup(&mut self, backup: &Feeder) -> (r: (Feeder, bool))
        ensures
            r.0.same_state(final(self)),
            !r.1 ==> final(self).same_state(backup) && (backup.feed_stop || backup.src().len()
                == 0),
            r.1 ==> {
                &&& !backup.feed_stop
                &&& backup.src().len() > 0
                &&& final(self).buf() == backup.buf() + backup.src()[0]
                &&& final(self).src() == backup.src().drop_first()
                &&& final(self).feed_stop == backup.feed_stop
            },
    {
        let b = backup.snapshot();
        self.rewind(b);
        let res = self.feed_additional_line();
        (self.snapshot(), res)
    }

    /// The substring `[from, to)` of the buffer.
    pub fn from_to(&self, from: usize, to: usize) -> (r: Vec<char>)
        requires
            from <= to <= self.buf().len(),
        ensures
            r@ == self.buf().subrange(from as int, to as int),
    {
        copy_range(&self.remaining, from, to)
    }
}

} // verus!
