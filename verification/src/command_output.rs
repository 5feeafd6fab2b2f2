//! The output of commands, kept within bounds for error messages.
use vstd::prelude::*;
use std::collections::VecDeque;
use crate::paths::texts;
use crate::text::{
    chars_of, from_utf8_lossy, law_what_is_cut_off, text_of, trim_trailing, utf8_lossy,
    without_trailing,
};

verus! {

/// How many lines of output are kept.
pub const COMMAND_OUTPUT_TAIL_LINES: usize = 40;

/// A line with more bytes than this is cut.
pub const COMMAND_OUTPUT_MAX_LINE_LEN: usize = 400;

/// How many bytes of a line are read at most; the rest of the line is skipped.
pub const COMMAND_OUTPUT_MAX_LINE_BYTES: usize = 8192;

/// The number of bytes up to and including the first line break, or of all bytes where there is
/// none.
pub open spec fn line_length(bytes: Seq<u8>) -> nat
    decreases bytes.len(),
{
    if bytes.len() == 0 {
        0
    } else if bytes[0] == 10 {
        1
    } else {
        1 + line_length(bytes.drop_first())
    }
}

/// The smaller of two numbers.
pub open spec fn smaller(a: int, b: int) -> int {
    if a <= b {
        a
    } else {
        b
    }
}

/// What is kept of a line after some more bytes of it: as many as fit.
pub open spec fn kept_bytes(kept: Seq<u8>, bytes: Seq<u8>, cap: nat) -> Seq<u8> {
    let room = if cap >= kept.len() {
        cap - kept.len()
    } else {
        0
    };
    kept + bytes.take(smaller(bytes.len() as int, room))
}

proof fn lemma_line_length(bytes: Seq<u8>)
    ensures
        line_length(bytes) <= bytes.len(),
        bytes.len() > 0 ==> line_length(bytes) > 0,
        forall|j: int| 0 <= j < line_length(bytes) - 1 ==> bytes[j] != 10,
        line_length(bytes) < bytes.len() ==> bytes[line_length(bytes) - 1] == 10,
    decreases bytes.len(),
{
    if bytes.len() > 0 && bytes[0] != 10 {
        let rest = bytes.drop_first();
        lemma_line_length(rest);
        assert forall|j: int| 0 <= j < line_length(bytes) - 1 implies bytes[j] != 10 by {
            if j > 0 {
                assert(rest[j - 1] == bytes[j]);
            }
        }
        if line_length(bytes) < bytes.len() {
            assert(rest[line_length(rest) - 1] == bytes[line_length(bytes) - 1]);
        }
    }
}

/// What was taken of some bytes.
#[derive(Debug, Clone, Copy, PartialEq, Eq, Structural)]
pub struct Taken {
    /// How many bytes are used up, kept or not.
    pub consumed: usize,
    /// Whether the line is complete.
    pub complete: bool,
}

/// Takes the bytes of a line from what is available, keeping as many as fit.
pub fn take_line_bytes(kept: &mut Vec<u8>, available: &[u8], cap: usize) -> (r: Taken)
    ensures
        r.consumed == line_length(available@),
        r.complete == (available@.len() > 0 && available@[line_length(available@) - 1] == 10),
        final(kept)@ == kept_bytes(
            old(kept)@,
            available@.take(line_length(available@) as int),
            cap as nat,
        ),
{
    let ghost start = kept@;
    let mut n: usize = 0;
    let mut complete = false;
    let ghost all = available@;
    proof {
        lemma_line_length(all);
        assert(all.skip(0) =~= all);
        assert(kept@ =~= kept_bytes(start, all.take(0), cap as nat));
    }
    while n < available.len() && !complete
        invariant
            n <= all.len(),
            all == available@,
            complete ==> n > 0 && all[n - 1] == 10 && n == line_length(all),
            !complete ==> line_length(all) == n + line_length(all.skip(n as int)),
            !complete ==> forall|j: int| 0 <= j < n ==> all[j] != 10,
            kept@ == kept_bytes(start, all.take(n as int), cap as nat),
        decreases all.len() - n,
    {
        let b: u8 = available[n];
        proof {
            assert(all.skip(n as int)[0] == b);
            assert(all.skip(n as int).drop_first() =~= all.skip(n + 1));
            assert(all.take(n + 1) =~= all.take(n as int).push(b));
        }
        let ghost before = kept@;
        if kept.len() < cap {
            kept.push(b);
        }
        assert(kept@ =~= kept_bytes(start, all.take(n + 1), cap as nat));
        if b == 10 {
            complete = true;
        }
        n = n + 1;
    }
    proof {
        if !complete {
            assert(all.skip(n as int) =~= Seq::<u8>::empty());
        }
    }
    Taken { consumed: n, complete }
}

/// Reads a line from bytes in memory, from position `pos` on, keeping at most `cap` bytes of it.
/// Returns where the next line begins, or nothing at the end.
pub fn read_line_capped(bytes: &[u8], pos: usize, kept: &mut Vec<u8>, cap: usize) -> (r: Option<
    usize,
>)
    requires
        pos <= bytes@.len(),
    ensures
        match r {
            Some(next) => pos < bytes@.len() && next == pos + line_length(bytes@.skip(pos as int))
                && next <= bytes@.len() && final(kept)@ == kept_bytes(
                old(kept)@,
                bytes@.subrange(pos as int, next as int),
                cap as nat,
            ),
            None => pos == bytes@.len() && final(kept)@ == old(kept)@,
        },
{
    if pos == bytes.len() {
        return None;
    }
    let rest = vstd::slice::slice_subrange(bytes, pos, bytes.len());
    assert(rest@ =~= bytes@.skip(pos as int));
    proof {
        lemma_line_length(rest@);
    }
    let taken = take_line_bytes(kept, rest, cap);
    assert(rest@.take(taken.consumed as int) =~= bytes@.subrange(pos as int, pos + taken.consumed));
    Some(pos + taken.consumed)
}

/// Taking a line in two parts is taking it at once, wherever it is cut.
pub proof fn law_line_parts(kept: Seq<u8>, a: Seq<u8>, b: Seq<u8>, cap: nat)
    ensures
        kept_bytes(kept_bytes(kept, a, cap), b, cap) == kept_bytes(kept, a + b, cap),
{
    assert(kept_bytes(kept_bytes(kept, a, cap), b, cap) =~= kept_bytes(kept, a + b, cap));
}

/// No line takes more room than it may.
pub proof fn law_line_bounded(bytes: Seq<u8>, cap: nat)
    ensures
        kept_bytes(Seq::empty(), bytes, cap).len() <= cap,
        bytes.len() <= cap ==> kept_bytes(Seq::empty(), bytes, cap) == bytes,
{
    if bytes.len() <= cap {
        assert(kept_bytes(Seq::empty(), bytes, cap) =~= bytes);
    }
}

/// How many bytes a character takes in UTF-8.
pub open spec fn char_width(c: char) -> nat {
    if (c as u32) < 0x80 {
        1
    } else if (c as u32) < 0x800 {
        2
    } else if (c as u32) < 0x1_0000 {
        3
    } else {
        4
    }
}

/// How many bytes a text takes in UTF-8.
pub open spec fn byte_length(s: Seq<char>) -> nat
    decreases s.len(),
{
    if s.len() == 0 {
        0
    } else {
        byte_length(s.drop_last()) + char_width(s.last())
    }
}

/// The longest beginning of a text that takes at most `max` bytes.
pub open spec fn fitting(s: Seq<char>, max: nat) -> Seq<char>
    decreases s.len(),
{
    if s.len() == 0 || byte_length(s) <= max {
        s
    } else {
        fitting(s.drop_last(), max)
    }
}

/// A line as it is kept: one that is too long is cut, with an ellipsis at its end.
pub open spec fn shortened(line: Seq<char>) -> Seq<char> {
    if byte_length(line) > COMMAND_OUTPUT_MAX_LINE_LEN {
        fitting(line, COMMAND_OUTPUT_MAX_LINE_LEN as nat).push('\u{2026}')
    } else {
        line
    }
}

fn width(c: char) -> (r: usize)
    ensures
        r == char_width(c),
        1 <= r <= 4,
{
    let u: u32 = c as u32;
    if u < 0x80 {
        1
    } else if u < 0x800 {
        2
    } else if u < 0x1_0000 {
        3
    } else {
        4
    }
}

proof fn lemma_byte_length_grows(s: Seq<char>, i: int, j: int)
    requires
        0 <= i <= j <= s.len(),
    ensures
        byte_length(s.take(i)) <= byte_length(s.take(j)),
    decreases j - i,
{
    if i < j {
        assert(s.take(j).drop_last() =~= s.take(j - 1));
        lemma_byte_length_grows(s, i, j - 1);
    }
}

proof fn lemma_fitting(s: Seq<char>, k: int, n: int, max: nat)
    requires
        0 <= k <= n <= s.len(),
        byte_length(s.take(k)) <= max,
        k < s.len() ==> byte_length(s.take(k + 1)) > max,
    ensures
        fitting(s.take(n), max) == if n <= k {
            s.take(n)
        } else {
            s.take(k)
        },
    decreases n,
{
    if n > k {
        lemma_byte_length_grows(s, k + 1, n);
        assert(s.take(n).drop_last() =~= s.take(n - 1));
        lemma_fitting(s, k, n - 1, max);
    } else {
        lemma_byte_length_grows(s, n, k);
    }
}

/// A line as it is kept.
pub fn shorten_line(line: &str) -> (r: String)
    ensures
        r@ == shortened(line@),
{
    let v = chars_of(line);
    let ghost all = line@;
    let max: usize = COMMAND_OUTPUT_MAX_LINE_LEN;
    let mut used: usize = 0;
    let mut k: usize = 0;
    assert(all.take(0) =~= Seq::<char>::empty());
    while k < v.len() && used + width(v[k]) <= max
        invariant
            k <= v@.len(),
            v@ == all,
            max == COMMAND_OUTPUT_MAX_LINE_LEN,
            used <= max,
            used == byte_length(all.take(k as int)),
        decreases v@.len() - k,
    {
        assert(all.take(k + 1).drop_last() =~= all.take(k as int));
        used = used + width(v[k]);
        k = k + 1;
    }
    assert(all.take(all.len() as int) =~= all);
    if k == v.len() {
        return line.to_owned();
    }
    proof {
        assert(all.take(k + 1).drop_last() =~= all.take(k as int));
        lemma_byte_length_grows(all, k + 1, all.len() as int);
        lemma_fitting(all, k as int, all.len() as int, max as nat);
        assert(v@.subrange(0, k as int) =~= all.take(k as int));
    }
    let mut out = text_of(&v, 0, k);
    out.push('\u{2026}');
    out
}

/// The line that some bytes hold, as it is kept: without its line break, and cut if it is too
/// long.
pub open spec fn output_line(bytes: Seq<u8>) -> Seq<char> {
    shortened(without_trailing(utf8_lossy(bytes), seq!['\r', '\n']))
}

/// The line that a text holds, as it is kept.
pub fn trim_output_line(text: &str) -> (r: String)
    ensures
        r@ == shortened(without_trailing(text@, seq!['\r', '\n'])),
{
    assert(['\r', '\n']@ =~= seq!['\r', '\n']);
    shorten_line(trim_trailing(text, &['\r', '\n']).as_str())
}

/// The line that some bytes hold, as it is kept.
pub fn decode_output_line(bytes: &[u8]) -> (r: String)
    ensures
        r@ == output_line(bytes@),
{
    trim_output_line(from_utf8_lossy(bytes).as_str())
}

/// The last lines of some output.
#[derive(Debug)]
pub struct OutputTail {
    pub lines: VecDeque<String>,
}

/// The last lines after one more.
pub open spec fn tail_with(lines: Seq<String>, line: String) -> Seq<String> {
    if lines.len() == COMMAND_OUTPUT_TAIL_LINES {
        lines.drop_first().push(line)
    } else {
        lines.push(line)
    }
}

/// Lines with a line break between each two.
pub open spec fn lines_joined(lines: Seq<Seq<char>>) -> Seq<char>
    decreases lines.len(),
{
    if lines.len() == 0 {
        Seq::empty()
    } else if lines.len() == 1 {
        lines[0]
    } else {
        lines_joined(lines.drop_last()) + "\n"@ + lines.last()
    }
}

/// What is said of the output of a command that failed.
pub open spec fn output_text(lines: Seq<Seq<char>>) -> Seq<char> {
    if lines.len() == 0 {
        "no output captured"@
    } else {
        "last output:\n"@ + lines_joined(lines)
    }
}

impl OutputTail {
    /// There are not more lines than are kept.
    pub open spec fn wf(&self) -> bool {
        self.lines@.len() <= COMMAND_OUTPUT_TAIL_LINES
    }

    pub fn new() -> (r: OutputTail)
        ensures
            r.wf(),
            r.lines@.len() == 0,
    {
        OutputTail { lines: VecDeque::new() }
    }

    /// Keeps a line; the oldest makes room.
    pub fn push(&mut self, line: String)
        requires
            old(self).wf(),
        ensures
            final(self).wf(),
            final(self).lines@ == tail_with(old(self).lines@, line),
    {
        if self.lines.len() == COMMAND_OUTPUT_TAIL_LINES {
            let _ = self.lines.pop_front();
        }
        self.lines.push_back(line);
        assert(self.lines@ =~= tail_with(old(self).lines@, line));
    }

    fn joined(&self) -> (r: String)
        ensures
            r@ == lines_joined(texts(self.lines@)),
    {
        let mut out = String::new();
        let ghost all = texts(self.lines@);
        let mut i: usize = 0;
        assert(out@ =~= lines_joined(all.take(0)));
        while i < self.lines.len()
            invariant
                i <= self.lines@.len(),
                all == texts(self.lines@),
                out@ == lines_joined(all.take(i as int)),
            decreases self.lines@.len() - i,
        {
            if i > 0 {
                out.append("\n");
            }
            out.append(self.lines[i].as_str());
            proof {
                let more = all.take(i + 1);
                assert(more.drop_last() =~= all.take(i as int));
                assert(more.last() == self.lines@[i as int]@);
                assert(out@ =~= lines_joined(more));
            }
            i = i + 1;
        }
        assert(all.take(i as int) =~= all);
        out
    }

    /// What is said of a command that failed with a status.
    pub fn failure_message(&self, status: &str, command: &str) -> (r: String)
        ensures
            r@ == "Command failed ("@ + status@ + "): "@ + command@ + "; "@ + output_text(
                texts(self.lines@),
            ),
    {
        let mut out = "Command failed (".to_owned();
        out.append(status);
        out.append("): ");
        out.append(command);
        out.append("; ");
        if self.lines.len() == 0 {
            assert(texts(self.lines@).len() == 0);
            out.append("no output captured");
        } else {
            assert(texts(self.lines@).len() > 0);
            out.append("last output:\n");
            out.append(self.joined().as_str());
        }
        assert(out@ =~= "Command failed ("@ + status@ + "): "@ + command@ + "; "@ + output_text(
            texts(self.lines@),
        ));
        out
    }
}

/// A line that is kept takes no more bytes than it may, apart from the ellipsis that shows it was
/// cut.
pub proof fn law_kept_line_bounded(line: Seq<char>)
    ensures
        byte_length(shortened(line)) <= COMMAND_OUTPUT_MAX_LINE_LEN + 3,
        byte_length(line) <= COMMAND_OUTPUT_MAX_LINE_LEN ==> shortened(line) == line,
{
    if byte_length(line) > COMMAND_OUTPUT_MAX_LINE_LEN {
        lemma_fitting_bounded(line, COMMAND_OUTPUT_MAX_LINE_LEN as nat);
        let f = fitting(line, COMMAND_OUTPUT_MAX_LINE_LEN as nat);
        assert(f.push('\u{2026}').drop_last() =~= f);
    }
}

proof fn lemma_fitting_bounded(s: Seq<char>, max: nat)
    ensures
        byte_length(fitting(s, max)) <= max,
    decreases s.len(),
{
    if s.len() > 0 && byte_length(s) > max {
        lemma_fitting_bounded(s.drop_last(), max);
    }
}

/// What is kept after some lines, one after another.
pub open spec fn tail_after(lines: Seq<String>) -> Seq<String>
    decreases lines.len(),
{
    if lines.len() == 0 {
        Seq::empty()
    } else {
        tail_with(tail_after(lines.drop_last()), lines.last())
    }
}

/// Of any output the last lines are kept, in their order, as many as may be.
pub proof fn law_last_lines_kept(lines: Seq<String>)
    ensures
        tail_after(lines) == if lines.len() <= COMMAND_OUTPUT_TAIL_LINES {
            lines
        } else {
            lines.skip(lines.len() - COMMAND_OUTPUT_TAIL_LINES)
        },
    decreases lines.len(),
{
    if lines.len() > 0 {
        law_last_lines_kept(lines.drop_last());
        let kept = tail_after(lines.drop_last());
        assert(lines.drop_last().push(lines.last()) =~= lines);
        if lines.len() > COMMAND_OUTPUT_TAIL_LINES {
            assert(kept.len() == COMMAND_OUTPUT_TAIL_LINES);
            assert(tail_after(lines) =~= lines.skip(lines.len() - COMMAND_OUTPUT_TAIL_LINES));
        }
    } else {
        assert(tail_after(lines) =~= lines);
    }
}

/// The limits: forty lines are kept, each of at most four hundred bytes, and at most eight
/// kibibytes of a line are read.
pub proof fn law_output_limits(lines: Seq<String>, tail: OutputTail)
    ensures
        COMMAND_OUTPUT_TAIL_LINES == 40,
        COMMAND_OUTPUT_MAX_LINE_LEN == 400,
        COMMAND_OUTPUT_MAX_LINE_BYTES == 8192,
        tail.wf() <==> tail.lines@.len() <= 40,
        lines.len() <= 40 ==> tail_after(lines) == lines,
        lines.len() > 40 ==> tail_after(lines) == lines.skip(lines.len() - 40),
{
    law_last_lines_kept(lines);
}

/// A line ends with its first line break, which belongs to it, or with the bytes.
pub proof fn law_line_ends_at_break(line: Seq<u8>, rest: Seq<u8>)
    requires
        !line.contains(10u8),
    ensures
        line_length(line + seq![10u8] + rest) == line.len() + 1,
        line_length(line) == line.len(),
{
    let all = line + seq![10u8] + rest;
    lemma_line_length(all);
    lemma_line_length(line);
    assert(all[line.len() as int] == 10u8);
    let n = line_length(all);
    if n < line.len() + 1 {
        assert(n < all.len());
        assert(all[n - 1] == line[n - 1]);
        assert(line.contains(line[n - 1]));
    }
    let m = line_length(line);
    if m < line.len() {
        assert(line.contains(line[m - 1]));
    }
}

/// Of a line the first bytes are kept, as many as there is room for.
pub proof fn law_first_bytes_kept(kept: Seq<u8>, bytes: Seq<u8>, cap: nat)
    ensures
        kept.len() + bytes.len() <= cap ==> kept_bytes(kept, bytes, cap) == kept + bytes,
        kept.len() >= cap ==> kept_bytes(kept, bytes, cap) == kept,
        kept.len() < cap < kept.len() + bytes.len() ==> kept_bytes(kept, bytes, cap) == kept
            + bytes.take(cap - kept.len()),
{
    if kept.len() + bytes.len() <= cap {
        assert(bytes.take(bytes.len() as int) =~= bytes);
    }
    if kept.len() >= cap {
        assert(kept + bytes.take(0) =~= kept);
    }
}

/// A line of more than four hundred bytes is cut to its longest beginning that fits, with an
/// ellipsis after it.
pub proof fn law_long_lines_are_cut(line: Seq<char>, n: int)
    requires
        0 <= n <= line.len(),
        byte_length(line.take(n)) <= 400,
        n < line.len() ==> byte_length(line.take(n + 1)) > 400,
    ensures
        n == line.len() ==> shortened(line) == line,
        n < line.len() ==> shortened(line) == line.take(n).push('\u{2026}'),
{
    assert(line.take(line.len() as int) =~= line);
    if n < line.len() {
        lemma_byte_length_grows(line, n + 1, line.len() as int);
        lemma_fitting(line, n, line.len() as int, 400);
    }
}

/// The bytes of a text are those of its characters.
pub proof fn law_bytes_of_text(s: Seq<char>, c: char)
    ensures
        byte_length(Seq::empty()) == 0,
        byte_length(s.push(c)) == byte_length(s) + (if (c as u32) < 0x80 {
            1int
        } else if (c as u32) < 0x800 {
            2
        } else if (c as u32) < 0x1_0000 {
            3
        } else {
            4
        }),
{
    assert(s.push(c).drop_last() =~= s);
}

/// What is said of the output: that there was none, or the lines that were kept, one below the
/// other.
pub proof fn law_output_words(lines: Seq<Seq<char>>, line: Seq<char>)
    ensures
        output_text(Seq::empty()) == "no output captured"@,
        output_text(seq![line]) == "last output:\n"@ + line,
        lines.len() > 0 ==> output_text(lines.push(line)) == output_text(lines) + seq!['\n'] + line,
{
    reveal_strlit("\n");
    assert("\n"@ =~= seq!['\n']);
    assert(lines.push(line).drop_last() =~= lines);
    assert(lines_joined(seq![line]) == line);
    if lines.len() > 0 {
        assert(output_text(lines.push(line)) =~= output_text(lines) + seq!['\n'] + line);
    }
}

/// A line of output is kept without the line breaks and carriage returns at its end.
pub proof fn law_line_breaks_dropped(bytes: Seq<u8>, text: Seq<char>, end: Seq<char>)
    requires
        utf8_lossy(bytes) == text + end,
        forall|i: int| 0 <= i < end.len() ==> (#[trigger] end[i]) == '\r' || end[i] == '\n',
        text.len() > 0 ==> text.last() != '\r' && text.last() != '\n',
    ensures
        output_line(bytes) == shortened(text),
{
    let set = seq!['\r', '\n'];
    assert(set[0] == '\r' && set[1] == '\n');
    assert(set.contains('\r') && set.contains('\n'));
    if text.len() > 0 {
        assert(!set.contains(text.last()));
    }
    law_what_is_cut_off(text, set, end);
}

} // verus!
