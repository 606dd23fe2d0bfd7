use vstd::prelude::*;

verus! {

broadcast use vstd::seq_lib::group_seq_lib_default, vstd::seq::group_seq_axioms;

/// What one line does to the reader: the new buffer contents, the batch
/// emitted (if any), and whether the line was dropped as oversize.
pub struct ReaderStep {
    pub buf: Seq<u8>,
    pub emitted: Option<Seq<u8>>,
    pub skipped: bool,
}

/// One step of line batching. An oversize line is dropped whole; a line
/// that would push the buffer over the budget seeds a fresh buffer while
/// the old buffer is emitted; otherwise the line is appended.
pub open spec fn reader_step(buf: Seq<u8>, line: Seq<u8>, max: nat) -> ReaderStep {
    if line.len() > max {
        ReaderStep { buf: buf, emitted: None, skipped: true }
    } else if buf.len() + line.len() > max {
        ReaderStep { buf: line, emitted: Some(buf), skipped: false }
    } else {
        ReaderStep { buf: buf + line, emitted: None, skipped: false }
    }
}

/// The batches emitted while feeding `lines` into a buffer that starts as
/// `buf`, and the buffer contents left at the end.
pub open spec fn reader_batches_rec(buf: Seq<u8>, lines: Seq<Seq<u8>>, max: nat) -> (
    Seq<Seq<u8>>,
    Seq<u8>,
)
    decreases lines.len(),
{
    if lines.len() == 0 {
        (Seq::empty(), buf)
    } else {
        let st = reader_step(buf, lines[0], max);
        let rest = reader_batches_rec(st.buf, lines.drop_first(), max);
        match st.emitted {
            Some(b) => (seq![b] + rest.0, rest.1),
            None => rest,
        }
    }
}

/// All batches of a whole input: the emitted batches, plus the final
/// buffer as a last batch when it is non-empty.
pub open spec fn reader_output(lines: Seq<Seq<u8>>, max: nat) -> Seq<Seq<u8>> {
    let r = reader_batches_rec(Seq::empty(), lines, max);
    if r.1.len() == 0 {
        r.0
    } else {
        r.0.push(r.1)
    }
}

/// The lines that fit the budget, in order; the others are dropped.
pub open spec fn kept_lines(lines: Seq<Seq<u8>>, max: nat) -> Seq<Seq<u8>>
    decreases lines.len(),
{
    if lines.len() == 0 {
        Seq::empty()
    } else if lines[0].len() <= max {
        seq![lines[0]] + kept_lines(lines.drop_first(), max)
    } else {
        kept_lines(lines.drop_first(), max)
    }
}

proof fn lemma_reader_content_rec(buf: Seq<u8>, lines: Seq<Seq<u8>>, max: nat)
    ensures
        ({
            let r = reader_batches_rec(buf, lines, max);
            r.0.flatten() + r.1 == buf + kept_lines(lines, max).flatten()
        }),
    decreases lines.len(),
{
    let r = reader_batches_rec(buf, lines, max);
    if lines.len() == 0 {
        assert(r.0.flatten() + r.1 =~= buf);
        assert(kept_lines(lines, max).flatten() =~= Seq::<u8>::empty());
        assert(buf + kept_lines(lines, max).flatten() =~= buf);
    } else {
        let line = lines[0];
        let st = reader_step(buf, line, max);
        let rest = reader_batches_rec(st.buf, lines.drop_first(), max);
        lemma_reader_content_rec(st.buf, lines.drop_first(), max);
        let kept_rest = kept_lines(lines.drop_first(), max);
        if st.skipped {
            assert(kept_lines(lines, max) == kept_rest);
        } else if st.emitted is Some {
            // r.0 == seq![buf] + rest.0
            vstd::seq_lib::lemma_flatten_concat(seq![buf], rest.0);
            seq![buf].lemma_flatten_singleton();
            assert(kept_lines(lines, max) == seq![line] + kept_rest);
            vstd::seq_lib::lemma_flatten_concat(seq![line], kept_rest);
            seq![line].lemma_flatten_singleton();
            assert(r.0.flatten() + r.1 =~= buf + (line + kept_rest.flatten()));
            assert(buf + kept_lines(lines, max).flatten() =~= buf + (line + kept_rest.flatten()));
        } else {
            assert(kept_lines(lines, max) == seq![line] + kept_rest);
            vstd::seq_lib::lemma_flatten_concat(seq![line], kept_rest);
            seq![line].lemma_flatten_singleton();
            assert(r.0.flatten() + r.1 =~= (buf + line) + kept_rest.flatten());
            assert(buf + kept_lines(lines, max).flatten() =~= (buf + line) + kept_rest.flatten());
        }
    }
}

/// Batching never loses or reorders content within the budget: the
/// concatenation of all emitted batches equals the concatenation of the
/// lines that fit the budget, in source order. When every line fits, that
/// is the whole input; an oversize line is dropped whole, never split.
pub proof fn lemma_reader_preserves_content(lines: Seq<Seq<u8>>, max: nat)
    ensures
        reader_output(lines, max).flatten() == kept_lines(lines, max).flatten(),
{
    lemma_reader_content_rec(Seq::empty(), lines, max);
    let r = reader_batches_rec(Seq::empty(), lines, max);
    if r.1.len() == 0 {
        assert(r.0.flatten() =~= r.0.flatten() + r.1);
        assert(Seq::<u8>::empty() + kept_lines(lines, max).flatten() =~= kept_lines(
            lines,
            max,
        ).flatten());
    } else {
        r.0.lemma_flatten_push(r.1);
        assert(reader_output(lines, max).flatten() =~= r.0.flatten() + r.1);
        assert(Seq::<u8>::empty() + kept_lines(lines, max).flatten() =~= kept_lines(
            lines,
            max,
        ).flatten());
    }
}


/// When every line fits the budget, nothing is dropped: the concatenation
/// of all emitted batches is exactly the input.
pub proof fn lemma_reader_content_all_fit(lines: Seq<Seq<u8>>, max: nat)
    requires
        forall|i: int| 0 <= i < lines.len() ==> (#[trigger] lines[i]).len() <= max,
    ensures
        reader_output(lines, max).flatten() == lines.flatten(),
{
    lemma_reader_preserves_content(lines, max);
    lemma_kept_lines_all_fit(lines, max);
}

proof fn lemma_kept_lines_all_fit(lines: Seq<Seq<u8>>, max: nat)
    requires
        forall|i: int| 0 <= i < lines.len() ==> (#[trigger] lines[i]).len() <= max,
    ensures
        kept_lines(lines, max) == lines,
    decreases lines.len(),
{
    if lines.len() > 0 {
        assert(forall|i: int|
            0 <= i < lines.drop_first().len() ==> lines.drop_first()[i] == lines[i + 1]);
        lemma_kept_lines_all_fit(lines.drop_first(), max);
        assert(kept_lines(lines, max) =~= lines);
    }
}

proof fn lemma_reader_bounds_rec(buf: Seq<u8>, lines: Seq<Seq<u8>>, max: nat)
    requires
        buf.len() <= max,
    ensures
        ({
            let r = reader_batches_rec(buf, lines, max);
            &&& r.1.len() <= max
            &&& forall|k: int| 0 <= k < r.0.len() ==> 1 <= (#[trigger] r.0[k]).len() <= max
        }),
    decreases lines.len(),
{
    if lines.len() > 0 {
        let st = reader_step(buf, lines[0], max);
        lemma_reader_bounds_rec(st.buf, lines.drop_first(), max);
        let rest = reader_batches_rec(st.buf, lines.drop_first(), max);
        if st.emitted is Some {
            assert(reader_batches_rec(buf, lines, max).0 == seq![buf] + rest.0);
        }
    }
}

/// Every batch respects the byte budget and is non-empty: batching under
/// budget `max` emits batches of between 1 and `max` bytes.
pub proof fn lemma_reader_batch_bounds(lines: Seq<Seq<u8>>, max: nat)
    ensures
        forall|k: int|
            0 <= k < reader_output(lines, max).len() ==> 1 <= (#[trigger] reader_output(
                lines,
                max,
            )[k]).len() <= max,
{
    lemma_reader_bounds_rec(Seq::empty(), lines, max);
}

/// What `push_line` reports for one line.
pub enum LinePush {
    /// The line exceeded the budget and was dropped.
    Skipped,
    /// The line was appended to the current buffer.
    Buffered,
    /// Appending would have overflowed the budget: the previous buffer
    /// contents come back as a finished batch and the line seeds the next.
    Emitted(Vec<u8>),
}

/// Splits a stream of lines into line-aligned batches of at most
/// `max_batch_num_bytes` bytes. The surrounding program reads one line at
/// a time (up to and including a newline) and feeds it in; lines over the
/// budget are dropped whole, and a line never spans two batches.
pub struct BatchLineReader {
    buffer: Vec<u8>,
    max_batch_num_bytes: usize,
    num_lines: usize,
    has_next: bool,
    buffered_lines: Ghost<Seq<Seq<u8>>>,
}

impl BatchLineReader {
    /// The byte budget of one batch.
    pub closed spec fn budget(self) -> nat {
        self.max_batch_num_bytes as nat
    }

    /// The bytes accumulated for the batch under construction.
    pub closed spec fn buf(self) -> Seq<u8> {
        self.buffer@
    }

    /// The whole lines whose concatenation is the current buffer.
    pub closed spec fn buf_lines(self) -> Seq<Seq<u8>> {
        self.buffered_lines@
    }

    pub closed spec fn spec_has_next(self) -> bool {
        self.has_next
    }

    /// The count of lines fully buffered so far (saturating).
    pub closed spec fn lines_seen(self) -> nat {
        self.num_lines as nat
    }

    /// The buffer always holds whole lines, within budget.
    pub closed spec fn wf(self) -> bool {
        &&& self.budget() >= 1
        &&& self.buf().len() <= self.budget()
        &&& self.buf() == self.buf_lines().flatten()
        &&& forall|i: int|
            0 <= i < self.buf_lines().len() ==> 1 <= (#[trigger] self.buf_lines()[i]).len()
                <= self.budget()
    }

    pub fn new(max_batch_num_bytes: usize) -> (r: Self)
        requires
            max_batch_num_bytes >= 1,
        ensures
            r.wf(),
            r.budget() == max_batch_num_bytes,
            r.buf() == Seq::<u8>::empty(),
            r.buf_lines() == Seq::<Seq<u8>>::empty(),
            r.spec_has_next(),
            r.lines_seen() == 0,
    {
        let r = BatchLineReader {
            buffer: Vec::new(),
            max_batch_num_bytes,
            num_lines: 0,
            has_next: true,
            buffered_lines: Ghost(Seq::empty()),
        };
        proof {
            assert(r.buf_lines().flatten() =~= Seq::<u8>::empty());
        }
        r
    }

    pub fn has_next(&self) -> (r: bool)
        ensures
            r == self.spec_has_next(),
    {
        self.has_next
    }

    pub fn max_batch_num_bytes(&self) -> (r: usize)
        ensures
            r == self.budget(),
    {
        self.max_batch_num_bytes
    }

    pub fn num_lines(&self) -> (r: usize)
        ensures
            r == self.lines_seen(),
    {
        self.num_lines
    }

    /// Feeds one line (newline included, except possibly for a final line
    /// without one). The outcome follows `reader_step` exactly; an emitted
    /// batch is the concatenation of the previously buffered whole lines.
    pub fn push_line(&mut self, line: Vec<u8>) -> (r: LinePush)
        requires
            old(self).wf(),
            old(self).spec_has_next(),
            line@.len() >= 1,
        ensures
            final(self).wf(),
            final(self).budget() == old(self).budget(),
            final(self).spec_has_next(),
            final(self).buf() == reader_step(old(self).buf(), line@, old(self).budget()).buf,
            ({
                let st = reader_step(old(self).buf(), line@, old(self).budget());
                match r {
                    LinePush::Skipped => st.skipped && final(self).buf_lines() == old(self).buf_lines(),
                    LinePush::Buffered => !st.skipped && st.emitted is None
                        && final(self).buf_lines() == old(self).buf_lines().push(line@),
                    LinePush::Emitted(b) => {
                        &&& st.emitted == Some(b@)
                        &&& b@ == old(self).buf_lines().flatten()
                        &&& final(self).buf_lines() == seq![line@]
                    },
                }
            }),
    {
        if line.len() > self.max_batch_num_bytes {
            return LinePush::Skipped;
        }
        if self.buffer.len() > self.max_batch_num_bytes - line.len() {
            let ghost line_view = line@;
            let mut batch = line;
            core::mem::swap(&mut batch, &mut self.buffer);
            proof {
                self.buffered_lines@ = seq![line_view];
                self.buffered_lines@.lemma_flatten_singleton();
            }
            LinePush::Emitted(batch)
        } else {
            let ghost line_view = line@;
            let mut l = line;
            self.buffer.append(&mut l);
            proof {
                self.buffered_lines@ = self.buffered_lines@.push(line_view);
                self.buffered_lines@.drop_last().lemma_flatten_push(line_view);
                assert(self.buffered_lines@.drop_last() =~= old(self).buf_lines());
            }
            if self.num_lines < usize::MAX {
                self.num_lines = self.num_lines + 1;
            }
            LinePush::Buffered
        }
    }

    /// Marks the end of the input and hands back whatever is buffered as
    /// the final batch, or nothing when the buffer is empty.
    pub fn end_of_input(&mut self) -> (r: Option<Vec<u8>>)
        requires
            old(self).wf(),
            old(self).spec_has_next(),
        ensures
            final(self).wf(),
            final(self).budget() == old(self).budget(),
            !final(self).spec_has_next(),
            final(self).buf() == Seq::<u8>::empty(),
            match r {
                Some(b) => old(self).buf().len() > 0 && b@ == old(self).buf()
                    && b@ == old(self).buf_lines().flatten(),
                None => old(self).buf().len() == 0,
            },
    {
        self.has_next = false;
        if self.buffer.len() == 0 {
            proof {
                self.buffered_lines@ = Seq::empty();
                assert(self.buf_lines().flatten() =~= Seq::<u8>::empty());
            }
            None
        } else {
            let mut batch: Vec<u8> = Vec::new();
            core::mem::swap(&mut batch, &mut self.buffer);
            proof {
                self.buffered_lines@ = Seq::empty();
                assert(self.buf_lines().flatten() =~= Seq::<u8>::empty());
            }
            Some(batch)
        }
    }
}

/// Batches a whole list of lines at once: the executable counterpart of
/// `reader_output`.
pub fn batch_lines(lines: &Vec<Vec<u8>>, max_batch_num_bytes: usize) -> (r: Vec<Vec<u8>>)
    requires
        max_batch_num_bytes >= 1,
        forall|i: int| 0 <= i < lines@.len() ==> (#[trigger] lines@[i])@.len() >= 1,
    ensures
        r.deep_view() == reader_output(lines.deep_view(), max_batch_num_bytes as nat),
{
    let ghost all = lines.deep_view();
    let ghost max = max_batch_num_bytes as nat;
    let mut reader = BatchLineReader::new(max_batch_num_bytes);
    let mut out: Vec<Vec<u8>> = Vec::new();
    let mut i: usize = 0;
    proof {
        assert(all.skip(0) =~= all);
        assert(out.deep_view() =~= Seq::<Seq<u8>>::empty());
        assert(Seq::<Seq<u8>>::empty() + reader_batches_rec(reader.buf(), all.skip(0), max).0
            =~= reader_batches_rec(Seq::empty(), all, max).0);
    }
    while i < lines.len()
        invariant
            max == max_batch_num_bytes as nat,
            all == lines.deep_view(),
            forall|t: int| 0 <= t < lines@.len() ==> (#[trigger] lines@[t])@.len() >= 1,
            0 <= i <= lines.len(),
            reader.wf(),
            reader.budget() == max,
            reader.spec_has_next(),
            reader_batches_rec(Seq::empty(), all, max).0 == out.deep_view() + reader_batches_rec(
                reader.buf(),
                all.skip(i as int),
                max,
            ).0,
            reader_batches_rec(Seq::empty(), all, max).1 == reader_batches_rec(
                reader.buf(),
                all.skip(i as int),
                max,
            ).1,
        decreases lines.len() - i,
    {
        let ghost pre_buf = reader.buf();
        let ghost remaining = all.skip(i as int);
        proof {
            assert(remaining.len() > 0);
            assert(remaining[0] == all[i as int]);
            assert(remaining.drop_first() =~= all.skip(i + 1));
        }
        let line = lines[i].clone();
        proof {
            assert(line.deep_view() == all[i as int]);
            assert(line@ =~= line.deep_view());
        }
        let res = reader.push_line(line);
        proof {
            let st = reader_step(pre_buf, all[i as int], max);
            let rest = reader_batches_rec(st.buf, all.skip(i + 1), max);
            assert(reader_batches_rec(pre_buf, remaining, max) == (
            match st.emitted {
                Some(b) => (seq![b] + rest.0, rest.1),
                None => rest,
            }));
        }
        match res {
            LinePush::Emitted(b) => {
                let ghost prev_out = out.deep_view();
                out.push(b);
                proof {
                    assert(b.deep_view() =~= b@);
                    assert(out.deep_view() =~= prev_out.push(b@));
                    let st = reader_step(pre_buf, all[i as int], max);
                    let rest = reader_batches_rec(st.buf, all.skip(i + 1), max);
                    assert(prev_out.push(b@) + rest.0 =~= prev_out + (seq![b@] + rest.0));
                }
            },
            _ => {},
        }
        i += 1;
    }
    proof {
        assert(all.skip(all.len() as int) =~= Seq::<Seq<u8>>::empty());
    }
    match reader.end_of_input() {
        Some(b) => {
            let ghost prev_out = out.deep_view();
            out.push(b);
            proof {
                assert(b.deep_view() =~= b@);
                assert(out.deep_view() =~= prev_out.push(b@));
                assert(out.deep_view() =~= reader_output(all, max));
            }
        },
        None => {
            proof {
                assert(out.deep_view() + Seq::<Seq<u8>>::empty() =~= out.deep_view());
                assert(out.deep_view() =~= reader_output(all, max));
            }
        },
    }
    out
}

} // verus!
