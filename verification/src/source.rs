use vstd::prelude::*;

use crate::expand::{all_tokens_ok, expand_uris, spec_expand_uris, tokens_from, ExpandError};
use crate::text::{spec_ends_with, spec_starts_with, str_ends_with, str_starts_with};

verus! {

broadcast use vstd::seq_lib::group_seq_lib_default, vstd::seq::group_seq_axioms;

/// A line-aligned chunk of NDJSON bytes, and the flag that marks the final
/// batch of the final URI of a run.
pub struct DocumentBatch {
    pub bytes: Vec<u8>,
    pub last: bool,
}

/// The mathematical shape of a `DocumentBatch`.
pub struct DocBatchModel {
    pub bytes: Seq<u8>,
    pub last: bool,
}

impl DocumentBatch {
    pub open spec fn model(self) -> DocBatchModel {
        DocBatchModel { bytes: self.bytes@, last: self.last }
    }
}

impl core::default::Default for DocumentBatch {
    fn default() -> (d: Self)
        ensures
            d.bytes@ == Seq::<u8>::empty(),
            d.last == false,
    {
        DocumentBatch { bytes: Vec::new(), last: false }
    }
}

/// A URI names a remote resource when it begins with `http`.
pub open spec fn spec_is_http_uri(s: Seq<char>) -> bool {
    spec_starts_with(s, "http"@)
}

pub fn is_http_uri(uri: &str) -> (r: bool)
    ensures
        r == spec_is_http_uri(uri@),
{
    str_starts_with(uri, "http")
}

/// A URI names gzip-compressed content when it ends with `.gz`.
pub open spec fn spec_is_gzip_uri(s: Seq<char>) -> bool {
    spec_ends_with(s, ".gz"@)
}

pub fn is_gzip_uri(uri: &str) -> (r: bool)
    ensures
        r == spec_is_gzip_uri(uri@),
{
    str_ends_with(uri, ".gz")
}

/// One step of batch assembly: a chunk that would overflow the budget
/// flushes the accumulator and seeds the next batch; otherwise it is
/// appended.
pub open spec fn assembler_step(acc: Seq<u8>, chunk: Seq<u8>, budget: nat) -> (Seq<u8>, Option<
    Seq<u8>,
>) {
    if acc.len() + chunk.len() > budget {
        (chunk, Some(acc))
    } else {
        (acc + chunk, None)
    }
}

/// The batches flushed while feeding `chunks` into an accumulator that
/// starts as `acc`, and the accumulator contents left at the end.
pub open spec fn uri_batches_rec(acc: Seq<u8>, chunks: Seq<Seq<u8>>, budget: nat) -> (
    Seq<Seq<u8>>,
    Seq<u8>,
)
    decreases chunks.len(),
{
    if chunks.len() == 0 {
        (Seq::empty(), acc)
    } else {
        let st = assembler_step(acc, chunks[0], budget);
        let rest = uri_batches_rec(st.0, chunks.drop_first(), budget);
        match st.1 {
            Some(b) => (seq![b] + rest.0, rest.1),
            None => rest,
        }
    }
}

/// All batches of one URI: the flushed batches, plus the remaining
/// accumulator as a final batch when it is non-empty.
pub open spec fn uri_batches(chunks: Seq<Seq<u8>>, budget: nat) -> Seq<Seq<u8>> {
    let r = uri_batches_rec(Seq::empty(), chunks, budget);
    if r.1.len() == 0 {
        r.0
    } else {
        r.0.push(r.1)
    }
}

/// Chunks as the line reader produces them: non-empty and within budget.
pub open spec fn valid_chunks(chunks: Seq<Seq<u8>>, budget: nat) -> bool {
    forall|i: int| 0 <= i < chunks.len() ==> 1 <= (#[trigger] chunks[i]).len() <= budget
}

/// The batches of a whole run over the expanded URI list, in URI order
/// then file order, with `last` true exactly on the final batch of the
/// final URI (no batch is marked when the final URI yields none).
pub open spec fn run_batches(uri_chunks: Seq<Seq<Seq<u8>>>, budget: nat) -> Seq<DocBatchModel> {
    let flat = uri_chunks.map_values(|cs: Seq<Seq<u8>>| uri_batches(cs, budget)).flatten();
    let tail_nonempty = uri_chunks.len() >= 1 && uri_batches(uri_chunks.last(), budget).len() >= 1;
    Seq::new(
        flat.len(),
        |i: int| DocBatchModel { bytes: flat[i], last: tail_nonempty && i == flat.len() - 1 },
    )
}

proof fn lemma_uri_content_rec(acc: Seq<u8>, chunks: Seq<Seq<u8>>, budget: nat)
    ensures
        ({
            let r = uri_batches_rec(acc, chunks, budget);
            r.0.flatten() + r.1 == acc + chunks.flatten()
        }),
    decreases chunks.len(),
{
    let r = uri_batches_rec(acc, chunks, budget);
    if chunks.len() == 0 {
        assert(r.0.flatten() + r.1 =~= acc);
        assert(chunks.flatten() =~= Seq::<u8>::empty());
        assert(acc + chunks.flatten() =~= acc);
    } else {
        let chunk = chunks[0];
        let st = assembler_step(acc, chunk, budget);
        lemma_uri_content_rec(st.0, chunks.drop_first(), budget);
        let rest = uri_batches_rec(st.0, chunks.drop_first(), budget);
        assert(chunks =~= seq![chunk] + chunks.drop_first());
        vstd::seq_lib::lemma_flatten_concat(seq![chunk], chunks.drop_first());
        seq![chunk].lemma_flatten_singleton();
        assert(chunks.flatten() == chunk + chunks.drop_first().flatten());
        if st.1 is Some {
            vstd::seq_lib::lemma_flatten_concat(seq![acc], rest.0);
            seq![acc].lemma_flatten_singleton();
            assert(r.0.flatten() + r.1 =~= acc + (chunk + chunks.drop_first().flatten()));
            assert(acc + chunks.flatten() =~= acc + (chunk + chunks.drop_first().flatten()));
        } else {
            assert(r.0.flatten() + r.1 =~= (acc + chunk) + chunks.drop_first().flatten());
            assert(acc + chunks.flatten() =~= (acc + chunk) + chunks.drop_first().flatten());
        }
    }
}

/// Assembly never loses or reorders content: the concatenation of one
/// URI's batches equals the concatenation of its chunks.
pub proof fn lemma_uri_batches_content(chunks: Seq<Seq<u8>>, budget: nat)
    ensures
        uri_batches(chunks, budget).flatten() == chunks.flatten(),
{
    lemma_uri_content_rec(Seq::empty(), chunks, budget);
    let r = uri_batches_rec(Seq::empty(), chunks, budget);
    if r.1.len() == 0 {
        assert(r.0.flatten() =~= r.0.flatten() + r.1);
        assert(Seq::<u8>::empty() + chunks.flatten() =~= chunks.flatten());
    } else {
        r.0.lemma_flatten_push(r.1);
        assert(uri_batches(chunks, budget).flatten() =~= r.0.flatten() + r.1);
        assert(Seq::<u8>::empty() + chunks.flatten() =~= chunks.flatten());
    }
}

proof fn lemma_uri_rec_tail_nonempty(acc: Seq<u8>, chunks: Seq<Seq<u8>>, budget: nat)
    requires
        valid_chunks(chunks, budget),
        chunks.len() >= 1,
    ensures
        uri_batches_rec(acc, chunks, budget).1.len() >= 1,
    decreases chunks.len(),
{
    let st = assembler_step(acc, chunks[0], budget);
    assert(1 <= chunks[0].len() <= budget);
    if chunks.len() > 1 {
        assert(valid_chunks(chunks.drop_first(), budget)) by {
            assert(forall|i: int|
                0 <= i < chunks.drop_first().len() ==> chunks.drop_first()[i] == chunks[i + 1]);
        }
        lemma_uri_rec_tail_nonempty(st.0, chunks.drop_first(), budget);
    } else {
        assert(chunks.drop_first().len() == 0);
        assert(uri_batches_rec(st.0, chunks.drop_first(), budget).1 == st.0);
        assert(st.0.len() >= 1);
    }
}

/// A URI with at least one chunk yields at least one batch.
pub proof fn lemma_uri_batches_nonempty(chunks: Seq<Seq<u8>>, budget: nat)
    requires
        valid_chunks(chunks, budget),
        chunks.len() >= 1,
    ensures
        uri_batches(chunks, budget).len() >= 1,
{
    lemma_uri_rec_tail_nonempty(Seq::empty(), chunks, budget);
}

/// Exactly one batch of a run carries `last == true`, and it is the last
/// batch emitted — provided the final URI yields at least one chunk.
pub proof fn lemma_last_flag_unique(uri_chunks: Seq<Seq<Seq<u8>>>, budget: nat)
    requires
        uri_chunks.len() >= 1,
        uri_chunks.last().len() >= 1,
        valid_chunks(uri_chunks.last(), budget),
    ensures
        ({
            let bs = run_batches(uri_chunks, budget);
            &&& bs.len() >= 1
            &&& bs.last().last == true
            &&& forall|i: int| 0 <= i < bs.len() - 1 ==> !(#[trigger] bs[i]).last
        }),
{
    lemma_uri_batches_nonempty(uri_chunks.last(), budget);
    let mapped = uri_chunks.map_values(|cs: Seq<Seq<u8>>| uri_batches(cs, budget));
    assert(mapped.len() == uri_chunks.len());
    assert(mapped[uri_chunks.len() - 1] == uri_batches(uri_chunks.last(), budget));
    mapped.lemma_flatten_length_ge_single_element_length(uri_chunks.len() - 1);
    mapped.lemma_flatten_and_flatten_alt_are_equivalent();
    let flat = mapped.flatten();
    assert(flat.len() >= 1);
    let bs = run_batches(uri_chunks, budget);
    assert(bs.last() == bs[flat.len() - 1]);
    assert(bs.last().last == true);
}

/// Accumulates the line reader's chunks into `DocumentBatch` payloads of
/// at most `budget` bytes, flushing the accumulator whenever the next
/// chunk would overflow it.
pub struct BatchAssembler {
    budget: usize,
    bytes: Vec<u8>,
}

impl BatchAssembler {
    pub closed spec fn spec_budget(self) -> nat {
        self.budget as nat
    }

    /// The bytes accumulated for the batch under construction.
    pub closed spec fn acc(self) -> Seq<u8> {
        self.bytes@
    }

    pub closed spec fn wf(self) -> bool {
        &&& self.spec_budget() >= 1
        &&& self.acc().len() <= self.spec_budget()
    }

    pub fn new(batch_size: usize) -> (r: Self)
        requires
            batch_size >= 1,
        ensures
            r.wf(),
            r.spec_budget() == batch_size,
            r.acc() == Seq::<u8>::empty(),
    {
        BatchAssembler { budget: batch_size, bytes: Vec::new() }
    }

    /// Feeds one chunk; a batch comes back when the accumulator had to be
    /// flushed first. The outcome follows `assembler_step` exactly.
    pub fn push_chunk(&mut self, chunk: Vec<u8>) -> (r: Option<Vec<u8>>)
        requires
            old(self).wf(),
            1 <= chunk@.len() <= old(self).spec_budget(),
        ensures
            final(self).wf(),
            final(self).spec_budget() == old(self).spec_budget(),
            final(self).acc() == assembler_step(
                old(self).acc(),
                chunk@,
                old(self).spec_budget(),
            ).0,
            ({
                let emitted = assembler_step(old(self).acc(), chunk@, old(self).spec_budget()).1;
                match r {
                    Some(b) => emitted == Some(b@),
                    None => emitted is None,
                }
            }),
    {
        if self.bytes.len() > self.budget - chunk.len() {
            let mut flushed = chunk;
            core::mem::swap(&mut flushed, &mut self.bytes);
            Some(flushed)
        } else {
            let mut c = chunk;
            self.bytes.append(&mut c);
            None
        }
    }

    /// Hands back whatever is accumulated as the final batch of the
    /// current URI, or nothing when the accumulator is empty.
    pub fn take_rest(&mut self) -> (r: Option<Vec<u8>>)
        requires
            old(self).wf(),
        ensures
            final(self).wf(),
            final(self).spec_budget() == old(self).spec_budget(),
            final(self).acc() == Seq::<u8>::empty(),
            match r {
                Some(b) => old(self).acc().len() > 0 && b@ == old(self).acc(),
                None => old(self).acc().len() == 0,
            },
    {
        if self.bytes.len() == 0 {
            None
        } else {
            let mut batch: Vec<u8> = Vec::new();
            core::mem::swap(&mut batch, &mut self.bytes);
            Some(batch)
        }
    }
}

/// Batches one URI's chunks at once: the executable counterpart of
/// `uri_batches`.
pub fn assemble_uri(chunks: &Vec<Vec<u8>>, batch_size: usize) -> (r: Vec<Vec<u8>>)
    requires
        batch_size >= 1,
        valid_chunks(chunks.deep_view(), batch_size as nat),
    ensures
        r.deep_view() == uri_batches(chunks.deep_view(), batch_size as nat),
{
    let ghost cs = chunks.deep_view();
    let ghost budget = batch_size as nat;
    let mut assembler = BatchAssembler::new(batch_size);
    let mut out: Vec<Vec<u8>> = Vec::new();
    let mut c: usize = 0;
    proof {
        assert(cs.skip(0) =~= cs);
        assert(out.deep_view() =~= Seq::<Seq<u8>>::empty());
        assert(Seq::<Seq<u8>>::empty() + uri_batches_rec(assembler.acc(), cs.skip(0), budget).0
            =~= uri_batches_rec(Seq::empty(), cs, budget).0);
    }
    while c < chunks.len()
        invariant
            budget == batch_size as nat,
            cs == chunks.deep_view(),
            valid_chunks(cs, budget),
            0 <= c <= chunks.len(),
            assembler.wf(),
            assembler.spec_budget() == budget,
            uri_batches_rec(Seq::empty(), cs, budget).0 == out.deep_view() + uri_batches_rec(
                assembler.acc(),
                cs.skip(c as int),
                budget,
            ).0,
            uri_batches_rec(Seq::empty(), cs, budget).1 == uri_batches_rec(
                assembler.acc(),
                cs.skip(c as int),
                budget,
            ).1,
        decreases chunks.len() - c,
    {
        let ghost pre_acc = assembler.acc();
        let ghost remaining = cs.skip(c as int);
        proof {
            assert(remaining.len() > 0);
            assert(remaining[0] == cs[c as int]);
            assert(remaining.drop_first() =~= cs.skip(c + 1));
            assert(1 <= cs[c as int].len() <= budget);
        }
        let chunk = chunks[c].clone();
        proof {
            assert(chunk.deep_view() == cs[c as int]);
            assert(chunk@ =~= chunk.deep_view());
        }
        let res = assembler.push_chunk(chunk);
        proof {
            let st = assembler_step(pre_acc, cs[c as int], budget);
            let rest = uri_batches_rec(st.0, cs.skip(c + 1), budget);
            assert(uri_batches_rec(pre_acc, remaining, budget) == (
            match st.1 {
                Some(b) => (seq![b] + rest.0, rest.1),
                None => rest,
            }));
        }
        match res {
            Some(b) => {
                let ghost prev_out = out.deep_view();
                out.push(b);
                proof {
                    assert(b.deep_view() =~= b@);
                    assert(out.deep_view() =~= prev_out.push(b@));
                    let st = assembler_step(pre_acc, cs[c as int], budget);
                    let rest = uri_batches_rec(st.0, cs.skip(c + 1), budget);
                    assert(prev_out.push(b@) + rest.0 =~= prev_out + (seq![b@] + rest.0));
                }
            },
            None => {},
        }
        c += 1;
    }
    proof {
        assert(cs.skip(cs.len() as int) =~= Seq::<Seq<u8>>::empty());
    }
    match assembler.take_rest() {
        Some(b) => {
            let ghost prev_out = out.deep_view();
            out.push(b);
            proof {
                assert(b.deep_view() =~= b@);
                assert(out.deep_view() =~= prev_out.push(b@));
                assert(out.deep_view() =~= uri_batches(cs, budget));
            }
        },
        None => {
            proof {
                assert(out.deep_view() + Seq::<Seq<u8>>::empty() =~= out.deep_view());
                assert(out.deep_view() =~= uri_batches(cs, budget));
            }
        },
    }
    out
}

/// Assembles a whole run at once: the executable counterpart of
/// `run_batches`, marking `last` on the final batch of the final URI.
pub fn assemble_batches(uri_chunks: &Vec<Vec<Vec<u8>>>, batch_size: usize) -> (r: Vec<
    DocumentBatch,
>)
    requires
        batch_size >= 1,
        forall|u: int|
            0 <= u < uri_chunks@.len() ==> valid_chunks(
                (#[trigger] uri_chunks@[u]).deep_view(),
                batch_size as nat,
            ),
    ensures
        r@.map_values(|b: DocumentBatch| b.model()) == run_batches(
            uri_chunks.deep_view(),
            batch_size as nat,
        ),
{
    let ghost ucs = uri_chunks.deep_view();
    let ghost budget = batch_size as nat;
    let ghost f = |cs: Seq<Seq<u8>>| uri_batches(cs, budget);
    let mut out: Vec<DocumentBatch> = Vec::new();
    let n = uri_chunks.len();
    let mut u: usize = 0;
    proof {
        assert(ucs.take(0) =~= Seq::<Seq<Seq<u8>>>::empty());
        assert(ucs.take(0).map_values(f).flatten() =~= Seq::<Seq<u8>>::empty());
        assert(out@.map_values(|b: DocumentBatch| b.model()) =~= Seq::<DocBatchModel>::empty());
    }
    while u < n
        invariant
            n == uri_chunks@.len(),
            ucs == uri_chunks.deep_view(),
            budget == batch_size as nat,
            batch_size >= 1,
            f == (|cs: Seq<Seq<u8>>| uri_batches(cs, budget)),
            forall|t: int|
                0 <= t < uri_chunks@.len() ==> valid_chunks(
                    (#[trigger] uri_chunks@[t]).deep_view(),
                    budget,
                ),
            0 <= u <= n,
            ({
                let flat_pre = ucs.take(u as int).map_values(f).flatten();
                let models = out@.map_values(|b: DocumentBatch| b.model());
                &&& models.len() == flat_pre.len()
                &&& forall|i: int| 0 <= i < flat_pre.len() ==> (#[trigger] models[i]).bytes
                    == flat_pre[i]
                &&& forall|i: int| 0 <= i < flat_pre.len() ==> (#[trigger] models[i]).last == (u
                    == n && ucs.len() >= 1 && f(ucs.last()).len() >= 1 && i == flat_pre.len() - 1)
            }),
        decreases n - u,
    {
        let is_final_uri = u + 1 == n;
        let batches = assemble_uri(&uri_chunks[u], batch_size);
        let ghost cs = uri_chunks@[u as int].deep_view();
        let ghost flat_pre = ucs.take(u as int).map_values(f).flatten();
        let ghost models_pre = out@.map_values(|b: DocumentBatch| b.model());
        let m = batches.len();
        let mut k: usize = 0;
        while k < m
            invariant
                n == uri_chunks@.len(),
                ucs == uri_chunks.deep_view(),
                budget == batch_size as nat,
                f == (|cs2: Seq<Seq<u8>>| uri_batches(cs2, budget)),
                0 <= u < n,
                is_final_uri == (u + 1 == n),
                cs == uri_chunks@[u as int].deep_view(),
                batches.deep_view() == f(cs),
                m == batches@.len(),
                0 <= k <= m,
                flat_pre == ucs.take(u as int).map_values(f).flatten(),
                ({
                    let models = out@.map_values(|b: DocumentBatch| b.model());
                    &&& models.len() == flat_pre.len() + k
                    &&& forall|i: int| 0 <= i < flat_pre.len() ==> #[trigger] models[i]
                        == models_pre[i]
                    &&& forall|i: int| flat_pre.len() <= i < flat_pre.len() + k ==> (
                    #[trigger] models[i]).bytes == f(cs)[i - flat_pre.len()]
                    &&& forall|i: int| flat_pre.len() <= i < flat_pre.len() + k ==> (
                    #[trigger] models[i]).last == (is_final_uri && i - flat_pre.len() == f(
                        cs,
                    ).len() - 1)
                }),
                models_pre.len() == flat_pre.len(),
                forall|i: int| 0 <= i < flat_pre.len() ==> (#[trigger] models_pre[i]).bytes
                    == flat_pre[i],
                forall|i: int| 0 <= i < flat_pre.len() ==> !(#[trigger] models_pre[i]).last,
            decreases m - k,
        {
            let bytes = batches[k].clone();
            proof {
                assert(bytes.deep_view() == f(cs)[k as int]);
                assert(bytes@ =~= bytes.deep_view());
            }
            let batch = DocumentBatch { bytes, last: is_final_uri && k + 1 == m };
            let ghost bm = batch.model();
            let ghost prev_models = out@.map_values(|b: DocumentBatch| b.model());
            out.push(batch);
            proof {
                assert(out@.map_values(|b: DocumentBatch| b.model()) =~= prev_models.push(bm));
            }
            k += 1;
        }
        proof {
            assert(ucs.take(u + 1) =~= ucs.take(u as int).push(ucs[u as int]));
            assert(ucs[u as int] == cs);
            assert(ucs.take(u + 1).map_values(f) =~= ucs.take(u as int).map_values(f).push(f(cs)));
            ucs.take(u as int).map_values(f).lemma_flatten_push(f(cs));
            let flat_next = ucs.take(u + 1).map_values(f).flatten();
            assert(flat_next =~= flat_pre + f(cs));
            if u + 1 == n {
                assert(ucs.last() == cs);
            } else {
                assert(!(u + 1 == n));
            }
        }
        u += 1;
    }
    proof {
        assert(ucs.take(n as int) =~= ucs);
        let models = out@.map_values(|b: DocumentBatch| b.model());
        assert(models =~= run_batches(ucs, budget));
    }
    out
}

/// A data source that streams documents from local files or HTTP
/// endpoints named by a single URI template with `{a..b}` range syntax.
pub struct UriSource {
    uris: Vec<String>,
}

impl UriSource {
    /// The expanded URI list this source walks, in order.
    pub closed spec fn spec_uris(self) -> Seq<Seq<char>> {
        self.uris.deep_view()
    }

    /// Builds a source from a URI template; fails when the template's
    /// range syntax cannot be expanded.
    pub fn new(uri: &str) -> (r: Result<UriSource, ExpandError>)
        ensures
            match r {
                Ok(s) => {
                    &&& all_tokens_ok(tokens_from(uri@, 0))
                    &&& s.spec_uris() == spec_expand_uris(uri@)
                },
                Err(_) => !all_tokens_ok(tokens_from(uri@, 0)),
            },
    {
        match expand_uris(String::from_str(uri)) {
            Ok(uris) => Ok(UriSource { uris }),
            Err(e) => Err(e),
        }
    }

    /// The expanded URI list, for the producer loop and the report.
    pub fn uris(&self) -> (r: Vec<String>)
        ensures
            r.deep_view() == self.spec_uris(),
    {
        self.uris.clone()
    }
}

} // verus!
