use vstd::prelude::*;
use vstd::arithmetic::div_mod::{lemma_fundamental_div_mod, lemma_fundamental_div_mod_converse};

verus! {

/// How many chunks of at most `size` bytes cover `len` bytes: the ceiling of
/// `len / size`.
pub open spec fn chunk_count(len: nat, size: nat) -> nat
    recommends
        size > 0,
{
    ((len + size - 1) as nat / size) as nat
}

/// Where chunk `i` of `len` bytes, cut every `size` bytes, ends.
pub open spec fn chunk_end(len: nat, size: nat, i: int) -> int {
    if (i + 1) * size <= len {
        (i + 1) * size
    } else {
        len as int
    }
}

/// Chunk `i` of `bytes`, cut every `size` bytes; the last may be shorter.
pub open spec fn chunk_of(bytes: Seq<u8>, size: nat, i: int) -> Seq<u8> {
    bytes.subrange(i * size, chunk_end(bytes.len(), size, i))
}

/// The chunks joined back together, in order.
pub open spec fn concat_chunks(chunks: Seq<Seq<u8>>) -> Seq<u8>
    decreases chunks.len(),
{
    if chunks.len() == 0 {
        Seq::<u8>::empty()
    } else {
        concat_chunks(chunks.drop_last()) + chunks.last()
    }
}

/// `k` is the ceiling of `len / size`, read off its defining bounds.
pub proof fn lemma_chunk_count_bounds(len: nat, size: nat, k: nat)
    requires
        size > 0,
    ensures
        k == chunk_count(len, size) <==> (k * size >= len && (k == 0 || (k - 1) * size < len)),
{
    let x = (len + size - 1) as int;
    let d = size as int;
    lemma_fundamental_div_mod(x, d);
    let q = x / d;
    let r = x % d;
    assert(0 <= r < d);
    assert(q * d == d * q) by (nonlinear_arith);
    if k * size >= len && (k == 0 || (k - 1) * size < len) {
        let r2 = x - k * d;
        if k > 0 {
            assert((k - 1) * d == k * d - d) by (nonlinear_arith);
        }
        lemma_fundamental_div_mod_converse(x, d, k as int, r2);
    }
    if k == chunk_count(len, size) {
        assert(q >= 0) by (nonlinear_arith)
            requires
                x >= 0,
                d > 0,
                q == x / d,
        ;
        assert(k == q);
        assert((q - 1) * d == q * d - d) by (nonlinear_arith);
    }
}

/// Copies `bytes[start..end]`.
fn copy_range(bytes: &[u8], start: usize, end: usize) -> (r: Vec<u8>)
    requires
        start <= end <= bytes@.len(),
    ensures
        r@ == bytes@.subrange(start as int, end as int),
{
    let mut r: Vec<u8> = Vec::new();
    let mut i = start;
    while i < end
        invariant
            start <= i <= end <= bytes@.len(),
            r@ == bytes@.subrange(start as int, i as int),
        decreases end - i,
    {
        r.push(bytes[i]);
        i = i + 1;
        assert(r@ =~= bytes@.subrange(start as int, i as int));
    }
    r
}

/// Cuts `bytes` into chunks of `size` bytes, in order; the last one may be
/// shorter.
pub fn split_chunks(bytes: &[u8], size: usize) -> (r: Vec<Vec<u8>>)
    requires
        size > 0,
    ensures
        r@.len() == chunk_count(bytes@.len(), size as nat),
        forall|i: int| 0 <= i < r@.len() ==> (#[trigger] r@[i])@ == chunk_of(bytes@, size as nat, i),
{
    let len = bytes.len();
    let mut r: Vec<Vec<u8>> = Vec::new();
    let mut start: usize = 0;
    assert(r@.len() * size == 0) by (nonlinear_arith)
        requires
            r@.len() == 0,
    ;
    while start < len
        invariant
            len == bytes@.len(),
            size > 0,
            start <= len,
            start < len ==> start == r@.len() * size,
            start == len ==> r@.len() * size >= len,
            r@.len() == 0 ==> start == 0,
            r@.len() > 0 ==> (r@.len() - 1) * size < len,
            forall|i: int| 0 <= i < r@.len() ==> (#[trigger] r@[i])@ == chunk_of(bytes@, size as nat, i),
        decreases len - start,
    {
        let k = r.len();
        let end = if len - start <= size {
            len
        } else {
            start + size
        };
        assert(end == chunk_end(len as nat, size as nat, k as int)) by {
            assert((k + 1) * size == k * size + size) by (nonlinear_arith);
        }
        let chunk = copy_range(bytes, start, end);
        r.push(chunk);
        assert((k + 1) * size == k * size + size) by (nonlinear_arith);
        assert(r@[k as int]@ == chunk_of(bytes@, size as nat, k as int));
        start = end;
    }
    proof {
        lemma_chunk_count_bounds(len as nat, size as nat, r@.len());
    }
    r
}

/// One step of sending a frame, in the order in which it is to be carried out.
#[derive(Clone, Debug, PartialEq, Eq)]
pub enum SendStep {
    /// Raise the ready-to-transmit control line.
    RaiseReady,
    /// Tell a progress display the frame's length in bytes.
    ReportLength(usize),
    /// Tell a progress display that this many more bytes go out.
    Progress(usize),
    /// Write these bytes.
    Write(Vec<u8>),
    /// Wait this many milliseconds.
    Pause(u64),
}

/// The bytes that the write steps send, in order.
pub open spec fn written(steps: Seq<SendStep>) -> Seq<u8>
    decreases steps.len(),
{
    if steps.len() == 0 {
        Seq::<u8>::empty()
    } else {
        written(steps.drop_last()) + match steps.last() {
            SendStep::Write(b) => b@,
            _ => Seq::<u8>::empty(),
        }
    }
}

/// How many of the steps are writes.
pub open spec fn count_writes(steps: Seq<SendStep>) -> nat
    decreases steps.len(),
{
    if steps.len() == 0 {
        0
    } else {
        count_writes(steps.drop_last()) + if steps.last() is Write {
            1nat
        } else {
            0nat
        }
    }
}

/// How many of the steps are pauses.
pub open spec fn count_pauses(steps: Seq<SendStep>) -> nat
    decreases steps.len(),
{
    if steps.len() == 0 {
        0
    } else {
        count_pauses(steps.drop_last()) + if steps.last() is Pause {
            1nat
        } else {
            0nat
        }
    }
}

/// The three steps of chunk `i`: report its length, write it, pause.
pub open spec fn chunk_steps(
    steps: Seq<SendStep>,
    bytes: Seq<u8>,
    size: nat,
    pause_ms: u64,
    i: int,
) -> bool {
    &&& steps[2 + 3 * i] == SendStep::Progress(chunk_of(bytes, size, i).len() as usize)
    &&& steps[3 + 3 * i] is Write
    &&& steps[3 + 3 * i]->Write_0@ == chunk_of(bytes, size, i)
    &&& steps[4 + 3 * i] == SendStep::Pause(pause_ms)
}

/// The steps that send `bytes` in chunks of `size` bytes with a pause of
/// `pause_ms` after each: raise the control line, report the length, then
/// for each chunk report its length, write it and pause.
pub open spec fn is_send_plan(steps: Seq<SendStep>, bytes: Seq<u8>, size: nat, pause_ms: u64) -> bool {
    let k = chunk_count(bytes.len(), size);
    &&& steps.len() == 2 + 3 * k
    &&& steps[0] == SendStep::RaiseReady
    &&& steps[1] == SendStep::ReportLength(bytes.len() as usize)
    &&& forall|i: int| 0 <= i < k ==> #[trigger] chunk_steps(steps, bytes, size, pause_ms, i)
}

/// Builds the steps that send `bytes` in chunks of `size` bytes, with a pause
/// of `pause_ms` milliseconds after every chunk, the last one included.
pub fn send_plan(bytes: &[u8], size: usize, pause_ms: u64) -> (r: Vec<SendStep>)
    requires
        size > 0,
    ensures
        is_send_plan(r@, bytes@, size as nat, pause_ms),
{
    let chunks = split_chunks(bytes, size);
    let k = chunks.len();
    let mut steps: Vec<SendStep> = Vec::new();
    steps.push(SendStep::RaiseReady);
    steps.push(SendStep::ReportLength(bytes.len()));
    let mut i: usize = 0;
    while i < k
        invariant
            k == chunks@.len(),
            k == chunk_count(bytes@.len(), size as nat),
            forall|j: int| 0 <= j < k ==> (#[trigger] chunks@[j])@ == chunk_of(bytes@, size as nat, j),
            i <= k,
            steps@.len() == 2 + 3 * i,
            steps@[0] == SendStep::RaiseReady,
            steps@[1] == SendStep::ReportLength(bytes@.len() as usize),
            forall|j: int| 0 <= j < i ==> #[trigger] chunk_steps(steps@, bytes@, size as nat, pause_ms, j),
        decreases k - i,
    {
        let chunk = copy_range(chunks[i].as_slice(), 0, chunks[i].len());
        assert(chunk@ =~= chunks@[i as int]@);
        let ghost prev = steps@;
        steps.push(SendStep::Progress(chunk.len()));
        steps.push(SendStep::Write(chunk));
        steps.push(SendStep::Pause(pause_ms));
        assert forall|j: int| 0 <= j < i + 1 implies #[trigger] chunk_steps(
            steps@,
            bytes@,
            size as nat,
            pause_ms,
            j,
        ) by {
            if j < i {
                assert(chunk_steps(prev, bytes@, size as nat, pause_ms, j));
            }
        }
        i = i + 1;
    }
    steps
}

proof fn lemma_plan_prefix(steps: Seq<SendStep>, bytes: Seq<u8>, size: nat, pause_ms: u64, j: nat)
    requires
        size > 0,
        is_send_plan(steps, bytes, size, pause_ms),
        j <= chunk_count(bytes.len(), size),
    ensures
        written(steps.take(2 + 3 * j as int)) == bytes.take(
            if j == 0 {
                0
            } else {
                chunk_end(bytes.len(), size, j - 1)
            },
        ),
        count_writes(steps.take(2 + 3 * j as int)) == j,
        count_pauses(steps.take(2 + 3 * j as int)) == j,
    decreases j,
{
    let k = chunk_count(bytes.len(), size);
    lemma_chunk_count_bounds(bytes.len(), size, k);
    if j == 0 {
        let t = steps.take(2);
        assert(t.drop_last() =~= steps.take(1));
        assert(t.drop_last().drop_last() =~= steps.take(0));
        assert(t.last() == steps[1]);
        assert(t.drop_last().last() == steps[0]);
        let t1 = t.drop_last();
        assert(written(t1.drop_last()) =~= Seq::<u8>::empty());
        assert(written(t1) =~= Seq::<u8>::empty());
        assert(written(t) =~= Seq::<u8>::empty());
        assert(count_writes(t1.drop_last()) == 0);
        assert(count_pauses(t1.drop_last()) == 0);
        assert(count_writes(t1) == 0);
        assert(count_pauses(t1) == 0);
        assert(bytes.take(0) =~= Seq::<u8>::empty());
    } else {
        let i = j - 1;
        lemma_plan_prefix(steps, bytes, size, pause_ms, i as nat);
        assert(chunk_steps(steps, bytes, size, pause_ms, i));
        let t = steps.take(2 + 3 * j as int);
        assert(t.drop_last() =~= steps.take(4 + 3 * i as int));
        assert(t.drop_last().drop_last() =~= steps.take(3 + 3 * i as int));
        assert(t.drop_last().drop_last().drop_last() =~= steps.take(2 + 3 * i as int));
        assert(t.last() == steps[4 + 3 * i]);
        assert(t.drop_last().last() == steps[3 + 3 * i]);
        assert(t.drop_last().drop_last().last() == steps[2 + 3 * i]);
        let t1 = t.drop_last();
        let t2 = t1.drop_last();
        let t3 = t2.drop_last();
        assert(written(t2) =~= written(t3));
        assert(written(t1) =~= written(t3) + chunk_of(bytes, size, i as int));
        assert(written(t) =~= written(t1));
        assert(count_writes(t2) == count_writes(t3));
        assert(count_writes(t1) == count_writes(t3) + 1);
        assert(count_pauses(t2) == count_pauses(t3));
        assert(count_pauses(t1) == count_pauses(t3));
        assert(i * size <= (k - 1) * size) by (nonlinear_arith)
            requires
                i <= k - 1,
                size > 0,
        ;
        if i > 0 {
            assert(chunk_end(bytes.len(), size, i - 1) == i * size);
        }
        if i == 0 {
            assert(i * size == 0) by (nonlinear_arith)
                requires
                    i == 0,
            ;
        }
        assert((i + 1) * size == i * size + size) by (nonlinear_arith);
        assert(i * size < bytes.len());
        assert(bytes.take(chunk_end(bytes.len(), size, i)) =~= bytes.take(i * size) + chunk_of(
            bytes,
            size,
            i,
        ));
    }
}

/// Chunking loses nothing: the bytes written by a send plan, joined in order,
/// are exactly the bytes it was made for.
pub proof fn lemma_plan_writes_all(steps: Seq<SendStep>, bytes: Seq<u8>, size: nat, pause_ms: u64)
    requires
        size > 0,
        is_send_plan(steps, bytes, size, pause_ms),
    ensures
        written(steps) == bytes,
{
    let k = chunk_count(bytes.len(), size);
    lemma_chunk_count_bounds(bytes.len(), size, k);
    lemma_plan_prefix(steps, bytes, size, pause_ms, k);
    assert(steps.take(2 + 3 * k as int) =~= steps);
    if k > 0 {
        assert(bytes.take(chunk_end(bytes.len(), size, k - 1)) =~= bytes);
    } else {
        assert(bytes.take(0) =~= bytes);
    }
}

/// Pacing: a send plan for `len` bytes in chunks of `size` writes the ceiling
/// of `len / size` times and pauses exactly as often as it writes.
pub proof fn lemma_plan_pacing(steps: Seq<SendStep>, bytes: Seq<u8>, size: nat, pause_ms: u64)
    requires
        size > 0,
        is_send_plan(steps, bytes, size, pause_ms),
    ensures
        count_writes(steps) == chunk_count(bytes.len(), size),
        count_pauses(steps) == count_writes(steps),
{
    let k = chunk_count(bytes.len(), size);
    lemma_plan_prefix(steps, bytes, size, pause_ms, k);
    assert(steps.take(2 + 3 * k as int) =~= steps);
}

} // verus!
