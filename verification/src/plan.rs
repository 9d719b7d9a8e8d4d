//! What a host answers to a read: not bytes, but the chunks that hold them.

use vstd::prelude::*;

verus! {

/// One chunk of an object: its content id, where in the object its first byte lies, and how many
/// bytes it holds.
#[derive(Debug)]
pub struct Chunk {
    pub cid: String,
    pub offset: u64,
    pub len: u64,
}

/// The chunks that cover a requested byte range, in object order.
#[derive(Debug)]
pub struct ReadPlan {
    pub chunks: Vec<Chunk>,
}

pub struct ChunkView {
    pub cid: Seq<char>,
    pub offset: u64,
    pub len: u64,
}

impl View for Chunk {
    type V = ChunkView;

    open spec fn view(&self) -> ChunkView {
        ChunkView { cid: self.cid@, offset: self.offset, len: self.len }
    }
}

impl View for ReadPlan {
    type V = Seq<ChunkView>;

    open spec fn view(&self) -> Seq<ChunkView> {
        self.chunks@.map_values(|c: Chunk| c@)
    }
}

/// The number of bytes that the chunks of `plan` hold together.
pub open spec fn total_len(plan: Seq<ChunkView>) -> nat
    decreases plan.len(),
{
    if plan.len() == 0 {
        0
    } else {
        total_len(plan.drop_last()) + plan.last().len as nat
    }
}

/// The object offset of the first byte that `plan` covers; zero for a plan without chunks.
pub open spec fn base_of(plan: Seq<ChunkView>) -> u64 {
    if plan.len() == 0 {
        0
    } else {
        plan[0].offset
    }
}

/// A plan is seen as its chunks, one for one and in order, each with its own content id, offset and
/// length.
pub proof fn lemma_plan_is_its_chunks(plan: ReadPlan)
    ensures
        plan@.len() == plan.chunks@.len(),
        forall|i: int|
            0 <= i < plan.chunks@.len() ==> {
                &&& (#[trigger] plan@[i]).cid == plan.chunks@[i].cid@
                &&& plan@[i].offset == plan.chunks@[i].offset
                &&& plan@[i].len == plan.chunks@[i].len
            },
{
}

/// The length of a plan is the sum of its chunks' lengths: no chunks hold nothing, one holds its own
/// length, and two plans hold together what each of them does.
pub proof fn lemma_total_len_is_a_sum(a: Seq<ChunkView>, b: Seq<ChunkView>, chunk: ChunkView)
    ensures
        total_len(Seq::empty()) == 0,
        total_len(seq![chunk]) == chunk.len,
        total_len(a + b) == total_len(a) + total_len(b),
    decreases b.len(),
{
    reveal_with_fuel(total_len, 2);
    assert(seq![chunk].drop_last() =~= Seq::<ChunkView>::empty());
    if b.len() == 0 {
        assert(a + b =~= a);
    } else {
        lemma_total_len_is_a_sum(a, b.drop_last(), chunk);
        assert((a + b).drop_last() =~= a + b.drop_last());
    }
}

/// What a plan covers starts where its first chunk does.
pub proof fn lemma_base_is_the_first_offset(first: ChunkView, rest: Seq<ChunkView>)
    ensures
        base_of(seq![first] + rest) == first.offset,
        base_of(Seq::empty()) == 0,
{
}

proof fn lemma_total_len_prefix(plan: Seq<ChunkView>, n: int)
    requires
        0 <= n <= plan.len(),
    ensures
        total_len(plan.take(n)) <= total_len(plan),
    decreases plan.len() - n,
{
    if n < plan.len() {
        lemma_total_len_prefix(plan, n + 1);
        assert(plan.take(n + 1).drop_last() =~= plan.take(n));
    } else {
        assert(plan.take(n) =~= plan);
    }
}

impl ReadPlan {
    /// How many bytes the chunks hold together, or `None` if that is no `usize`.
    pub fn planned_len(&self) -> (n: Option<usize>)
        ensures
            n == (if total_len(self@) <= usize::MAX {
                Some(total_len(self@) as usize)
            } else {
                None
            }),
    {
        let mut total: usize = 0;
        let mut i: usize = 0;
        while i < self.chunks.len()
            invariant
                i <= self.chunks.len(),
                total == total_len(self@.take(i as int)),
            decreases self.chunks.len() - i,
        {
            proof {
                assert(self@.take(i + 1).drop_last() =~= self@.take(i as int));
                lemma_total_len_prefix(self@, i + 1);
            }
            let len: u64 = self.chunks[i].len;
            if len > (usize::MAX - total) as u64 {
                return None;
            }
            total = total + len as usize;
            i = i + 1;
        }
        assert(self@.take(i as int) =~= self@);
        Some(total)
    }

    /// The object offset of the first byte that the plan covers; zero if there are no chunks.
    pub fn base(&self) -> (base: u64)
        ensures
            base == base_of(self@),
            self.chunks@.len() == 0 ==> base == 0,
            self.chunks@.len() > 0 ==> base == self.chunks@[0].offset,
    {
        if self.chunks.len() == 0 {
            0
        } else {
            self.chunks[0].offset
        }
    }
}

} // verus!
