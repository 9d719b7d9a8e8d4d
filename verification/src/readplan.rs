//! Ranged chunk fetch and reassembly for a [`ReadPlan`].
//!
//! A read returns a plan, not bytes. The chunks it names are fetched one after the other from the
//! content-addressed data layer, and each is held against its content id before it is used.

use vstd::prelude::*;

use crate::plan::{base_of, total_len, ChunkView, ReadPlan};

verus! {

/// A fetched chunk: the bytes that came, and the content id computed over them.
#[derive(Debug)]
pub struct Blob {
    pub bytes: Vec<u8>,
    pub cid: String,
}

pub struct BlobView {
    pub bytes: Seq<u8>,
    pub cid: Seq<char>,
}

impl View for Blob {
    type V = BlobView;

    open spec fn view(&self) -> BlobView {
        BlobView { bytes: self.bytes@, cid: self.cid@ }
    }
}

/// Why a fetch was given up.
#[derive(Debug)]
pub enum FetchError<E> {
    /// The data layer did not deliver the chunk.
    Blob(E),
    /// What was delivered is not the chunk that the plan names.
    Mismatch { expected: String, got: String },
}

pub enum FetchErrorView<E> {
    Blob(E),
    Mismatch { expected: Seq<char>, got: Seq<char> },
}

impl<E> View for FetchError<E> {
    type V = FetchErrorView<E>;

    open spec fn view(&self) -> FetchErrorView<E> {
        match *self {
            FetchError::Blob(e) => FetchErrorView::Blob(e),
            FetchError::Mismatch { expected, got } => FetchErrorView::Mismatch {
                expected: expected@,
                got: got@,
            },
        }
    }
}

impl<E> FetchErrorView<E> {
    /// The text of the error; `cause` is the text of the data layer's own error, if there is one.
    pub open spec fn text(self, cause: Seq<char>) -> Seq<char> {
        match self {
            FetchErrorView::Blob(_) => cause,
            FetchErrorView::Mismatch { expected, got } => "chunk verification failed: expected "@
                + expected + ", got "@ + got,
        }
    }
}

impl<E> FetchError<E> {
    /// The text to report, where `cause` is the text of the data layer's own error.
    pub fn message(&self, cause: &str) -> (text: String)
        ensures
            text@ == self@.text(cause@),
            self matches FetchError::Blob(_) ==> text@ == cause@,
            self matches FetchError::Mismatch { expected, got } ==> text@
                == "chunk verification failed: expected "@ + expected@ + ", got "@ + got@,
    {
        match self {
            FetchError::Blob(_) => cause.to_owned(),
            FetchError::Mismatch { expected, got } => {
                let mut text: String = "chunk verification failed: expected ".to_owned();
                text.append(expected.as_str());
                text.append(", got ");
                text.append(got.as_str());
                text
            },
        }
    }
}

/// A fetch under way: the chunks before `next` have been fetched and held against the plan, and
/// `bytes` is what they hold.
pub struct PlanFetch<'a> {
    plan: &'a ReadPlan,
    next: usize,
    bytes: Vec<u8>,
}

#[verifier::ext_equal]
pub struct FetchView {
    pub plan: Seq<ChunkView>,
    pub next: nat,
    pub bytes: Seq<u8>,
}

impl<'a> View for PlanFetch<'a> {
    type V = FetchView;

    closed spec fn view(&self) -> FetchView {
        FetchView { plan: self.plan@, next: self.next as nat, bytes: self.bytes@ }
    }
}

impl FetchView {
    /// A fetch of `plan` before the first chunk.
    pub open spec fn start(plan: Seq<ChunkView>) -> FetchView {
        FetchView { plan, next: 0, bytes: Seq::empty() }
    }

    /// Nothing is left to fetch.
    pub open spec fn is_done(self) -> bool {
        self.next >= self.plan.len()
    }
}

/// `reply` delivers the chunk that the plan names.
pub open spec fn delivers<E>(chunk: ChunkView, reply: Result<BlobView, E>) -> bool {
    reply matches Ok(blob) && blob.cid == chunk.cid
}

/// The error that a `reply` which does not deliver `chunk` ends the fetch with.
pub open spec fn refusal<E>(chunk: ChunkView, reply: Result<BlobView, E>) -> FetchErrorView<E> {
    match reply {
        Err(e) => FetchErrorView::Blob(e),
        Ok(blob) => FetchErrorView::Mismatch { expected: chunk.cid, got: blob.cid },
    }
}

/// Where a fetch stands after the data layer's `reply` to the request for its next chunk.
pub open spec fn fetch_next<E>(fetch: FetchView, reply: Result<BlobView, E>) -> Result<
    FetchView,
    FetchErrorView<E>,
> {
    let chunk = fetch.plan[fetch.next as int];
    if delivers(chunk, reply) {
        Ok(
            FetchView {
                plan: fetch.plan,
                next: fetch.next + 1,
                bytes: fetch.bytes + reply->Ok_0.bytes,
            },
        )
    } else {
        Err(refusal(chunk, reply))
    }
}

/// A reply with its blob taken by its view.
pub open spec fn reply_view<E>(reply: Result<Blob, E>) -> Result<BlobView, E> {
    match reply {
        Ok(blob) => Ok(blob@),
        Err(e) => Err(e),
    }
}

/// An outcome with the fetch or the error taken by its view.
pub open spec fn outcome_view<'a, E>(outcome: Result<PlanFetch<'a>, FetchError<E>>) -> Result<
    FetchView,
    FetchErrorView<E>,
> {
    match outcome {
        Ok(fetch) => Ok(fetch@),
        Err(e) => Err(e@),
    }
}

impl<'a> PlanFetch<'a> {
    /// Starts to fetch `plan`, with room for all that its chunks hold. That must be no more than a
    /// vector can have room for.
    pub fn new(plan: &'a ReadPlan) -> (fetch: PlanFetch<'a>)
        requires
            total_len(plan@) <= isize::MAX,
        ensures
            fetch@ == FetchView::start(plan@),
            fetch@.plan == plan@,
            fetch@.next == 0,
            fetch@.bytes == Seq::<u8>::empty(),
    {
        let room: usize = plan.planned_len().unwrap();
        PlanFetch { plan, next: 0, bytes: Vec::with_capacity(room) }
    }

    /// The content id of the chunk to fetch next; `None` when all have been fetched.
    pub fn wanted(&self) -> (cid: Option<&'a String>)
        ensures
            cid is None <==> self@.is_done(),
            cid is None <==> self@.next >= self@.plan.len(),
            cid matches Some(cid) ==> cid@ == self@.plan[self@.next as int].cid,
    {
        if self.next < self.plan.chunks.len() {
            Some(&self.plan.chunks[self.next].cid)
        } else {
            None
        }
    }

    /// The bytes of the chunks, one after the other.
    pub fn into_bytes(self) -> (bytes: Vec<u8>)
        requires
            self@.is_done(),
        ensures
            bytes@ == self@.bytes,
    {
        self.bytes
    }
}

/// Takes the data layer's reply to the request for the wanted chunk. A chunk whose content id is
/// the one that the plan names is appended; anything else ends the fetch.
pub fn fetch_plan<'a, E>(fetch: PlanFetch<'a>, reply: Result<Blob, E>) -> (outcome: Result<
    PlanFetch<'a>,
    FetchError<E>,
>)
    requires
        !fetch@.is_done(),
    ensures
        outcome_view(outcome) == fetch_next(fetch@, reply_view(reply)),
        reply matches Err(e) ==> outcome == Err::<PlanFetch<'a>, FetchError<E>>(
            FetchError::Blob(e),
        ),
        reply matches Ok(blob) ==> (blob.cid@ == fetch@.plan[fetch@.next as int].cid ==> {
            &&& outcome matches Ok(next)
            &&& next@.plan == fetch@.plan
            &&& next@.next == fetch@.next + 1
            &&& next@.bytes == fetch@.bytes + blob.bytes@
        }),
        reply matches Ok(blob) ==> (blob.cid@ != fetch@.plan[fetch@.next as int].cid ==> {
            &&& outcome matches Err(FetchError::Mismatch { expected, got })
            &&& expected@ == fetch@.plan[fetch@.next as int].cid
            &&& got@ == blob.cid@
        }),
{
    let blob: Blob = match reply {
        Ok(blob) => blob,
        Err(e) => return Err(FetchError::Blob(e)),
    };
    let plan: &'a ReadPlan = fetch.plan;
    let index: usize = fetch.next;
    assert(index < plan.chunks.len());
    if blob.cid != plan.chunks[index].cid {
        return Err(
            FetchError::Mismatch { expected: plan.chunks[index].cid.clone(), got: blob.cid },
        );
    }
    let mut bytes: Vec<u8> = fetch.bytes;
    bytes.extend_from_slice(blob.bytes.as_slice());
    assert(bytes@ =~= fetch.bytes@ + blob.bytes@);
    Ok(PlanFetch { plan, next: index + 1, bytes })
}

/// How far into bytes that start at object offset `base` a read at `offset` starts.
pub open spec fn relative_start(base: u64, offset: u64) -> nat {
    if offset >= base {
        (offset - base) as nat
    } else {
        0
    }
}

/// Of bytes that start at object offset `base`, those at the object offsets from `offset` up to, and
/// without, `offset + len`; without a length, all from `offset` on.
pub open spec fn window(whole: Seq<u8>, base: u64, offset: u64, len: Option<u64>) -> Seq<u8> {
    let start = relative_start(base, offset) as int;
    let end = match len {
        Some(len) if offset + len < base + whole.len() => offset + len - base,
        _ => whole.len() as int,
    };
    if start < end {
        whole.subrange(start, end)
    } else {
        Seq::empty()
    }
}

/// Slices the chunk-aligned bytes `whole`, whose first byte is object offset `base`, down to the
/// exact requested window `[offset, offset + len)`, or to all from `offset` on. What of the window
/// lies before `base` or past the last byte is not at hand, and is left out.
pub fn slice_range(whole: Vec<u8>, base: u64, offset: u64, len: Option<u64>) -> (range: Vec<u8>)
    ensures
        range@ == window(whole@, base, offset, len),
        ({
            let from = if offset >= base {
                offset as int
            } else {
                base as int
            };
            let held = base + whole@.len();
            let to = match len {
                Some(len) if offset + len < held => offset + len,
                _ => held,
            };
            range@ == if from < to {
                whole@.subrange(from - base, to - base)
            } else {
                Seq::empty()
            }
        }),
{
    let available: u64 = whole.len() as u64;
    let start: u64 = offset.saturating_sub(base);
    if start >= available {
        return Vec::new();
    }
    let end: u64 = match len {
        Some(len) => {
            // The part of the window that lies before `base` is not at hand.
            let wanted: u64 = len.saturating_sub(base.saturating_sub(offset));
            if wanted < available - start {
                start + wanted
            } else {
                available
            }
        },
        None => available,
    };
    let range: Vec<u8> = vstd::slice::slice_to_vec(
        vstd::slice::slice_subrange(whole.as_slice(), start as usize, end as usize),
    );
    assert(range@ =~= window(whole@, base, offset, len));
    range
}

/// Of `whole`, the bytes of all chunks of `plan`, exactly the requested range of the object: the
/// first chunk's offset is the object offset of the first byte.
pub fn fetch_range(plan: &ReadPlan, whole: Vec<u8>, offset: u64, len: Option<u64>) -> (range: Vec<
    u8,
>)
    ensures
        range@ == window(whole@, base_of(plan@), offset, len),
        plan.chunks@.len() > 0 ==> range@ == window(whole@, plan.chunks@[0].offset, offset, len),
        plan.chunks@.len() == 0 ==> range@ == window(whole@, 0, offset, len),
{
    slice_range(whole, plan.base(), offset, len)
}

} // verus!
