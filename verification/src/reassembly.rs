//! What a whole fetch gives: the laws of [`crate::readplan`] over every sequence of replies.

use vstd::prelude::*;

use crate::plan::{base_of, total_len, ChunkView};
use crate::readplan::{
    delivers, fetch_next, refusal, reply_view, window, Blob, BlobView, FetchError, FetchErrorView,
    FetchView,
};

verus! {

/// Where a fetch stands after `replies`, taken one after the other until one of them ends it or
/// nothing is left to fetch.
pub open spec fn fetch_run<E>(fetch: FetchView, replies: Seq<Result<BlobView, E>>) -> Result<
    FetchView,
    FetchErrorView<E>,
>
    decreases replies.len(),
{
    if fetch.is_done() || replies.len() == 0 {
        Ok(fetch)
    } else {
        match fetch_next(fetch, replies.first()) {
            Ok(next) => fetch_run(next, replies.drop_first()),
            Err(e) => Err(e),
        }
    }
}

/// The bytes that each of `replies` carries.
pub open spec fn served<E>(replies: Seq<Result<BlobView, E>>) -> Seq<Seq<u8>> {
    replies.map_values(
        |reply: Result<BlobView, E>|
            match reply {
                Ok(blob) => blob.bytes,
                Err(_) => Seq::empty(),
            },
    )
}

/// Each chunk of `plan` starts where the one before it ends.
pub open spec fn is_contiguous(plan: Seq<ChunkView>) -> bool {
    forall|i: int, j: int|
        0 <= i && j == i + 1 && j < plan.len() ==> (#[trigger] plan[j]).offset == (
        #[trigger] plan[i]).offset + plan[i].len
}

/// No chunk of `plan` reaches past the end of `object`.
pub open spec fn lies_within(plan: Seq<ChunkView>, object: Seq<u8>) -> bool {
    forall|i: int|
        0 <= i < plan.len() ==> (#[trigger] plan[i]).offset + plan[i].len <= object.len()
}

/// The bytes of `object` that each chunk of `plan` stands for.
pub open spec fn pieces(plan: Seq<ChunkView>, object: Seq<u8>) -> Seq<Seq<u8>> {
    plan.map_values(|c: ChunkView| object.subrange(c.offset as int, c.offset + c.len))
}

/// Each blob among `replies` carries the content id of its own bytes, computed by `cid_of`.
pub open spec fn ids_computed<E>(
    replies: Seq<Result<BlobView, E>>,
    cid_of: spec_fn(Seq<u8>) -> Seq<char>,
) -> bool {
    forall|i: int|
        0 <= i < replies.len() ==> (#[trigger] replies[i] matches Ok(blob) ==> blob.cid == cid_of(
            blob.bytes,
        ))
}

/// The content ids of `plan` are those of the bytes that were `committed`, chunk by chunk.
pub open spec fn commits_to(
    plan: Seq<ChunkView>,
    committed: Seq<Seq<u8>>,
    cid_of: spec_fn(Seq<u8>) -> Seq<char>,
) -> bool {
    &&& committed.len() == plan.len()
    &&& forall|i: int| 0 <= i < plan.len() ==> (#[trigger] plan[i]).cid == cid_of(committed[i])
}

/// No bytes of `a` share a content id with other bytes at the same place in `b`.
pub open spec fn no_collision(
    a: Seq<Seq<u8>>,
    b: Seq<Seq<u8>>,
    cid_of: spec_fn(Seq<u8>) -> Seq<char>,
) -> bool {
    forall|i: int|
        0 <= i < a.len() && i < b.len() && cid_of(#[trigger] a[i]) == cid_of(b[i]) ==> a[i] == b[i]
}

proof fn lemma_served_first<E>(replies: Seq<Result<BlobView, E>>)
    requires
        replies.len() > 0,
    ensures
        served(replies).drop_first() == served(replies.drop_first()),
        replies.first() matches Ok(blob) ==> served(replies).first() == blob.bytes,
{
    assert(served(replies).drop_first() =~= served(replies.drop_first()));
}

proof fn lemma_run_delivers<E>(fetch: FetchView, replies: Seq<Result<BlobView, E>>)
    requires
        fetch.next + replies.len() <= fetch.plan.len(),
        forall|i: int|
            0 <= i < replies.len() ==> delivers(fetch.plan[fetch.next + i], #[trigger] replies[i]),
    ensures
        fetch_run(fetch, replies) == Ok::<FetchView, FetchErrorView<E>>(
            FetchView {
                plan: fetch.plan,
                next: fetch.next + replies.len(),
                bytes: fetch.bytes + served(replies).flatten(),
            },
        ),
    decreases replies.len(),
{
    if replies.len() == 0 {
        assert(fetch.bytes + served(replies).flatten() =~= fetch.bytes);
    } else {
        assert(delivers(fetch.plan[fetch.next as int], replies[0]));
        let next = fetch_next(fetch, replies.first())->Ok_0;
        let rest = replies.drop_first();
        assert forall|i: int| 0 <= i < rest.len() implies delivers(
            next.plan[next.next + i],
            #[trigger] rest[i],
        ) by {
            assert(delivers(fetch.plan[fetch.next + (i + 1)], replies[i + 1]));
        }
        lemma_run_delivers(next, rest);
        lemma_served_first(replies);
        assert(fetch.bytes + served(replies).flatten() =~= next.bytes + served(rest).flatten());
    }
}

proof fn lemma_run_refuses<E>(fetch: FetchView, replies: Seq<Result<BlobView, E>>, bad: int)
    requires
        0 <= bad < replies.len(),
        fetch.next + bad < fetch.plan.len(),
        forall|i: int|
            0 <= i < bad ==> delivers(fetch.plan[fetch.next + i], #[trigger] replies[i]),
        !delivers(fetch.plan[fetch.next + bad], replies[bad]),
    ensures
        fetch_run(fetch, replies) == Err::<FetchView, FetchErrorView<E>>(
            refusal(fetch.plan[fetch.next + bad], replies[bad]),
        ),
    decreases bad,
{
    if bad > 0 {
        assert(delivers(fetch.plan[fetch.next as int], replies[0]));
        let next = fetch_next(fetch, replies.first())->Ok_0;
        let rest = replies.drop_first();
        assert forall|i: int| 0 <= i < bad - 1 implies delivers(
            next.plan[next.next + i],
            #[trigger] rest[i],
        ) by {
            assert(delivers(fetch.plan[fetch.next + (i + 1)], replies[i + 1]));
        }
        lemma_run_refuses(next, rest, bad - 1);
    }
}

/// A reply moves a fetch on if and only if it carries a blob whose content id is the one that the
/// plan names. Whatever else the blob is, its bytes are then appended and the next chunk is wanted.
/// A reply without a blob ends the fetch with its own error. A mismatch is reported only where the
/// two content ids differ, and it reports both.
pub proof fn lemma_chunk_is_used_iff_its_id_matches<E>(
    fetch: FetchView,
    reply: Result<BlobView, E>,
)
    requires
        fetch.next < fetch.plan.len(),
    ensures
        fetch_next(fetch, reply) is Ok <==> (reply is Ok && reply->Ok_0.cid
            == fetch.plan[fetch.next as int].cid),
        fetch_next(fetch, reply) matches Ok(after) ==> {
            &&& after.plan == fetch.plan
            &&& after.next == fetch.next + 1
            &&& after.bytes == fetch.bytes + reply->Ok_0.bytes
        },
        forall|e: E|
            fetch_next(fetch, reply) == Err::<FetchView, FetchErrorView<E>>(FetchErrorView::Blob(e))
                <==> reply == Err::<BlobView, E>(e),
        fetch_next(fetch, reply) matches Err(FetchErrorView::Mismatch { expected, got }) ==> {
            &&& expected != got
            &&& expected == fetch.plan[fetch.next as int].cid
            &&& reply is Ok
            &&& got == reply->Ok_0.cid
        },
{
}

/// Intact chunks are never refused: if every blob carries the content id that the plan names, then
/// whatever bytes they hold and however many there are, all are fetched, and the fetch holds their
/// bytes in the order of the plan.
pub proof fn lemma_intact_chunks_are_never_refused<E>(
    plan: Seq<ChunkView>,
    blobs: Seq<BlobView>,
)
    requires
        blobs.len() == plan.len(),
        forall|i: int| 0 <= i < plan.len() ==> (#[trigger] blobs[i]).cid == plan[i].cid,
    ensures
        fetch_run(
            FetchView { plan, next: 0, bytes: Seq::empty() },
            blobs.map_values(|blob: BlobView| Ok::<BlobView, E>(blob)),
        ) == Ok::<FetchView, FetchErrorView<E>>(
            FetchView {
                plan,
                next: plan.len(),
                bytes: blobs.map_values(|blob: BlobView| blob.bytes).flatten(),
            },
        ),
{
    let replies = blobs.map_values(|blob: BlobView| Ok::<BlobView, E>(blob));
    assert forall|i: int| 0 <= i < plan.len() implies delivers(plan[i], #[trigger] replies[i]) by {
        assert(blobs[i].cid == plan[i].cid);
    }
    lemma_fetch_reassembles(plan, replies);
    assert(served(replies) =~= blobs.map_values(|blob: BlobView| blob.bytes));
}

/// A fetch starts with nothing fetched, and nothing is left to fetch exactly when every chunk of the
/// plan has been.
pub proof fn lemma_fetch_starts_empty_and_ends_full(plan: Seq<ChunkView>, fetch: FetchView)
    ensures
        FetchView::start(plan) == (FetchView { plan, next: 0, bytes: Seq::empty() }),
        fetch.is_done() <==> fetch.next >= fetch.plan.len(),
{
}

/// The text of a fetch error is the data layer's own, or names the two content ids in turn.
pub proof fn lemma_fetch_error_text<E>(e: E, expected: String, got: String, cause: Seq<char>)
    ensures
        FetchError::Blob(e)@.text(cause) == cause,
        (FetchError::<E>::Mismatch { expected, got })@.text(cause)
            == "chunk verification failed: expected "@ + expected@ + ", got "@ + got@,
{
}

/// A blob and a reply are seen with the bytes, the content id and the error that they carry.
pub proof fn lemma_reply_is_what_it_carries<E>(blob: Blob, e: E)
    ensures
        reply_view(Ok::<Blob, E>(blob)) == Ok::<BlobView, E>(
            BlobView { bytes: blob.bytes@, cid: blob.cid@ },
        ),
        reply_view(Err::<Blob, E>(e)) == Err::<BlobView, E>(e),
{
}

/// A fetch whose every chunk is delivered ends with all chunks fetched, and holds their bytes, one
/// after the other in the order of the plan.
pub proof fn lemma_fetch_reassembles<E>(plan: Seq<ChunkView>, replies: Seq<Result<BlobView, E>>)
    requires
        replies.len() == plan.len(),
        forall|i: int| 0 <= i < plan.len() ==> delivers(plan[i], #[trigger] replies[i]),
    ensures
        fetch_run(FetchView::start(plan), replies) == Ok::<FetchView, FetchErrorView<E>>(
            FetchView { plan, next: plan.len(), bytes: served(replies).flatten() },
        ),
{
    lemma_run_delivers(FetchView::start(plan), replies);
    assert(Seq::<u8>::empty() + served(replies).flatten() =~= served(replies).flatten());
}

/// The first reply that does not deliver its chunk ends the fetch with that reply's error, whatever
/// would have come after it.
pub proof fn lemma_fetch_aborts<E>(
    plan: Seq<ChunkView>,
    replies: Seq<Result<BlobView, E>>,
    bad: int,
)
    requires
        0 <= bad < plan.len(),
        bad < replies.len(),
        forall|i: int|
            0 <= i < bad ==> (#[trigger] replies[i] is Ok && replies[i]->Ok_0.cid == plan[i].cid),
        !(replies[bad] is Ok && replies[bad]->Ok_0.cid == plan[bad].cid),
    ensures
        fetch_run(FetchView::start(plan), replies) == Err::<FetchView, FetchErrorView<E>>(
            match replies[bad] {
                Err(e) => FetchErrorView::Blob(e),
                Ok(blob) => FetchErrorView::Mismatch { expected: plan[bad].cid, got: blob.cid },
            },
        ),
{
    assert forall|i: int| 0 <= i < bad implies delivers(plan[i], #[trigger] replies[i]) by {
        assert(replies[i] is Ok && replies[i]->Ok_0.cid == plan[i].cid);
    }
    lemma_run_refuses(FetchView::start(plan), replies, bad);
}

/// A fetch that was not ended by an error has used no chunk whose content id is not the one that
/// the plan names: each reply it took delivers its chunk, and its bytes are theirs.
pub proof fn lemma_fetch_uses_only_verified<E>(
    plan: Seq<ChunkView>,
    replies: Seq<Result<BlobView, E>>,
)
    requires
        replies.len() <= plan.len(),
        fetch_run(FetchView::start(plan), replies) is Ok,
    ensures
        forall|i: int| 0 <= i < replies.len() ==> delivers(plan[i], #[trigger] replies[i]),
        forall|i: int|
            0 <= i < replies.len() ==> (#[trigger] replies[i] is Ok && replies[i]->Ok_0.cid
                == plan[i].cid),
        fetch_run(FetchView::start(plan), replies) == Ok::<FetchView, FetchErrorView<E>>(
            FetchView { plan, next: replies.len(), bytes: served(replies).flatten() },
        ),
{
    lemma_delivered_up_to(plan, replies, replies.len() as int);
    assert forall|i: int| 0 <= i < replies.len() implies (#[trigger] replies[i] is Ok
        && replies[i]->Ok_0.cid == plan[i].cid) by {
        assert(delivers(plan[i], replies[i]));
    }
    lemma_run_delivers(FetchView::start(plan), replies);
    assert(Seq::<u8>::empty() + served(replies).flatten() =~= served(replies).flatten());
}

proof fn lemma_delivered_up_to<E>(
    plan: Seq<ChunkView>,
    replies: Seq<Result<BlobView, E>>,
    n: int,
)
    requires
        0 <= n <= replies.len() <= plan.len(),
        fetch_run(FetchView::start(plan), replies) is Ok,
    ensures
        forall|i: int| 0 <= i < n ==> delivers(plan[i], #[trigger] replies[i]),
    decreases n,
{
    if n > 0 {
        lemma_delivered_up_to(plan, replies, n - 1);
        if !delivers(plan[n - 1], replies[n - 1]) {
            assert forall|i: int| 0 <= i < n - 1 implies (#[trigger] replies[i] is Ok
                && replies[i]->Ok_0.cid == plan[i].cid) by {
                assert(delivers(plan[i], replies[i]));
            }
            lemma_fetch_aborts(plan, replies, n - 1);
        }
    }
}

/// A lying host cannot substitute bytes: whatever it serves, a completed fetch holds exactly the
/// bytes that the publisher committed to, unless two different byte strings share a content id.
pub proof fn lemma_fetch_returns_committed<E>(
    plan: Seq<ChunkView>,
    replies: Seq<Result<BlobView, E>>,
    committed: Seq<Seq<u8>>,
    cid_of: spec_fn(Seq<u8>) -> Seq<char>,
)
    requires
        replies.len() == plan.len(),
        ids_computed(replies, cid_of),
        commits_to(plan, committed, cid_of),
        no_collision(served(replies), committed, cid_of),
        fetch_run(FetchView::start(plan), replies) is Ok,
    ensures
        fetch_run(FetchView::start(plan), replies) == Ok::<FetchView, FetchErrorView<E>>(
            FetchView { plan, next: plan.len(), bytes: committed.flatten() },
        ),
{
    lemma_fetch_uses_only_verified(plan, replies);
    assert forall|i: int| 0 <= i < plan.len() implies served(replies)[i] == committed[i] by {
        assert(delivers(plan[i], replies[i]));
    }
    assert(served(replies) =~= committed);
}

/// The chunks of a contiguous plan hold, one after the other, one stretch of the object.
pub proof fn lemma_pieces_join(plan: Seq<ChunkView>, object: Seq<u8>)
    requires
        plan.len() > 0,
        is_contiguous(plan),
        lies_within(plan, object),
    ensures
        base_of(plan) + total_len(plan) <= object.len(),
        base_of(plan) + total_len(plan) == plan.last().offset + plan.last().len,
        pieces(plan, object).flatten() == object.subrange(
            base_of(plan) as int,
            base_of(plan) + total_len(plan),
        ),
    decreases plan.len(),
{
    let all = pieces(plan, object);
    let before = plan.drop_last();
    all.lemma_flatten_and_flatten_alt_are_equivalent();
    assert(all.drop_last() =~= pieces(before, object));
    all.drop_last().lemma_flatten_and_flatten_alt_are_equivalent();
    assert(plan[plan.len() - 1].offset + plan[plan.len() - 1].len <= object.len());
    if plan.len() == 1 {
        assert(total_len(before) == 0);
        assert(all.flatten() =~= all.last());
    } else {
        assert forall|i: int, j: int| 0 <= i && j == i + 1 && j < before.len() implies (
        #[trigger] before[j]).offset == (#[trigger] before[i]).offset + before[i].len by {
            assert(plan[j].offset == plan[i].offset + plan[i].len);
        }
        assert forall|i: int| 0 <= i < before.len() implies (#[trigger] before[i]).offset
            + before[i].len <= object.len() by {
            assert(plan[i].offset + plan[i].len <= object.len());
        }
        lemma_pieces_join(before, object);
        assert(plan[plan.len() - 1].offset == plan[plan.len() - 2].offset + plan[plan.len()
            - 2].len);
        assert(all.flatten() =~= object.subrange(
            base_of(plan) as int,
            base_of(plan) + total_len(plan),
        ));
    }
}

/// A ranged read is exact: if a contiguous plan commits to the pieces of `object` that its chunks
/// stand for, a completed fetch cut down to `[offset, offset + len)` is that range of `object`, as
/// far as the plan reaches. If the plan covers the range, it is all of it.
pub proof fn lemma_range_is_exact<E>(
    plan: Seq<ChunkView>,
    replies: Seq<Result<BlobView, E>>,
    object: Seq<u8>,
    cid_of: spec_fn(Seq<u8>) -> Seq<char>,
    offset: u64,
    len: Option<u64>,
)
    requires
        is_contiguous(plan),
        lies_within(plan, object),
        replies.len() == plan.len(),
        ids_computed(replies, cid_of),
        commits_to(plan, pieces(plan, object), cid_of),
        no_collision(served(replies), pieces(plan, object), cid_of),
        fetch_run(FetchView::start(plan), replies) is Ok,
    ensures
        ({
            let base = base_of(plan);
            let reach = base + total_len(plan);
            let whole = fetch_run(FetchView::start(plan), replies)->Ok_0.bytes;
            let start = if offset >= base {
                offset as int
            } else {
                base as int
            };
            let end = match len {
                Some(l) if offset + l < reach => offset + l,
                _ => reach,
            };
            let range = window(whole, base, offset, len);
            &&& range == if start < end {
                object.subrange(start, end)
            } else {
                Seq::empty()
            }
            &&& len matches Some(l) ==> (base <= offset && offset + l <= reach ==> range
                == object.subrange(offset as int, offset + l))
        }),
{
    let base = base_of(plan);
    let reach = base + total_len(plan);
    lemma_fetch_returns_committed(plan, replies, pieces(plan, object), cid_of);
    if plan.len() > 0 {
        lemma_pieces_join(plan, object);
    } else {
        assert(pieces(plan, object).flatten() =~= Seq::<u8>::empty());
    }
    let whole = pieces(plan, object).flatten();
    let start = if offset >= base {
        offset as int
    } else {
        base as int
    };
    let end = match len {
        Some(l) if offset + l < reach => offset + l,
        _ => reach,
    };
    let range = window(whole, base, offset, len);
    if start < end {
        assert(range =~= object.subrange(start, end));
    } else {
        assert(range =~= Seq::<u8>::empty());
    }
    if let Some(l) = len {
        if base <= offset && offset + l <= reach {
            assert(range =~= object.subrange(offset as int, offset + l));
        }
    }
}

/// A read gives the bytes that were asked for and are at hand, and no others: the byte at object
/// offset `at` is among them if and only if it is both, and they come in order.
pub proof fn lemma_window_is_what_was_asked(
    whole: Seq<u8>,
    base: u64,
    offset: u64,
    len: Option<u64>,
    at: int,
)
    ensures
        ({
            let range = window(whole, base, offset, len);
            let first = if offset >= base {
                offset as int
            } else {
                base as int
            };
            let asked = offset <= at && (len matches Some(l) ==> at < offset + l);
            let held = base <= at < base + whole.len();
            &&& (0 <= at - first < range.len()) <==> (asked && held)
            &&& asked && held ==> range[at - first] == whole[at - base]
        }),
{
}

/// A read that starts at or past the last byte at hand gives nothing.
pub proof fn lemma_past_end_is_empty(whole: Seq<u8>, base: u64, offset: u64, len: Option<u64>)
    requires
        offset >= base + whole.len() || whole.len() == 0,
    ensures
        window(whole, base, offset, len) == Seq::<u8>::empty(),
{
}

/// Two reads that follow on from each other give together what one read over both would.
pub proof fn lemma_adjacent_reads_join(
    whole: Seq<u8>,
    base: u64,
    offset: u64,
    first: u64,
    second: Option<u64>,
)
    requires
        offset + first <= u64::MAX,
        second matches Some(l) ==> first + l <= u64::MAX,
    ensures
        window(whole, base, offset, Some(first)) + window(
            whole,
            base,
            (offset + first) as u64,
            second,
        ) == window(
            whole,
            base,
            offset,
            match second {
                Some(l) => Some((first + l) as u64),
                None => None,
            },
        ),
{
    let both: Option<u64> = match second {
        Some(l) => Some((first + l) as u64),
        None => None,
    };
    let next: u64 = (offset + first) as u64;
    assert(window(whole, base, offset, Some(first)) + window(whole, base, next, second) =~= window(
        whole,
        base,
        offset,
        both,
    ));
}

} // verus!
