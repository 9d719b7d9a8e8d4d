//! What a whole bootstrap or sync does to a replica: the laws of [`crate::mirror`] over every
//! sequence of replies.

use vstd::prelude::*;

use crate::mirror::{
    bootstrap_next, later, sync_counts, sync_effect, sync_expects, sync_next, sync_start,
    BootstrapStepView, BootstrapView, ChangePage, MirrorError, MirrorView, SyncReply, SyncState,
};
use crate::snapshot::{
    load_expects, load_next, LoadError, LoadStep, Opened, SnapshotLoad, SnapshotReply,
};

verus! {

/// Where the setting up of a replica stands after `replies`, taken one after the other until one of
/// them ends it.
pub open spec fn bootstrap_run<R, D, E>(
    boot: BootstrapView<R>,
    replies: Seq<SnapshotReply<D, E>>,
) -> Result<BootstrapStepView<R, D>, MirrorError<E>>
    decreases replies.len(),
{
    if replies.len() == 0 {
        Ok(BootstrapStepView::Next(boot))
    } else {
        match bootstrap_next(boot, replies.first()) {
            Ok(BootstrapStepView::Next(boot)) => bootstrap_run(boot, replies.drop_first()),
            outcome => outcome,
        }
    }
}

/// The replica and the sync after `replies`, taken one after the other until one of them ends it.
pub open spec fn sync_run<C, R, D, E>(
    mirror: MirrorView<R, D>,
    state: SyncState,
    replies: Seq<SyncReply<C, D, E>>,
) -> (MirrorView<R, D>, Result<SyncState, MirrorError<E>>)
    decreases replies.len(),
{
    if replies.len() == 0 || state is Done {
        (mirror, Ok(state))
    } else {
        let mirror = sync_effect(mirror, state, replies.first());
        match sync_next(state, replies.first()) {
            Ok(state) => sync_run(mirror, state, replies.drop_first()),
            Err(e) => (mirror, Err(e)),
        }
    }
}

/// `replies` is what a sync sees from `state` on: each answers what the sync is waiting for, and
/// none comes after the sync has ended.
pub open spec fn is_transcript<C, D, E>(state: SyncState, replies: Seq<SyncReply<C, D, E>>) -> bool
    decreases replies.len(),
{
    replies.len() == 0 || {
        &&& sync_expects(state, replies.first())
        &&& match sync_next(state, replies.first()) {
            Ok(next) => is_transcript(next, replies.drop_first()),
            Err(_) => replies.len() == 1,
        }
    }
}

/// The replica after the syncs that saw `transcripts`, one after the other, whether they ended well,
/// failed or were abandoned.
pub open spec fn syncs_run<C, R, D, E>(
    mirror: MirrorView<R, D>,
    transcripts: Seq<Seq<SyncReply<C, D, E>>>,
) -> MirrorView<R, D>
    decreases transcripts.len(),
{
    if transcripts.len() == 0 {
        mirror
    } else {
        let before = syncs_run(mirror, transcripts.drop_last());
        sync_run(before, sync_start(before), transcripts.last()).0
    }
}

/// Each of `transcripts` is what a sync sees that starts from where those before it left the
/// replica.
pub open spec fn are_transcripts<C, R, D, E>(
    mirror: MirrorView<R, D>,
    transcripts: Seq<Seq<SyncReply<C, D, E>>>,
) -> bool
    decreases transcripts.len(),
{
    transcripts.len() == 0 || {
        &&& are_transcripts(mirror, transcripts.drop_last())
        &&& is_transcript(
            sync_start(syncs_run(mirror, transcripts.drop_last())),
            transcripts.last(),
        )
    }
}

/// Every page among `replies` has changes if and only if some are `pending` since the cursor that it
/// was polled from.
pub open spec fn follows_feed<C, D, E>(
    pending: spec_fn(u64) -> bool,
    state: SyncState,
    replies: Seq<SyncReply<C, D, E>>,
) -> bool
    decreases replies.len(),
{
    replies.len() == 0 || {
        &&& match (state, replies.first()) {
            (SyncState::Polling { cursor, .. }, SyncReply::Polled(Ok(page))) => (
            page.changes@.len() > 0) == pending(cursor),
            _ => true,
        }
        &&& match sync_next(state, replies.first()) {
            Ok(next) => follows_feed(pending, next, replies.drop_first()),
            Err(_) => true,
        }
    }
}

/// The number of changes on the pages among `replies`.
pub open spec fn changes_in<C, D, E>(replies: Seq<SyncReply<C, D, E>>) -> nat
    decreases replies.len(),
{
    if replies.len() == 0 {
        0
    } else {
        changes_in(replies.drop_first()) + match replies.first() {
            SyncReply::Polled(Ok(page)) => page.changes@.len(),
            _ => 0,
        }
    }
}

/// Each page with changes among `replies` carries a cursor no earlier than the one polled from.
pub open spec fn feed_advances<C, D, E>(cursor: u64, replies: Seq<SyncReply<C, D, E>>) -> bool
    decreases replies.len(),
{
    replies.len() == 0 || match replies.first() {
        SyncReply::Polled(Ok(page)) if page.changes@.len() > 0 => page.cursor >= cursor
            && feed_advances(page.cursor, replies.drop_first()),
        _ => feed_advances(cursor, replies.drop_first()),
    }
}

/// The drive that the last of `replies` was decoded to, if it is a decoded snapshot.
pub open spec fn last_snapshot<C, D, E>(replies: Seq<SyncReply<C, D, E>>) -> Option<D> {
    if replies.len() == 0 {
        None
    } else {
        match replies.last() {
            SyncReply::Snapshot(SnapshotReply::Decoded(Ok(drive))) => Some(drive),
            _ => None,
        }
    }
}

/// `replies` to a load, each as the reply to a sync.
pub open spec fn as_snapshot<C, D, E>(replies: Seq<SnapshotReply<D, E>>) -> Seq<
    SyncReply<C, D, E>,
> {
    replies.map_values(|reply: SnapshotReply<D, E>| SyncReply::Snapshot(reply))
}

/// `pages`, each the reply to a poll.
pub open spec fn as_polled<C, D, E>(pages: Seq<ChangePage<C>>) -> Seq<SyncReply<C, D, E>> {
    pages.map_values(|page: ChangePage<C>| SyncReply::Polled(Ok(page)))
}

/// A bootstrap asks for the object that the opened drive names, hands the bytes that came on to be
/// decoded, and ends with a replica of what they were decoded to. The replica's cursor is the one
/// that came with the opened drive.
pub proof fn lemma_bootstrap_succeeds<R, D, E>(remote: R, opened: Opened, bytes: Vec<u8>, drive: D)
    ensures
        ({
            let start = BootstrapView { remote, load: SnapshotLoad::Opening };
            let cid = opened.drive_root_cid;
            let server_seq = opened.server_seq;
            let first = SnapshotReply::<D, E>::Opened(Ok(opened));
            let second = SnapshotReply::<D, E>::Fetched(Ok(bytes));
            let third = SnapshotReply::<D, E>::Decoded(Ok(drive));
            let fetching = SnapshotLoad::Fetching { cid, server_seq };
            let decoding = SnapshotLoad::Decoding { bytes, server_seq };
            let mirror = MirrorView { remote, drive, cursor: server_seq };
            &&& bootstrap_run(start, seq![first]) == Ok::<BootstrapStepView<R, D>, MirrorError<E>>(
                BootstrapStepView::Next(BootstrapView { remote, load: fetching }),
            )
            &&& bootstrap_run(start, seq![first, second]) == Ok::<
                BootstrapStepView<R, D>,
                MirrorError<E>,
            >(BootstrapStepView::Next(BootstrapView { remote, load: decoding }))
            &&& bootstrap_run(start, seq![first, second, third]) == Ok::<
                BootstrapStepView<R, D>,
                MirrorError<E>,
            >(BootstrapStepView::Ready(mirror))
        }),
{
    reveal_with_fuel(bootstrap_run, 4);
    let one: Seq<SnapshotReply<D, E>> = seq![SnapshotReply::Opened(Ok(opened))];
    let two: Seq<SnapshotReply<D, E>> = one.push(SnapshotReply::Fetched(Ok(bytes)));
    let three: Seq<SnapshotReply<D, E>> = two.push(SnapshotReply::Decoded(Ok(drive)));
    assert(one.drop_first() =~= Seq::empty());
    assert(two.drop_first().drop_first() =~= Seq::empty());
    assert(two.drop_first().first() == two[1]);
    assert(three.drop_first().first() == three[1]);
    assert(three.drop_first().drop_first().first() == three[2]);
}

/// A bootstrap that fails says why: an error of the remote drive is passed on, a snapshot that could
/// not be fetched is named, and one that could not be decoded is said to be so.
pub proof fn lemma_bootstrap_fails<R, D, E>(remote: R, opened: Opened, bytes: Vec<u8>, e: E)
    ensures
        ({
            let start = BootstrapView { remote, load: SnapshotLoad::Opening };
            let cid = opened.drive_root_cid;
            let first = SnapshotReply::<D, E>::Opened(Ok(opened));
            let second = SnapshotReply::<D, E>::Fetched(Ok(bytes));
            &&& bootstrap_run(start, seq![SnapshotReply::<D, E>::Opened(Err(e))]) == Err::<
                BootstrapStepView<R, D>,
                MirrorError<E>,
            >(MirrorError::Remote(e))
            &&& bootstrap_run(start, seq![first, SnapshotReply::<D, E>::Fetched(Err(e))]) == Err::<
                BootstrapStepView<R, D>,
                MirrorError<E>,
            >(MirrorError::FetchSnapshot { cid, cause: e })
            &&& bootstrap_run(start, seq![first, second, SnapshotReply::<D, E>::Decoded(Err(e))])
                == Err::<BootstrapStepView<R, D>, MirrorError<E>>(
                MirrorError::DecodeSnapshot { cause: e },
            )
        }),
{
    reveal_with_fuel(bootstrap_run, 4);
    let one: Seq<SnapshotReply<D, E>> = seq![SnapshotReply::Opened(Ok(opened))];
    let two: Seq<SnapshotReply<D, E>> = one.push(SnapshotReply::Fetched(Err(e)));
    let three: Seq<SnapshotReply<D, E>> = one.push(SnapshotReply::Fetched(Ok(bytes))).push(
        SnapshotReply::Decoded(Err(e)),
    );
    assert(two.drop_first().first() == two[1]);
    assert(three.drop_first().first() == three[1]);
    assert(three.drop_first().drop_first().first() == three[2]);
}

/// The later of two cursors is one of them, and no earlier than either.
pub proof fn lemma_later_is_the_maximum(a: u64, b: u64)
    ensures
        later(a, b) == a || later(a, b) == b,
        later(a, b) >= a,
        later(a, b) >= b,
{
}

/// A sync starts to poll from the replica's own cursor, with nothing counted yet.
pub proof fn lemma_sync_starts_at_the_cursor<R, D>(mirror: MirrorView<R, D>)
    ensures
        sync_start(mirror) matches SyncState::Polling { applied, cursor } && applied == 0 && cursor
            == mirror.cursor,
{
}

/// What a sync or a load waits for is answered by any reply of that kind, whatever it carries, and
/// by no other. A sync that has ended waits for nothing, and a page is too long only if the changes
/// can no longer be counted.
pub proof fn lemma_any_reply_of_the_kind_is_expected<C, D, E>(
    load: SnapshotLoad,
    state: SyncState,
    reply: SyncReply<C, D, E>,
    loaded: SnapshotReply<D, E>,
)
    ensures
        load_expects(load, loaded) <==> {
            ||| load is Opening && loaded is Opened
            ||| load is Fetching && loaded is Fetched
            ||| load is Decoding && loaded is Decoded
        },
        state is Polling ==> (sync_expects(state, reply) <==> reply is Polled),
        state matches SyncState::Loading { load: waiting, .. } ==> {
            &&& sync_expects(state, SyncReply::<C, D, E>::Snapshot(loaded)) <==> load_expects(
                waiting,
                loaded,
            )
            &&& reply is Polled ==> !sync_expects(state, reply)
        },
        state is Done ==> !sync_expects(state, reply),
        sync_counts(state, reply) || (state matches SyncState::Polling { applied, .. } && (
        reply matches SyncReply::Polled(Ok(page)) && applied + page.changes@.len() > usize::MAX)),
{
}

/// A load fetches the object that the opened drive names, decodes the bytes that came, and ends with
/// what they were decoded to, as of the sequence number that it was opened with. Every failure ends
/// it, and says what failed.
pub proof fn lemma_load_takes_each_step<D, E>(
    opened: Opened,
    cid: String,
    server_seq: u64,
    bytes: Vec<u8>,
    drive: D,
    e: E,
)
    ensures
        ({
            let opening = SnapshotLoad::Opening;
            let fetching = SnapshotLoad::Fetching { cid, server_seq };
            let decoding = SnapshotLoad::Decoding { bytes, server_seq };
            &&& load_next::<D, E>(opening, SnapshotReply::Opened(Ok(opened))) matches Ok(
                LoadStep::Next(SnapshotLoad::Fetching { cid: named, server_seq: seq }),
            ) && named == opened.drive_root_cid && seq == opened.server_seq
            &&& load_next::<D, E>(opening, SnapshotReply::Opened(Err(e))) matches Err(
                LoadError::Open(error),
            ) && error == e
            &&& load_next::<D, E>(fetching, SnapshotReply::Fetched(Ok(bytes))) matches Ok(
                LoadStep::Next(SnapshotLoad::Decoding { bytes: came, server_seq: seq }),
            ) && came == bytes && seq == server_seq
            &&& load_next::<D, E>(fetching, SnapshotReply::Fetched(Err(e))) matches Err(
                LoadError::Fetch { cid: named, cause },
            ) && named == cid && cause == e
            &&& load_next::<D, E>(decoding, SnapshotReply::Decoded(Ok(drive))) matches Ok(
                LoadStep::Loaded { drive: decoded, server_seq: seq },
            ) && decoded == drive && seq == server_seq
            &&& load_next::<D, E>(decoding, SnapshotReply::Decoded(Err(e))) matches Err(
                LoadError::Decode(error),
            ) && error == e
        }),
{
}

/// The text of a mirror error is that of the outside error, with what could not be fetched or
/// decoded in front of it.
pub proof fn lemma_mirror_error_text<E>(e: E, cid: String, cause: Seq<char>)
    ensures
        MirrorError::Remote(e).text(cause) == cause,
        (MirrorError::FetchSnapshot { cid, cause: e }).text(cause) == "fetch snapshot "@ + cid@
            + ": "@ + cause,
        (MirrorError::DecodeSnapshot { cause: e }).text(cause) == "decode snapshot DriveState: "@
            + cause,
{
}

/// A page with changes is counted in full, and the next poll asks from its cursor.
pub proof fn lemma_page_with_changes_keeps_polling<C, R, D, E>(
    mirror: MirrorView<R, D>,
    applied: usize,
    cursor: u64,
    page: ChangePage<C>,
)
    requires
        page.changes@.len() > 0,
        applied + page.changes@.len() <= usize::MAX,
    ensures
        ({
            let state = SyncState::Polling { applied, cursor };
            let reply = SyncReply::<C, D, E>::Polled(Ok(page));
            &&& sync_effect(mirror, state, reply) == mirror
            &&& sync_next(state, reply) matches Ok(
                SyncState::Polling { applied: total, cursor: since },
            ) && total == applied + page.changes@.len() && since == page.cursor
        }),
{
}

/// An empty page ends the polling: however many changes there were and wherever the polls have come
/// to, the drive is opened anew if there was any, and the sync is done if there was none.
pub proof fn lemma_empty_page_ends_polling<C, R, D, E>(
    mirror: MirrorView<R, D>,
    applied: usize,
    cursor: u64,
    page: ChangePage<C>,
)
    requires
        page.changes@.len() == 0,
    ensures
        ({
            let state = SyncState::Polling { applied, cursor };
            let reply = SyncReply::<C, D, E>::Polled(Ok(page));
            &&& sync_effect(mirror, state, reply) == mirror
            &&& applied > 0 ==> sync_next(state, reply) == Ok::<SyncState, MirrorError<E>>(
                SyncState::Loading { applied, cursor, load: SnapshotLoad::Opening },
            )
            &&& applied == 0 ==> sync_next(state, reply) == Ok::<SyncState, MirrorError<E>>(
                SyncState::Done { applied: 0 },
            )
        }),
{
}

/// A failed poll ends the sync with its own error, however much was polled before, and leaves the
/// replica as it was.
pub proof fn lemma_failed_poll_ends_the_sync<C, R, D, E>(
    mirror: MirrorView<R, D>,
    applied: usize,
    cursor: u64,
    e: E,
)
    ensures
        sync_run::<C, R, D, E>(
            mirror,
            (SyncState::Polling { applied, cursor }),
            seq![SyncReply::Polled(Err(e))],
        ) == (mirror, Err::<SyncState, MirrorError<E>>(MirrorError::Remote(e))),
{
}

/// While a sync loads a snapshot, it keeps its count and where the polls have come to, and takes the
/// steps of a load. When the snapshot is decoded, it is done: the drive is replaced, and the cursor
/// is one of the two it was told of, the later one.
pub proof fn lemma_sync_takes_the_steps_of_a_load<C, R, D, E>(
    mirror: MirrorView<R, D>,
    applied: usize,
    cursor: u64,
    opened: Opened,
    cid: String,
    server_seq: u64,
    bytes: Vec<u8>,
    drive: D,
)
    ensures
        ({
            let opening = SyncState::Loading { applied, cursor, load: SnapshotLoad::Opening };
            let reply = SyncReply::<C, D, E>::Snapshot(SnapshotReply::Opened(Ok(opened)));
            &&& sync_effect(mirror, opening, reply) == mirror
            &&& sync_next(opening, reply) == Ok::<SyncState, MirrorError<E>>(
                SyncState::Loading {
                    applied,
                    cursor,
                    load: SnapshotLoad::Fetching {
                        cid: opened.drive_root_cid,
                        server_seq: opened.server_seq,
                    },
                },
            )
        }),
        ({
            let load = SnapshotLoad::Fetching { cid, server_seq };
            let fetching = SyncState::Loading { applied, cursor, load };
            let reply = SyncReply::<C, D, E>::Snapshot(SnapshotReply::Fetched(Ok(bytes)));
            &&& sync_effect(mirror, fetching, reply) == mirror
            &&& sync_next(fetching, reply) == Ok::<SyncState, MirrorError<E>>(
                SyncState::Loading {
                    applied,
                    cursor,
                    load: SnapshotLoad::Decoding { bytes, server_seq },
                },
            )
        }),
        ({
            let load = SnapshotLoad::Decoding { bytes, server_seq };
            let decoding = SyncState::Loading { applied, cursor, load };
            let reply = SyncReply::<C, D, E>::Snapshot(SnapshotReply::Decoded(Ok(drive)));
            let after = sync_effect(mirror, decoding, reply);
            &&& sync_next(decoding, reply) == Ok::<SyncState, MirrorError<E>>(
                SyncState::Done { applied },
            )
            &&& after.remote == mirror.remote
            &&& after.drive == drive
            &&& after.cursor == cursor || after.cursor == server_seq
            &&& after.cursor >= cursor
            &&& after.cursor >= server_seq
        }),
{
}

/// A sync in which anything failed does not go on: if the last thing it saw is an error, it ends with
/// that very error, which is said to be one of decoding if it is.
pub proof fn lemma_error_ends_the_sync<C, R, D, E>(
    mirror: MirrorView<R, D>,
    state: SyncState,
    replies: Seq<SyncReply<C, D, E>>,
)
    requires
        replies.len() > 0,
        is_transcript(state, replies),
    ensures
        ({
            let outcome = sync_run(mirror, state, replies).1;
            match replies.last() {
                SyncReply::Polled(Err(e)) => outcome == Err::<SyncState, MirrorError<E>>(
                    MirrorError::Remote(e),
                ),
                SyncReply::Snapshot(SnapshotReply::Opened(Err(e))) => outcome == Err::<
                    SyncState,
                    MirrorError<E>,
                >(MirrorError::Remote(e)),
                SyncReply::Snapshot(SnapshotReply::Fetched(Err(e))) => outcome == Err::<
                    SyncState,
                    MirrorError<E>,
                >(MirrorError::Remote(e)),
                SyncReply::Snapshot(SnapshotReply::Decoded(Err(e))) => outcome == Err::<
                    SyncState,
                    MirrorError<E>,
                >(MirrorError::DecodeSnapshot { cause: e }),
                _ => outcome is Ok,
            }
        }),
    decreases replies.len(),
{
    reveal_with_fuel(is_transcript, 2);
    reveal_with_fuel(sync_run, 2);
    let rest = replies.drop_first();
    if rest.len() > 0 {
        assert(rest.last() == replies.last());
        if let Ok(next) = sync_next(state, replies.first()) {
            lemma_error_ends_the_sync(sync_effect(mirror, state, replies.first()), next, rest);
        }
    }
}

/// No error is lost: a sync that has not failed has seen none, of any kind.
pub proof fn lemma_sync_that_goes_well_saw_no_error<C, R, D, E>(
    mirror: MirrorView<R, D>,
    state: SyncState,
    replies: Seq<SyncReply<C, D, E>>,
)
    requires
        is_transcript(state, replies),
        sync_run(mirror, state, replies).1 is Ok,
    ensures
        forall|i: int|
            0 <= i < replies.len() ==> match #[trigger] replies[i] {
                SyncReply::Polled(reply) => reply is Ok,
                SyncReply::Snapshot(SnapshotReply::Opened(reply)) => reply is Ok,
                SyncReply::Snapshot(SnapshotReply::Fetched(reply)) => reply is Ok,
                SyncReply::Snapshot(SnapshotReply::Decoded(reply)) => reply is Ok,
            },
    decreases replies.len(),
{
    reveal_with_fuel(is_transcript, 2);
    reveal_with_fuel(sync_run, 2);
    if replies.len() > 0 {
        let rest = replies.drop_first();
        let next = sync_next(state, replies.first())->Ok_0;
        lemma_sync_that_goes_well_saw_no_error(
            sync_effect(mirror, state, replies.first()),
            next,
            rest,
        );
        assert forall|i: int| 0 <= i < replies.len() implies match #[trigger] replies[i] {
            SyncReply::Polled(reply) => reply is Ok,
            SyncReply::Snapshot(SnapshotReply::Opened(reply)) => reply is Ok,
            SyncReply::Snapshot(SnapshotReply::Fetched(reply)) => reply is Ok,
            SyncReply::Snapshot(SnapshotReply::Decoded(reply)) => reply is Ok,
        } by {
            if i > 0 {
                assert(replies[i] == rest[i - 1]);
            }
        }
    }
}

proof fn lemma_run_is_all_or_nothing<C, R, D, E>(
    mirror: MirrorView<R, D>,
    state: SyncState,
    replies: Seq<SyncReply<C, D, E>>,
)
    requires
        is_transcript(state, replies),
    ensures
        ({
            let run = sync_run(mirror, state, replies);
            match last_snapshot(replies) {
                None => run.0 == mirror,
                Some(drive) => {
                    &&& run.0.drive == drive
                    &&& run.0.remote == mirror.remote
                    &&& run.1 matches Ok(SyncState::Done { .. })
                },
            }
        }),
    decreases replies.len(),
{
    reveal_with_fuel(is_transcript, 2);
    reveal_with_fuel(sync_run, 2);
    if replies.len() > 0 {
        let rest = replies.drop_first();
        let first = replies.first();
        let after = sync_effect(mirror, state, first);
        if rest.len() > 0 {
            assert(rest.last() == replies.last());
            if let Ok(next) = sync_next(state, first) {
                lemma_run_is_all_or_nothing(after, next, rest);
            }
        }
    }
}

/// A sync takes a fresh snapshot over as a whole or leaves the replica as it was. Unless the last
/// thing it saw is a decoded snapshot, nothing has changed, and then neither has the cursor: it
/// differs only if the drive is that snapshot's. In particular a sync that fails leaves the whole
/// replica as it was.
pub proof fn lemma_sync_is_all_or_nothing<C, R, D, E>(
    mirror: MirrorView<R, D>,
    replies: Seq<SyncReply<C, D, E>>,
)
    requires
        is_transcript(sync_start(mirror), replies),
    ensures
        ({
            let (after, outcome) = sync_run(mirror, sync_start(mirror), replies);
            &&& outcome is Err ==> after == mirror
            &&& last_snapshot(replies) is None ==> after == mirror
            &&& last_snapshot(replies) is Some ==> last_snapshot(replies) == Some(after.drive)
            &&& after.cursor != mirror.cursor ==> last_snapshot(replies) == Some(after.drive)
            &&& after.remote == mirror.remote
        }),
{
    lemma_run_is_all_or_nothing(mirror, sync_start(mirror), replies);
}

/// The same over any number of syncs: syncs none of which took a snapshot over leave the whole
/// replica as it was; after others, the replica is what the last one that did made of it, the drive
/// and the cursor together.
pub proof fn lemma_syncs_are_all_or_nothing<C, R, D, E>(
    mirror: MirrorView<R, D>,
    transcripts: Seq<Seq<SyncReply<C, D, E>>>,
)
    requires
        are_transcripts(mirror, transcripts),
    ensures
        ({
            let after = syncs_run(mirror, transcripts);
            &&& (forall|i: int|
                0 <= i < transcripts.len() ==> last_snapshot(#[trigger] transcripts[i]) is None)
                ==> after == mirror
            &&& after != mirror ==> exists|k: int|
                0 <= k < transcripts.len() && is_last_change(mirror, transcripts, k)
            &&& after.cursor != mirror.cursor ==> exists|k: int|
                0 <= k < transcripts.len() && last_snapshot(#[trigger] transcripts[k]) == Some(
                    after.drive,
                )
        }),
    decreases transcripts.len(),
{
    if transcripts.len() > 0 {
        let n = transcripts.len() - 1;
        let earlier = transcripts.drop_last();
        let before = syncs_run(mirror, earlier);
        let after = syncs_run(mirror, transcripts);
        lemma_syncs_are_all_or_nothing(mirror, earlier);
        lemma_sync_is_all_or_nothing(before, transcripts[n]);
        if last_snapshot(transcripts[n]) is Some {
            assert(transcripts.take(n + 1) =~= transcripts);
            assert(is_last_change(mirror, transcripts, n));
        } else if after != mirror {
            let k = choose|k: int| 0 <= k < earlier.len() && is_last_change(mirror, earlier, k);
            assert(transcripts[k] == earlier[k]);
            assert(transcripts.take(k + 1) =~= earlier.take(k + 1));
            assert forall|i: int| k < i < transcripts.len() implies last_snapshot(
                #[trigger] transcripts[i],
            ) is None by {
                if i < n {
                    assert(transcripts[i] == earlier[i]);
                }
            }
            assert(is_last_change(mirror, transcripts, k));
        }
        if forall|i: int|
            0 <= i < transcripts.len() ==> last_snapshot(#[trigger] transcripts[i]) is None {
            assert forall|i: int| 0 <= i < earlier.len() implies last_snapshot(
                #[trigger] earlier[i],
            ) is None by {
                assert(earlier[i] == transcripts[i]);
            }
        }
    }
}

/// The replica after all `transcripts` is what the sync `k` made of it, which took a snapshot over;
/// none after it did.
pub open spec fn is_last_change<C, R, D, E>(
    mirror: MirrorView<R, D>,
    transcripts: Seq<Seq<SyncReply<C, D, E>>>,
    k: int,
) -> bool {
    let after = syncs_run(mirror, transcripts);
    &&& last_snapshot(transcripts[k]) == Some(after.drive)
    &&& after == syncs_run(mirror, transcripts.take(k + 1))
    &&& forall|i: int|
        k < i < transcripts.len() ==> last_snapshot(#[trigger] transcripts[i]) is None
}

/// A sync that did not take a snapshot over leaves no trace: the next one starts from the same
/// cursor and goes as it would have gone without it.
pub proof fn lemma_failed_sync_leaves_no_trace<C, R, D, E>(
    mirror: MirrorView<R, D>,
    failed: Seq<SyncReply<C, D, E>>,
    next: Seq<SyncReply<C, D, E>>,
)
    requires
        is_transcript(sync_start(mirror), failed),
        last_snapshot(failed) is None,
    ensures
        ({
            let after = sync_run(mirror, sync_start(mirror), failed).0;
            &&& sync_start(after) == sync_start(mirror)
            &&& sync_run(after, sync_start(after), next) == sync_run(
                mirror,
                sync_start(mirror),
                next,
            )
        }),
{
    lemma_sync_is_all_or_nothing(mirror, failed);
}

/// No change is lost: if changes are pending since the replica's cursor, then however many syncs
/// have failed or were abandoned, the next one that ends well has polled changes and has taken a
/// fresh snapshot over.
pub proof fn lemma_changes_are_not_lost<C, R, D, E>(
    mirror: MirrorView<R, D>,
    pending: spec_fn(u64) -> bool,
    failed: Seq<Seq<SyncReply<C, D, E>>>,
    next: Seq<SyncReply<C, D, E>>,
)
    requires
        pending(mirror.cursor),
        are_transcripts(mirror, failed),
        forall|i: int| 0 <= i < failed.len() ==> last_snapshot(#[trigger] failed[i]) is None,
        is_transcript(sync_start(syncs_run(mirror, failed)), next),
        follows_feed(pending, sync_start(syncs_run(mirror, failed)), next),
        changes_in(next) <= usize::MAX,
    ensures
        ({
            let before = syncs_run(mirror, failed);
            let (after, outcome) = sync_run(before, sync_start(before), next);
            outcome matches Ok(SyncState::Done { applied }) ==> {
                &&& applied > 0
                &&& last_snapshot(next) == Some(after.drive)
            }
        }),
{
    lemma_syncs_are_all_or_nothing(mirror, failed);
    lemma_sync_done(mirror, next);
    if next.len() > 0 {
        assert(sync_expects(sync_start(mirror), next.first()));
    }
}

/// What a failed sync was told of is made good: if it had polled any change, and the feed stays as it
/// is, then the next sync that ends well has polled changes too and has taken a fresh snapshot over.
pub proof fn lemma_failed_sync_is_made_good<C, R, D, E>(
    mirror: MirrorView<R, D>,
    pending: spec_fn(u64) -> bool,
    failed: Seq<SyncReply<C, D, E>>,
    next: Seq<SyncReply<C, D, E>>,
)
    requires
        is_transcript(sync_start(mirror), failed),
        follows_feed(pending, sync_start(mirror), failed),
        last_snapshot(failed) is None,
        changes_in(failed) > 0,
        is_transcript(sync_start(mirror), next),
        follows_feed(pending, sync_start(mirror), next),
        changes_in(next) <= usize::MAX,
    ensures
        ({
            let before = sync_run(mirror, sync_start(mirror), failed).0;
            let (after, outcome) = sync_run(before, sync_start(before), next);
            outcome matches Ok(SyncState::Done { applied }) ==> {
                &&& applied > 0
                &&& last_snapshot(next) == Some(after.drive)
            }
        }),
{
    reveal_with_fuel(is_transcript, 2);
    reveal_with_fuel(changes_in, 2);
    lemma_sync_is_all_or_nothing(mirror, failed);
    assert(pending(mirror.cursor));
    lemma_changes_are_not_lost(mirror, pending, Seq::empty(), next);
}

/// Polling counts every change and follows the pages' cursors: after any pages with changes, a sync
/// is still polling, from the last page's cursor.
pub proof fn lemma_pages_are_counted<C, R, D, E>(
    mirror: MirrorView<R, D>,
    applied: usize,
    cursor: u64,
    pages: Seq<ChangePage<C>>,
    rest: Seq<SyncReply<C, D, E>>,
)
    requires
        forall|i: int| 0 <= i < pages.len() ==> (#[trigger] pages[i]).changes@.len() > 0,
        applied + changes_in(as_polled::<C, D, E>(pages)) <= usize::MAX,
    ensures
        sync_run(mirror, SyncState::Polling { applied, cursor }, as_polled(pages) + rest)
            == sync_run(
            mirror,
            SyncState::Polling {
                applied: (applied + changes_in(as_polled::<C, D, E>(pages))) as usize,
                cursor: if pages.len() > 0 {
                    pages.last().cursor
                } else {
                    cursor
                },
            },
            rest,
        ),
        is_transcript(SyncState::Polling { applied, cursor }, as_polled(pages) + rest)
            == is_transcript(
            SyncState::Polling {
                applied: (applied + changes_in(as_polled::<C, D, E>(pages))) as usize,
                cursor: if pages.len() > 0 {
                    pages.last().cursor
                } else {
                    cursor
                },
            },
            rest,
        ),
    decreases pages.len(),
{
    let polled = as_polled::<C, D, E>(pages);
    let all = polled + rest;
    if pages.len() == 0 {
        assert(all =~= rest);
    } else {
        let page = pages.first();
        let more = pages.drop_first();
        assert(polled.drop_first() =~= as_polled::<C, D, E>(more));
        assert(all.drop_first() =~= as_polled::<C, D, E>(more) + rest);
        assert(all.first() == polled.first());
        assert(page.changes@.len() > 0);
        assert forall|i: int| 0 <= i < more.len() implies (#[trigger] more[i]).changes@.len()
            > 0 by {
            assert(pages[i + 1].changes@.len() > 0);
        }
        lemma_pages_are_counted(
            mirror,
            (applied + page.changes@.len()) as usize,
            page.cursor,
            more,
            rest,
        );
    }
}

/// A sync that finds no changes leaves the replica untouched and asks for no snapshot.
pub proof fn lemma_sync_without_changes<C, R, D, E>(mirror: MirrorView<R, D>, last: ChangePage<C>)
    requires
        last.changes@.len() == 0,
    ensures
        sync_run::<C, R, D, E>(
            mirror,
            sync_start(mirror),
            seq![SyncReply::Polled(Ok(last))],
        ) == (mirror, Ok::<SyncState, MirrorError<E>>(SyncState::Done { applied: 0 })),
{
    reveal_with_fuel(sync_run, 2);
}

/// Any page with changes triggers a fresh snapshot, and a sync that ends well has taken it over: the
/// drive is what the snapshot was decoded to, every polled change is counted, and the cursor is the
/// later of the last page's and the snapshot's. So it is the snapshot's own wherever the snapshot
/// reaches as far as the feed was polled.
pub proof fn lemma_sync_with_changes<C, R, D, E>(
    mirror: MirrorView<R, D>,
    pages: Seq<ChangePage<C>>,
    last: ChangePage<C>,
    opened: Opened,
    bytes: Vec<u8>,
    drive: D,
)
    requires
        pages.len() > 0,
        forall|i: int| 0 <= i < pages.len() ==> (#[trigger] pages[i]).changes@.len() > 0,
        changes_in(as_polled::<C, D, E>(pages)) <= usize::MAX,
        last.changes@.len() == 0,
    ensures
        ({
            let applied = changes_in(as_polled::<C, D, E>(pages)) as usize;
            let cursor = if pages.last().cursor >= opened.server_seq {
                pages.last().cursor
            } else {
                opened.server_seq
            };
            let replies = as_polled(pages) + seq![
                SyncReply::Polled(Ok(last)),
                SyncReply::Snapshot(SnapshotReply::Opened(Ok(opened))),
                SyncReply::Snapshot(SnapshotReply::Fetched(Ok(bytes))),
                SyncReply::Snapshot(SnapshotReply::Decoded(Ok(drive))),
            ];
            &&& applied > 0
            &&& is_transcript(sync_start(mirror), replies)
            &&& sync_run::<C, R, D, E>(mirror, sync_start(mirror), replies) == (
                MirrorView { drive, cursor, ..mirror },
                Ok::<SyncState, MirrorError<E>>(SyncState::Done { applied }),
            )
            &&& pages.last().cursor >= opened.server_seq ==> cursor == pages.last().cursor
            &&& cursor >= pages.last().cursor
            &&& opened.server_seq >= pages.last().cursor ==> cursor == opened.server_seq
        }),
{
    let rest: Seq<SyncReply<C, D, E>> = seq![
        SyncReply::Polled(Ok(last)),
        SyncReply::Snapshot(SnapshotReply::Opened(Ok(opened))),
        SyncReply::Snapshot(SnapshotReply::Fetched(Ok(bytes))),
        SyncReply::Snapshot(SnapshotReply::Decoded(Ok(drive))),
    ];
    lemma_pages_are_counted(mirror, 0, mirror.cursor, pages, rest);
    assert(changes_in(as_polled::<C, D, E>(pages)) > 0) by {
        assert(pages[0].changes@.len() > 0);
        assert(as_polled::<C, D, E>(pages).first() == SyncReply::<C, D, E>::Polled(Ok(pages[0])));
    }
    reveal_with_fuel(sync_run, 5);
    reveal_with_fuel(is_transcript, 5);
    assert(rest.drop_first().drop_first().drop_first().drop_first() =~= Seq::empty());
    assert(rest.drop_first().first() == rest[1]);
    assert(rest.drop_first().drop_first().first() == rest[2]);
    assert(rest.drop_first().drop_first().drop_first().first() == rest[3]);
}

/// Once there were changes, a sync sets the replica's drive up anew, as a bootstrap would: the same
/// replies load the same drive, and the cursor is the later of the polls' and the bootstrap's. Until they have, the replica
/// stays what it was. A failure is the same, but that a snapshot which could not be fetched is not
/// named.
pub proof fn lemma_sync_loads_as_bootstrap<C, R, D, E>(
    mirror: MirrorView<R, D>,
    applied: usize,
    cursor: u64,
    load: SnapshotLoad,
    replies: Seq<SnapshotReply<D, E>>,
)
    ensures
        sync_run::<C, R, D, E>(
            mirror,
            SyncState::Loading { applied, cursor, load },
            as_snapshot(replies),
        ) == match bootstrap_run(BootstrapView { remote: mirror.remote, load }, replies) {
            Ok(BootstrapStepView::Next(boot)) => (
                mirror,
                Ok::<SyncState, MirrorError<E>>(
                    SyncState::Loading { applied, cursor, load: boot.load },
                ),
            ),
            Ok(BootstrapStepView::Ready(anew)) => (
                MirrorView {
                    cursor: if cursor >= anew.cursor {
                        cursor
                    } else {
                        anew.cursor
                    },
                    ..anew
                },
                Ok::<SyncState, MirrorError<E>>(SyncState::Done { applied }),
            ),
            Err(MirrorError::FetchSnapshot { cause, .. }) => (
                mirror,
                Err::<SyncState, MirrorError<E>>(MirrorError::Remote(cause)),
            ),
            Err(e) => (mirror, Err::<SyncState, MirrorError<E>>(e)),
        },
    decreases replies.len(),
{
    reveal_with_fuel(sync_run, 2);
    let all = as_snapshot::<C, D, E>(replies);
    if replies.len() > 0 {
        let rest = replies.drop_first();
        assert(all.drop_first() =~= as_snapshot::<C, D, E>(rest));
        assert(all.first() == SyncReply::<C, D, E>::Snapshot(replies.first()));
        if let Ok(LoadStep::Next(next)) = load_next(load, replies.first()) {
            lemma_sync_loads_as_bootstrap::<C, R, D, E>(mirror, applied, cursor, next, rest);
        }
    }
}

/// A sync counts every change it polled, and ends well only with a replica that is up to date with
/// them: if there was any, the drive is what the last reply, a snapshot, was decoded to; if there was
/// none, the replica is what it was.
pub proof fn lemma_sync_done<C, R, D, E>(
    mirror: MirrorView<R, D>,
    replies: Seq<SyncReply<C, D, E>>,
)
    requires
        is_transcript(sync_start(mirror), replies),
        changes_in(replies) <= usize::MAX,
    ensures
        sync_run(mirror, sync_start(mirror), replies).1 matches Ok(
            SyncState::Done { applied },
        ) ==> {
            let after = sync_run(mirror, sync_start(mirror), replies).0;
            &&& applied == changes_in(replies)
            &&& applied > 0 ==> last_snapshot(replies) == Some(after.drive)
            &&& applied == 0 ==> after == mirror
        },
{
    lemma_polling_done(mirror, 0, mirror.cursor, replies);
}

proof fn lemma_polling_done<C, R, D, E>(
    mirror: MirrorView<R, D>,
    applied: usize,
    cursor: u64,
    replies: Seq<SyncReply<C, D, E>>,
)
    requires
        is_transcript(SyncState::Polling { applied, cursor }, replies),
        applied + changes_in(replies) <= usize::MAX,
    ensures
        ({
            let run = sync_run(mirror, SyncState::Polling { applied, cursor }, replies);
            run.1 matches Ok(SyncState::Done { applied: total }) ==> {
                &&& total == applied + changes_in(replies)
                &&& total > 0 ==> last_snapshot(replies) == Some(run.0.drive)
                &&& total == 0 ==> run.0 == mirror
            }
        }),
    decreases replies.len(),
{
    reveal_with_fuel(changes_in, 2);
    reveal_with_fuel(is_transcript, 2);
    reveal_with_fuel(sync_run, 2);
    if replies.len() > 0 {
        let rest = replies.drop_first();
        let first = replies.first();
        let state = SyncState::Polling { applied, cursor };
        let after = sync_effect(mirror, state, first);
        if rest.len() > 0 {
            assert(rest.last() == replies.last());
        }
        match sync_next(state, first) {
            Ok(SyncState::Polling { applied, cursor }) => {
                lemma_polling_done(after, applied, cursor, rest);
            },
            Ok(SyncState::Loading { applied, cursor, load }) => {
                lemma_loading_done(after, applied, cursor, load, rest);
            },
            Ok(SyncState::Done { .. }) => {
                assert(rest.len() == 0);
            },
            Err(_) => {},
        }
    }
}

proof fn lemma_loading_done<C, R, D, E>(
    mirror: MirrorView<R, D>,
    applied: usize,
    cursor: u64,
    load: SnapshotLoad,
    replies: Seq<SyncReply<C, D, E>>,
)
    requires
        is_transcript(SyncState::Loading { applied, cursor, load }, replies),
    ensures
        changes_in(replies) == 0,
        ({
            let run = sync_run(mirror, SyncState::Loading { applied, cursor, load }, replies);
            run.1 matches Ok(SyncState::Done { applied: total }) ==> {
                &&& total == applied
                &&& last_snapshot(replies) == Some(run.0.drive)
            }
        }),
    decreases replies.len(),
{
    reveal_with_fuel(changes_in, 2);
    reveal_with_fuel(is_transcript, 2);
    reveal_with_fuel(sync_run, 2);
    if replies.len() > 0 {
        let rest = replies.drop_first();
        let first = replies.first();
        let state = SyncState::Loading { applied, cursor, load };
        let after = sync_effect(mirror, state, first);
        if rest.len() > 0 {
            assert(rest.last() == replies.last());
        }
        match sync_next(state, first) {
            Ok(SyncState::Loading { applied, cursor, load }) => {
                lemma_loading_done(after, applied, cursor, load, rest);
            },
            Ok(SyncState::Done { .. }) => {
                assert(rest.len() == 0);
            },
            _ => {},
        }
    }
}

proof fn lemma_run_never_goes_back<C, R, D, E>(
    mirror: MirrorView<R, D>,
    state: SyncState,
    cursor: u64,
    replies: Seq<SyncReply<C, D, E>>,
)
    requires
        is_transcript(state, replies),
        match state {
            SyncState::Polling { cursor: c, .. } => c == cursor,
            SyncState::Loading { cursor: c, .. } => c == cursor,
            SyncState::Done { .. } => true,
        },
        cursor >= mirror.cursor,
        feed_advances(cursor, replies),
    ensures
        sync_run(mirror, state, replies).0.cursor >= mirror.cursor,
    decreases replies.len(),
{
    reveal_with_fuel(sync_run, 2);
    if replies.len() > 0 {
        let rest = replies.drop_first();
        match sync_next(state, replies.first()) {
            Ok(SyncState::Polling { cursor: c, .. }) => {
                lemma_run_never_goes_back(mirror, sync_next(state, replies.first())->Ok_0, c, rest);
            },
            Ok(SyncState::Loading { cursor: c, .. }) => {
                lemma_run_never_goes_back(mirror, sync_next(state, replies.first())->Ok_0, c, rest);
            },
            _ => {},
        }
    }
}

/// The cursor never goes back over a feed whose pages do not.
pub proof fn lemma_cursor_never_goes_back<C, R, D, E>(
    mirror: MirrorView<R, D>,
    replies: Seq<SyncReply<C, D, E>>,
)
    requires
        is_transcript(sync_start(mirror), replies),
        feed_advances(mirror.cursor, replies),
    ensures
        sync_run(mirror, sync_start(mirror), replies).0.cursor >= mirror.cursor,
{
    lemma_run_never_goes_back(mirror, sync_start(mirror), mirror.cursor, replies);
}

} // verus!
