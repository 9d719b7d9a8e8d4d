//! The mirroring client.
//!
//! A client that mirrors a remote drive, rather than browse it, starts a local replica from the
//! drive's snapshot and keeps it live: it polls for the changes since its cursor. The cursor is the
//! source of truth.

use vstd::prelude::*;

use crate::snapshot::{
    load_expects, load_next, load_snapshot, LoadError, LoadStep, SnapshotLoad, SnapshotReply,
};

verus! {

/// How many changes a poll asks for at most.
pub const POLL_LIMIT: u32 = 256;

/// A local replica `drive` of a remote drive, kept live by the change feed. `R` is the handle on
/// the remote drive.
pub struct Mirror<R, D> {
    remote: R,
    drive: D,
    cursor: u64,
}

pub struct MirrorView<R, D> {
    pub remote: R,
    pub drive: D,
    pub cursor: u64,
}

impl<R, D> View for Mirror<R, D> {
    type V = MirrorView<R, D>;

    closed spec fn view(&self) -> MirrorView<R, D> {
        MirrorView { remote: self.remote, drive: self.drive, cursor: self.cursor }
    }
}

/// Why a replica could not be set up or brought up to date. `E` is an error of the outside world.
#[derive(Debug)]
pub enum MirrorError<E> {
    /// The remote drive answered with an error.
    Remote(E),
    /// The snapshot object `cid` could not be fetched.
    FetchSnapshot { cid: String, cause: E },
    /// The snapshot could not be decoded.
    DecodeSnapshot { cause: E },
}

impl<E> MirrorError<E> {
    /// The text of the error, where `cause` is the text of the outside error that it carries.
    pub open spec fn text(self, cause: Seq<char>) -> Seq<char> {
        match self {
            MirrorError::Remote(_) => cause,
            MirrorError::FetchSnapshot { cid, .. } => "fetch snapshot "@ + cid@ + ": "@ + cause,
            MirrorError::DecodeSnapshot { .. } => "decode snapshot DriveState: "@ + cause,
        }
    }

    /// The text to report, where `cause` is the text of the outside error that this one carries.
    pub fn message(&self, cause: &str) -> (text: String)
        ensures
            text@ == self.text(cause@),
            self matches MirrorError::Remote(_) ==> text@ == cause@,
            self matches MirrorError::FetchSnapshot { cid, .. } ==> text@ == "fetch snapshot "@
                + cid@ + ": "@ + cause@,
            self matches MirrorError::DecodeSnapshot { .. } ==> text@
                == "decode snapshot DriveState: "@ + cause@,
    {
        match self {
            MirrorError::Remote(_) => cause.to_owned(),
            MirrorError::FetchSnapshot { cid, .. } => {
                let mut text: String = "fetch snapshot ".to_owned();
                text.append(cid.as_str());
                text.append(": ");
                text.append(cause);
                text
            },
            MirrorError::DecodeSnapshot { .. } => {
                let mut text: String = "decode snapshot DriveState: ".to_owned();
                text.append(cause);
                text
            },
        }
    }
}

/// A replica that is being set up over `remote`.
pub struct Bootstrap<R> {
    remote: R,
    load: SnapshotLoad,
}

pub struct BootstrapView<R> {
    pub remote: R,
    pub load: SnapshotLoad,
}

impl<R> View for Bootstrap<R> {
    type V = BootstrapView<R>;

    closed spec fn view(&self) -> BootstrapView<R> {
        BootstrapView { remote: self.remote, load: self.load }
    }
}

/// Where the setting up of a replica stands after a reply.
pub enum BootstrapStep<R, D> {
    Next(Bootstrap<R>),
    Ready(Mirror<R, D>),
}

/// The error that a failed load ends the setting up of a replica with.
pub open spec fn bootstrap_error<E>(e: LoadError<E>) -> MirrorError<E> {
    match e {
        LoadError::Open(e) => MirrorError::Remote(e),
        LoadError::Fetch { cid, cause } => MirrorError::FetchSnapshot { cid, cause },
        LoadError::Decode(cause) => MirrorError::DecodeSnapshot { cause },
    }
}

pub enum BootstrapStepView<R, D> {
    Next(BootstrapView<R>),
    Ready(MirrorView<R, D>),
}

impl<R, D> View for BootstrapStep<R, D> {
    type V = BootstrapStepView<R, D>;

    open spec fn view(&self) -> BootstrapStepView<R, D> {
        match *self {
            BootstrapStep::Next(boot) => BootstrapStepView::Next(boot@),
            BootstrapStep::Ready(mirror) => BootstrapStepView::Ready(mirror@),
        }
    }
}

/// Where the setting up of a replica stands after the `reply` that it was waiting for: a loaded
/// drive makes a replica whose cursor is the sequence number that the drive was loaded at.
pub open spec fn bootstrap_next<R, D, E>(
    boot: BootstrapView<R>,
    reply: SnapshotReply<D, E>,
) -> Result<BootstrapStepView<R, D>, MirrorError<E>> {
    match load_next(boot.load, reply) {
        Ok(LoadStep::Next(load)) => Ok(
            BootstrapStepView::Next(BootstrapView { remote: boot.remote, load }),
        ),
        Ok(LoadStep::Loaded { drive, server_seq }) => Ok(
            BootstrapStepView::Ready(
                MirrorView { remote: boot.remote, drive, cursor: server_seq },
            ),
        ),
        Err(e) => Err(bootstrap_error(e)),
    }
}

/// An outcome with the step taken by its view.
pub open spec fn step_view<R, D, E>(outcome: Result<BootstrapStep<R, D>, MirrorError<E>>) -> Result<
    BootstrapStepView<R, D>,
    MirrorError<E>,
> {
    match outcome {
        Ok(step) => Ok(step@),
        Err(e) => Err(e),
    }
}

/// The error that a failed load ends a sync with.
pub open spec fn sync_error<E>(e: LoadError<E>) -> MirrorError<E> {
    match e {
        LoadError::Open(e) => MirrorError::Remote(e),
        LoadError::Fetch { cause, .. } => MirrorError::Remote(cause),
        LoadError::Decode(cause) => MirrorError::DecodeSnapshot { cause },
    }
}

impl<R> Bootstrap<R> {
    /// Starts to set up a replica of the drive behind `remote`, which is to be opened first.
    pub fn new(remote: R) -> (boot: Bootstrap<R>)
        ensures
            boot@ == (BootstrapView { remote, load: SnapshotLoad::Opening }),
    {
        Bootstrap { remote, load: SnapshotLoad::Opening }
    }

    /// The handle on the remote drive.
    pub fn remote(&self) -> (remote: &R)
        ensures
            *remote == self@.remote,
    {
        &self.remote
    }

    /// What is to be done next.
    pub fn load(&self) -> (load: &SnapshotLoad)
        ensures
            *load == self@.load,
    {
        &self.load
    }
}

/// A page of the change feed: some changes, and the cursor to poll from after them.
#[derive(Debug)]
pub struct ChangePage<C> {
    pub changes: Vec<C>,
    pub cursor: u64,
}

/// What a sync is waiting for. `applied` counts the changes that were polled, and `cursor` is how
/// far into the change feed the polls have come. The replica takes that cursor over only together
/// with the drive.
#[derive(Debug)]
pub enum SyncState {
    /// The changes since `cursor` are to be polled.
    Polling { applied: usize, cursor: u64 },
    /// There were changes: a fresh snapshot is being loaded.
    Loading { applied: usize, cursor: u64, load: SnapshotLoad },
    /// The replica is up to date.
    Done { applied: usize },
}

/// What came of it.
#[derive(Debug)]
pub enum SyncReply<C, D, E> {
    Polled(Result<ChangePage<C>, E>),
    Snapshot(SnapshotReply<D, E>),
}

/// A sync of `mirror` before its first poll.
pub open spec fn sync_start<R, D>(mirror: MirrorView<R, D>) -> SyncState {
    SyncState::Polling { applied: 0, cursor: mirror.cursor }
}

/// `reply` answers what `state` is waiting for.
pub open spec fn sync_expects<C, D, E>(state: SyncState, reply: SyncReply<C, D, E>) -> bool {
    match state {
        SyncState::Polling { .. } => reply is Polled,
        SyncState::Loading { load, .. } => reply matches SyncReply::Snapshot(reply)
            && load_expects(load, reply),
        SyncState::Done { .. } => false,
    }
}

/// The number of changes polled is still a `usize` after `reply`.
pub open spec fn sync_counts<C, D, E>(state: SyncState, reply: SyncReply<C, D, E>) -> bool {
    state matches SyncState::Polling { applied, .. } ==> (reply matches SyncReply::Polled(Ok(page))
        ==> applied + page.changes@.len() <= usize::MAX)
}

/// Where a sync stands after the `reply` that it was waiting for: pages are polled until one comes
/// empty, and if any did not, a fresh snapshot is loaded.
pub open spec fn sync_next<C, D, E>(state: SyncState, reply: SyncReply<C, D, E>) -> Result<
    SyncState,
    MirrorError<E>,
> {
    match (state, reply) {
        (_, SyncReply::Polled(Err(e))) => Err(MirrorError::Remote(e)),
        (SyncState::Polling { applied, cursor }, SyncReply::Polled(Ok(page))) => Ok(
            if page.changes@.len() > 0 {
                SyncState::Polling {
                    applied: (applied + page.changes@.len()) as usize,
                    cursor: page.cursor,
                }
            } else if applied > 0 {
                SyncState::Loading { applied, cursor, load: SnapshotLoad::Opening }
            } else {
                SyncState::Done { applied }
            },
        ),
        (
            SyncState::Loading { applied, cursor, load },
            SyncReply::Snapshot(reply),
        ) => match load_next(load, reply) {
            Ok(LoadStep::Next(load)) => Ok(SyncState::Loading { applied, cursor, load }),
            Ok(LoadStep::Loaded { .. }) => Ok(SyncState::Done { applied }),
            Err(e) => Err(sync_error(e)),
        },
        _ => Ok(state),
    }
}

/// The later of two cursors.
pub open spec fn later(a: u64, b: u64) -> u64 {
    if a >= b {
        a
    } else {
        b
    }
}

/// What `reply` does to the replica: a fresh snapshot replaces the drive, and with it the cursor
/// moves to the later of where the polls came to and where the snapshot reaches. Nothing else
/// touches it.
pub open spec fn sync_effect<C, R, D, E>(
    mirror: MirrorView<R, D>,
    state: SyncState,
    reply: SyncReply<C, D, E>,
) -> MirrorView<R, D> {
    match (state, reply) {
        (
            SyncState::Loading { cursor, load, .. },
            SyncReply::Snapshot(reply),
        ) => match load_next(load, reply) {
            Ok(LoadStep::Loaded { drive, server_seq }) => MirrorView {
                drive,
                cursor: later(cursor, server_seq),
                ..mirror
            },
            _ => mirror,
        },
        _ => mirror,
    }
}

/// What a poll asks for: the changes since `since`, and at most `limit` of them.
#[derive(Debug)]
pub struct PollRequest {
    pub since: Option<u64>,
    pub limit: u32,
}

impl SyncState {
    /// What to poll for, if the sync is waiting for a poll: the changes since its cursor.
    pub fn poll_request(&self) -> (request: Option<PollRequest>)
        ensures
            request == match *self {
                SyncState::Polling { cursor, .. } => Some(
                    PollRequest { since: Some(cursor), limit: POLL_LIMIT },
                ),
                _ => None,
            },
            request matches Some(request) ==> request.limit == 256,
    {
        match self {
            SyncState::Polling { cursor, .. } => Some(
                PollRequest { since: Some(*cursor), limit: POLL_LIMIT },
            ),
            _ => None,
        }
    }
}

impl<R, D> Mirror<R, D> {
    /// Takes the reply that the setting up of a replica was waiting for. The replica starts out as
    /// the decoded snapshot, with the cursor that the host gave when the drive was opened.
    pub fn bootstrap<E>(boot: Bootstrap<R>, reply: SnapshotReply<D, E>) -> (outcome: Result<
        BootstrapStep<R, D>,
        MirrorError<E>,
    >)
        requires
            load_expects(boot@.load, reply),
        ensures
            step_view(outcome) == bootstrap_next(boot@, reply),
            reply matches SnapshotReply::Opened(Ok(opened)) ==> {
                &&& outcome matches Ok(BootstrapStep::Next(next))
                &&& next@.remote == boot@.remote
                &&& next@.load == (SnapshotLoad::Fetching {
                    cid: opened.drive_root_cid,
                    server_seq: opened.server_seq,
                })
            },
            reply matches SnapshotReply::Opened(Err(e)) ==> outcome matches Err(
                MirrorError::Remote(error),
            ) && error == e,
            boot@.load matches SnapshotLoad::Fetching { cid, server_seq } ==> {
                &&& reply matches SnapshotReply::Fetched(Ok(bytes)) ==> {
                    &&& outcome matches Ok(BootstrapStep::Next(next))
                    &&& next@.remote == boot@.remote
                    &&& next@.load == (SnapshotLoad::Decoding { bytes, server_seq })
                }
                &&& reply matches SnapshotReply::Fetched(Err(e)) ==> outcome matches Err(
                    MirrorError::FetchSnapshot { cid: named, cause },
                ) && named == cid && cause == e
            },
            boot@.load matches SnapshotLoad::Decoding { server_seq, .. } ==> {
                &&& reply matches SnapshotReply::Decoded(Ok(drive)) ==> {
                    &&& outcome matches Ok(BootstrapStep::Ready(mirror))
                    &&& mirror@.remote == boot@.remote
                    &&& mirror@.drive == drive
                    &&& mirror@.cursor == server_seq
                }
                &&& reply matches SnapshotReply::Decoded(Err(e)) ==> outcome matches Err(
                    MirrorError::DecodeSnapshot { cause },
                ) && cause == e
            },
    {
        let Bootstrap { remote, load } = boot;
        match load_snapshot(load, reply) {
            Ok(LoadStep::Next(load)) => Ok(BootstrapStep::Next(Bootstrap { remote, load })),
            Ok(LoadStep::Loaded { drive, server_seq }) => Ok(
                BootstrapStep::Ready(Mirror { remote, drive, cursor: server_seq }),
            ),
            Err(LoadError::Open(e)) => Err(MirrorError::Remote(e)),
            Err(LoadError::Fetch { cid, cause }) => Err(MirrorError::FetchSnapshot { cid, cause }),
            Err(LoadError::Decode(cause)) => Err(MirrorError::DecodeSnapshot { cause }),
        }
    }

    /// The local replica. Listings and paths are served from here, without the remote drive.
    pub fn drive(&self) -> (drive: &D)
        ensures
            *drive == self@.drive,
    {
        &self.drive
    }

    /// The current sync cursor.
    pub fn cursor(&self) -> (cursor: u64)
        ensures
            cursor == self@.cursor,
    {
        self.cursor
    }

    /// The handle on the remote drive, for what the replica does not hold.
    pub fn remote(&self) -> (remote: &R)
        ensures
            *remote == self@.remote,
    {
        &self.remote
    }

    /// Starts to bring the replica up to date: the changes since its cursor are polled first.
    pub fn start_sync(&self) -> (state: SyncState)
        ensures
            state == sync_start(self@),
            state == (SyncState::Polling { applied: 0, cursor: self@.cursor }),
    {
        SyncState::Polling { applied: 0, cursor: self.cursor }
    }

    /// Takes the reply that a sync was waiting for. Pages are polled until one comes empty; if there
    /// were changes, the replica is then replaced by a fresh snapshot, which is always correct. The
    /// cursor moves only together with the drive, so the changes that a failed or abandoned sync was
    /// told of are polled again by the next one.
    pub fn sync<C, E>(&mut self, state: SyncState, reply: SyncReply<C, D, E>) -> (next: Result<
        SyncState,
        MirrorError<E>,
    >)
        requires
            sync_expects(state, reply),
            sync_counts(state, reply),
        ensures
            next == sync_next(state, reply),
            final(self)@ == sync_effect(old(self)@, state, reply),
            next is Err ==> final(self)@ == old(self)@,
            reply matches SyncReply::Polled(Err(e)) ==> next == Err::<SyncState, MirrorError<E>>(
                MirrorError::Remote(e),
            ),
            state matches SyncState::Polling { applied, cursor } ==> {
                &&& final(self)@ == old(self)@
                &&& reply matches SyncReply::Polled(Ok(page)) ==> {
                    &&& page.changes@.len() > 0 ==> {
                        &&& next matches Ok(SyncState::Polling { applied: total, cursor: since })
                        &&& total == applied + page.changes@.len()
                        &&& since == page.cursor
                    }
                    &&& page.changes@.len() == 0 && applied > 0 ==> next == Ok::<
                        SyncState,
                        MirrorError<E>,
                    >((SyncState::Loading { applied, cursor, load: SnapshotLoad::Opening }))
                    &&& page.changes@.len() == 0 && applied == 0 ==> next == Ok::<
                        SyncState,
                        MirrorError<E>,
                    >((SyncState::Done { applied: 0 }))
                }
            },
            state matches SyncState::Loading { applied, cursor, load } ==> {
                &&& reply matches SyncReply::Snapshot(SnapshotReply::Opened(Ok(opened))) ==> {
                    &&& final(self)@ == old(self)@
                    &&& next == Ok::<SyncState, MirrorError<E>>(
                        (SyncState::Loading {
                            applied,
                            cursor,
                            load: SnapshotLoad::Fetching {
                                cid: opened.drive_root_cid,
                                server_seq: opened.server_seq,
                            },
                        }),
                    )
                }
                &&& reply matches SyncReply::Snapshot(SnapshotReply::Opened(Err(e))) ==> next
                    == Err::<SyncState, MirrorError<E>>(MirrorError::Remote(e))
                &&& reply matches SyncReply::Snapshot(SnapshotReply::Fetched(Ok(bytes))) ==> {
                    &&& final(self)@ == old(self)@
                    &&& load matches SnapshotLoad::Fetching { server_seq, .. }
                    &&& next == Ok::<SyncState, MirrorError<E>>(
                        (SyncState::Loading {
                            applied,
                            cursor,
                            load: SnapshotLoad::Decoding { bytes, server_seq },
                        }),
                    )
                }
                &&& reply matches SyncReply::Snapshot(SnapshotReply::Fetched(Err(e))) ==> next
                    == Err::<SyncState, MirrorError<E>>(MirrorError::Remote(e))
                &&& reply matches SyncReply::Snapshot(SnapshotReply::Decoded(Ok(drive))) ==> {
                    &&& next == Ok::<SyncState, MirrorError<E>>((SyncState::Done { applied }))
                    &&& final(self)@.remote == old(self)@.remote
                    &&& final(self)@.drive == drive
                    &&& load matches SnapshotLoad::Decoding { server_seq, .. }
                    &&& final(self)@.cursor >= cursor
                    &&& final(self)@.cursor >= server_seq
                    &&& final(self)@.cursor == cursor || final(self)@.cursor == server_seq
                }
                &&& reply matches SyncReply::Snapshot(SnapshotReply::Decoded(Err(e))) ==> next
                    == Err::<SyncState, MirrorError<E>>((MirrorError::DecodeSnapshot { cause: e }))
            },
    {
        match (state, reply) {
            (SyncState::Polling { applied, cursor }, SyncReply::Polled(reply)) => {
                let page: ChangePage<C> = match reply {
                    Ok(page) => page,
                    Err(e) => return Err(MirrorError::Remote(e)),
                };
                let count: usize = page.changes.len();
                if count > 0 {
                    Ok(SyncState::Polling { applied: applied + count, cursor: page.cursor })
                } else if applied > 0 {
                    Ok(SyncState::Loading { applied, cursor, load: SnapshotLoad::Opening })
                } else {
                    Ok(SyncState::Done { applied })
                }
            },
            (
                SyncState::Loading { applied, cursor, load },
                SyncReply::Snapshot(reply),
            ) => match load_snapshot(load, reply) {
                Ok(LoadStep::Next(load)) => Ok(SyncState::Loading { applied, cursor, load }),
                Ok(LoadStep::Loaded { drive, server_seq }) => {
                    self.drive = drive;
                    self.cursor = if cursor >= server_seq {
                        cursor
                    } else {
                        server_seq
                    };
                    Ok(SyncState::Done { applied })
                },
                Err(LoadError::Open(e)) => Err(MirrorError::Remote(e)),
                Err(LoadError::Fetch { cause, .. }) => Err(MirrorError::Remote(cause)),
                Err(LoadError::Decode(cause)) => Err(MirrorError::DecodeSnapshot { cause }),
            },
            (state, _) => Ok(state),
        }
    }
}

} // verus!
