//! Loading a remote drive's snapshot: open the drive, fetch the snapshot object that it names, and
//! decode it.

use vstd::prelude::*;

verus! {

/// What a host says of a drive that was opened.
#[derive(Debug)]
pub struct Opened {
    /// The content id of the drive's snapshot.
    pub drive_root_cid: String,
    /// How far into the change feed that snapshot reaches.
    pub server_seq: u64,
}

/// What a load of a snapshot is waiting for.
#[derive(Debug)]
pub enum SnapshotLoad {
    /// The drive is to be opened.
    Opening,
    /// The snapshot object `cid` is to be fetched.
    Fetching { cid: String, server_seq: u64 },
    /// The snapshot's `bytes` are to be decoded.
    Decoding { bytes: Vec<u8>, server_seq: u64 },
}

/// What came of it. `D` is a decoded drive, `E` an error of whoever did the work.
#[derive(Debug)]
pub enum SnapshotReply<D, E> {
    Opened(Result<Opened, E>),
    Fetched(Result<Vec<u8>, E>),
    Decoded(Result<D, E>),
}

/// Where a load stands after a reply.
#[derive(Debug)]
pub enum LoadStep<D> {
    /// There is more to do.
    Next(SnapshotLoad),
    /// The drive as of `server_seq`.
    Loaded { drive: D, server_seq: u64 },
}

/// Which part of a load failed.
#[derive(Debug)]
pub enum LoadError<E> {
    Open(E),
    Fetch { cid: String, cause: E },
    Decode(E),
}

/// `reply` answers what `load` is waiting for.
pub open spec fn load_expects<D, E>(load: SnapshotLoad, reply: SnapshotReply<D, E>) -> bool {
    match load {
        SnapshotLoad::Opening => reply is Opened,
        SnapshotLoad::Fetching { .. } => reply is Fetched,
        SnapshotLoad::Decoding { .. } => reply is Decoded,
    }
}

/// Where `load` stands after the `reply` that it was waiting for.
pub open spec fn load_next<D, E>(load: SnapshotLoad, reply: SnapshotReply<D, E>) -> Result<
    LoadStep<D>,
    LoadError<E>,
> {
    match (load, reply) {
        (_, SnapshotReply::Opened(Err(e))) => Err(LoadError::Open(e)),
        (_, SnapshotReply::Opened(Ok(opened))) => Ok(
            LoadStep::Next(
                SnapshotLoad::Fetching {
                    cid: opened.drive_root_cid,
                    server_seq: opened.server_seq,
                },
            ),
        ),
        (SnapshotLoad::Fetching { cid, .. }, SnapshotReply::Fetched(Err(cause))) => Err(
            LoadError::Fetch { cid, cause },
        ),
        (SnapshotLoad::Fetching { server_seq, .. }, SnapshotReply::Fetched(Ok(bytes))) => Ok(
            LoadStep::Next(SnapshotLoad::Decoding { bytes, server_seq }),
        ),
        (_, SnapshotReply::Decoded(Err(e))) => Err(LoadError::Decode(e)),
        (SnapshotLoad::Decoding { server_seq, .. }, SnapshotReply::Decoded(Ok(drive))) => Ok(
            LoadStep::Loaded { drive, server_seq },
        ),
        _ => Ok(LoadStep::Next(load)),
    }
}

/// Takes the reply that `load` was waiting for: the snapshot that the opened drive names is fetched
/// next, the bytes that came are decoded next, and a decoded drive ends the load.
pub fn load_snapshot<D, E>(load: SnapshotLoad, reply: SnapshotReply<D, E>) -> (step: Result<
    LoadStep<D>,
    LoadError<E>,
>)
    requires
        load_expects(load, reply),
    ensures
        step == load_next(load, reply),
        reply matches SnapshotReply::Opened(Err(e)) ==> step == Err::<LoadStep<D>, LoadError<E>>(
            LoadError::Open(e),
        ),
        reply matches SnapshotReply::Opened(Ok(opened)) ==> step == Ok::<LoadStep<D>, LoadError<E>>(
            LoadStep::Next(
                (SnapshotLoad::Fetching {
                    cid: opened.drive_root_cid,
                    server_seq: opened.server_seq,
                }),
            ),
        ),
        load matches SnapshotLoad::Fetching { cid, server_seq } ==> {
            &&& reply matches SnapshotReply::Fetched(Err(cause)) ==> step == Err::<
                LoadStep<D>,
                LoadError<E>,
            >((LoadError::Fetch { cid, cause }))
            &&& reply matches SnapshotReply::Fetched(Ok(bytes)) ==> step == Ok::<
                LoadStep<D>,
                LoadError<E>,
            >(LoadStep::Next((SnapshotLoad::Decoding { bytes, server_seq })))
        },
        load matches SnapshotLoad::Decoding { server_seq, .. } ==> {
            &&& reply matches SnapshotReply::Decoded(Err(e)) ==> step == Err::<
                LoadStep<D>,
                LoadError<E>,
            >(LoadError::Decode(e))
            &&& reply matches SnapshotReply::Decoded(Ok(drive)) ==> step == Ok::<
                LoadStep<D>,
                LoadError<E>,
            >((LoadStep::Loaded { drive, server_seq }))
        },
{
    match (load, reply) {
        (SnapshotLoad::Opening, SnapshotReply::Opened(reply)) => match reply {
            Ok(opened) => Ok(
                LoadStep::Next(
                    SnapshotLoad::Fetching {
                        cid: opened.drive_root_cid,
                        server_seq: opened.server_seq,
                    },
                ),
            ),
            Err(e) => Err(LoadError::Open(e)),
        },
        (SnapshotLoad::Fetching { cid, server_seq }, SnapshotReply::Fetched(reply)) => match reply {
            Ok(bytes) => Ok(LoadStep::Next(SnapshotLoad::Decoding { bytes, server_seq })),
            Err(cause) => Err(LoadError::Fetch { cid, cause }),
        },
        (SnapshotLoad::Decoding { server_seq, .. }, SnapshotReply::Decoded(reply)) => match reply {
            Ok(drive) => Ok(LoadStep::Loaded { drive, server_seq }),
            Err(e) => Err(LoadError::Decode(e)),
        },
        (load, _) => Ok(LoadStep::Next(load)),
    }
}

} // verus!
