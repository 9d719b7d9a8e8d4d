use ce_drive_client::mirror::{
    Bootstrap, BootstrapStep, ChangePage, Mirror, MirrorError, PollRequest, SyncReply, SyncState,
    POLL_LIMIT,
};
use ce_drive_client::snapshot::{
    load_snapshot, LoadError, LoadStep, Opened, SnapshotLoad, SnapshotReply,
};

type Replica = Mirror<&'static str, Vec<u32>>;
type Reply = SyncReply<&'static str, Vec<u32>, String>;

fn opened(cid: &str, server_seq: u64) -> Result<Opened, String> {
    Ok(Opened { drive_root_cid: cid.to_string(), server_seq })
}

fn polled(changes: Vec<&'static str>, cursor: u64) -> Reply {
    SyncReply::Polled(Ok(ChangePage { changes, cursor }))
}

fn step(boot: Bootstrap<&'static str>, reply: SnapshotReply<Vec<u32>, String>) -> Bootstrap<&'static str> {
    match Mirror::bootstrap(boot, reply) {
        Ok(BootstrapStep::Next(boot)) => boot,
        _ => panic!("the bootstrap ended early"),
    }
}

/// A replica with drive `[1]` and cursor 5.
fn replica() -> Replica {
    let boot = step(Bootstrap::new("team"), SnapshotReply::Opened(opened("root", 5)));
    let boot = step(boot, SnapshotReply::Fetched(Ok(vec![7])));
    match Mirror::bootstrap(boot, SnapshotReply::<Vec<u32>, String>::Decoded(Ok(vec![1]))) {
        Ok(BootstrapStep::Ready(mirror)) => mirror,
        _ => panic!("the bootstrap did not end"),
    }
}

fn advance(mirror: &mut Replica, state: SyncState, reply: Reply) -> SyncState {
    match mirror.sync(state, reply) {
        Ok(state) => state,
        Err(_) => panic!("the sync failed"),
    }
}

#[test]
fn bootstrap_starts_from_the_snapshot() {
    let boot = Bootstrap::new("team");
    assert_eq!(*boot.remote(), "team");
    assert!(matches!(boot.load(), SnapshotLoad::Opening));
    let boot = step(boot, SnapshotReply::Opened(opened("root", 5)));
    assert!(matches!(boot.load(), SnapshotLoad::Fetching { cid, server_seq: 5 } if cid == "root"));
    let boot = step(boot, SnapshotReply::Fetched(Ok(vec![7, 8])));
    assert!(matches!(boot.load(), SnapshotLoad::Decoding { bytes, server_seq: 5 } if *bytes == vec![7, 8]));
    let mirror = replica();
    assert_eq!(*mirror.remote(), "team");
    assert_eq!(*mirror.drive(), vec![1]);
    assert_eq!(mirror.cursor(), 5);
}

#[test]
fn bootstrap_passes_a_failed_open_on() {
    let reply: SnapshotReply<Vec<u32>, String> = SnapshotReply::Opened(Err("denied".to_string()));
    match Mirror::bootstrap(Bootstrap::new("team"), reply) {
        Err(MirrorError::Remote(e)) => assert_eq!(MirrorError::Remote(e.clone()).message(&e), "denied"),
        _ => panic!("a failed open was taken for a success"),
    }
}

#[test]
fn bootstrap_names_a_snapshot_it_cannot_fetch() {
    let boot = step(Bootstrap::new("team"), SnapshotReply::Opened(opened("root", 5)));
    let reply: SnapshotReply<Vec<u32>, String> = SnapshotReply::Fetched(Err("gone".to_string()));
    match Mirror::bootstrap(boot, reply) {
        Err(error) => {
            assert!(matches!(&error, MirrorError::FetchSnapshot { cid, cause } if cid == "root" && cause == "gone"));
            assert_eq!(error.message("gone"), "fetch snapshot root: gone");
        }
        Ok(_) => panic!("a failed fetch was taken for a success"),
    }
}

#[test]
fn bootstrap_says_that_a_snapshot_does_not_decode() {
    let boot = step(Bootstrap::new("team"), SnapshotReply::Opened(opened("root", 5)));
    let boot = step(boot, SnapshotReply::Fetched(Ok(vec![7])));
    let reply: SnapshotReply<Vec<u32>, String> = SnapshotReply::Decoded(Err("eof".to_string()));
    match Mirror::bootstrap(boot, reply) {
        Err(error) => {
            assert!(matches!(&error, MirrorError::DecodeSnapshot { cause } if cause == "eof"));
            assert_eq!(error.message("eof"), "decode snapshot DriveState: eof");
        }
        Ok(_) => panic!("a failed decode was taken for a success"),
    }
}

#[test]
fn load_tells_its_failures_apart() {
    let e = || "x".to_string();
    let outcome = load_snapshot::<u8, String>(SnapshotLoad::Opening, SnapshotReply::Opened(Err(e())));
    assert!(matches!(outcome, Err(LoadError::Open(_))));
    let fetching = SnapshotLoad::Fetching { cid: "root".to_string(), server_seq: 1 };
    let outcome = load_snapshot::<u8, String>(fetching, SnapshotReply::Fetched(Err(e())));
    assert!(matches!(outcome, Err(LoadError::Fetch { cid, .. }) if cid == "root"));
    let decoding = SnapshotLoad::Decoding { bytes: vec![1], server_seq: 1 };
    let outcome = load_snapshot::<u8, String>(decoding, SnapshotReply::Decoded(Err(e())));
    assert!(matches!(outcome, Err(LoadError::Decode(_))));
    let decoding = SnapshotLoad::Decoding { bytes: vec![1], server_seq: 6 };
    let outcome = load_snapshot::<u8, String>(decoding, SnapshotReply::Decoded(Ok(3)));
    assert!(matches!(outcome, Ok(LoadStep::Loaded { drive: 3, server_seq: 6 })));
}

#[test]
fn poll_asks_from_the_cursor() {
    let mut mirror = replica();
    let state = mirror.start_sync();
    assert!(matches!(state.poll_request(), Some(PollRequest { since: Some(5), limit: 256 })));
    let state = advance(&mut mirror, state, polled(vec!["/a"], 8));
    assert!(matches!(
        state.poll_request(),
        Some(PollRequest { since: Some(8), limit: POLL_LIMIT })
    ));
    let state = advance(&mut mirror, state, polled(vec![], 8));
    assert!(state.poll_request().is_none());
}

#[test]
fn sync_without_changes_touches_nothing() {
    let mut mirror = replica();
    let state = mirror.start_sync();
    let state = advance(&mut mirror, state, polled(vec![], 99));
    assert!(matches!(state, SyncState::Done { applied: 0 }));
    assert_eq!(mirror.cursor(), 5);
    assert_eq!(*mirror.drive(), vec![1]);
}

/// Loads the snapshot `root` as of `server_seq`, decoded to `drive`.
fn reload(mirror: &mut Replica, state: SyncState, server_seq: u64, drive: Vec<u32>) -> SyncState {
    let state = advance(mirror, state, SyncReply::Snapshot(SnapshotReply::Opened(opened("root", server_seq))));
    let state = advance(mirror, state, SyncReply::Snapshot(SnapshotReply::Fetched(Ok(vec![4]))));
    advance(mirror, state, SyncReply::Snapshot(SnapshotReply::Decoded(Ok(drive))))
}

#[test]
fn sync_with_changes_takes_a_fresh_snapshot() {
    let mut mirror = replica();
    let state = mirror.start_sync();
    let state = advance(&mut mirror, state, polled(vec!["/a", "/b"], 7));
    assert!(matches!(state, SyncState::Polling { applied: 2, cursor: 7 }));
    let state = advance(&mut mirror, state, polled(vec!["/c"], 8));
    assert!(matches!(state, SyncState::Polling { applied: 3, cursor: 8 }));
    let state = advance(&mut mirror, state, polled(vec![], 8));
    assert!(matches!(state, SyncState::Loading { applied: 3, cursor: 8, load: SnapshotLoad::Opening }));
    assert_eq!(*mirror.drive(), vec![1]);
    assert_eq!(mirror.cursor(), 5);
    let state = advance(&mut mirror, state, SyncReply::Snapshot(SnapshotReply::Opened(opened("new", 10))));
    assert!(matches!(&state, SyncState::Loading { load: SnapshotLoad::Fetching { cid, .. }, .. } if cid == "new"));
    let state = advance(&mut mirror, state, SyncReply::Snapshot(SnapshotReply::Fetched(Ok(vec![4]))));
    let state = advance(&mut mirror, state, SyncReply::Snapshot(SnapshotReply::Decoded(Ok(vec![2, 3]))));
    assert!(matches!(state, SyncState::Done { applied: 3 }));
    assert_eq!(*mirror.drive(), vec![2, 3]);
    assert_eq!(mirror.cursor(), 10);
}

#[test]
fn sync_keeps_a_cursor_that_is_ahead_of_the_snapshot() {
    let mut mirror = replica();
    let state = mirror.start_sync();
    let state = advance(&mut mirror, state, polled(vec!["/a"], 8));
    let state = advance(&mut mirror, state, polled(vec![], 8));
    let state = reload(&mut mirror, state, 6, vec![2]);
    assert!(matches!(state, SyncState::Done { applied: 1 }));
    assert_eq!(mirror.cursor(), 8);
    assert_eq!(*mirror.drive(), vec![2]);
}

/// A failure after a page with changes: the replica stays as it was, and the next sync polls the
/// same changes again and takes the fresh snapshot over.
fn fails_and_recovers(before: Vec<Reply>, failure: Reply) -> MirrorError<String> {
    let mut mirror = replica();
    let mut state = mirror.start_sync();
    for reply in before {
        state = advance(&mut mirror, state, reply);
    }
    let error = match mirror.sync(state, failure) {
        Err(error) => error,
        Ok(_) => panic!("a failure was taken for a success"),
    };
    assert_eq!(mirror.cursor(), 5);
    assert_eq!(*mirror.drive(), vec![1]);

    let state = mirror.start_sync();
    assert!(matches!(state.poll_request(), Some(PollRequest { since: Some(5), .. })));
    let state = advance(&mut mirror, state, polled(vec!["/a"], 8));
    let state = advance(&mut mirror, state, polled(vec![], 8));
    let state = reload(&mut mirror, state, 8, vec![9]);
    assert!(matches!(state, SyncState::Done { applied: 1 }));
    assert_eq!(mirror.cursor(), 8);
    assert_eq!(*mirror.drive(), vec![9]);
    error
}

#[test]
fn failed_poll_leaves_the_replica_as_it_was() {
    let error = fails_and_recovers(
        vec![polled(vec!["/a"], 8)],
        SyncReply::Polled(Err("timeout".to_string())),
    );
    assert!(matches!(error, MirrorError::Remote(e) if e == "timeout"));
}

#[test]
fn failed_open_leaves_the_replica_as_it_was() {
    let error = fails_and_recovers(
        vec![polled(vec!["/a"], 8), polled(vec![], 8)],
        SyncReply::Snapshot(SnapshotReply::Opened(Err("denied".to_string()))),
    );
    assert!(matches!(error, MirrorError::Remote(e) if e == "denied"));
}

#[test]
fn failed_fetch_leaves_the_replica_as_it_was() {
    let error = fails_and_recovers(
        vec![
            polled(vec!["/a"], 8),
            polled(vec![], 8),
            SyncReply::Snapshot(SnapshotReply::Opened(opened("new", 9))),
        ],
        SyncReply::Snapshot(SnapshotReply::Fetched(Err("gone".to_string()))),
    );
    assert!(matches!(error, MirrorError::Remote(e) if e == "gone"));
}

#[test]
fn failed_decode_leaves_the_replica_as_it_was() {
    let error = fails_and_recovers(
        vec![
            polled(vec!["/a"], 8),
            polled(vec![], 8),
            SyncReply::Snapshot(SnapshotReply::Opened(opened("new", 9))),
            SyncReply::Snapshot(SnapshotReply::Fetched(Ok(vec![4]))),
        ],
        SyncReply::Snapshot(SnapshotReply::Decoded(Err("eof".to_string()))),
    );
    assert_eq!(error.message("eof"), "decode snapshot DriveState: eof");
}

#[test]
fn sync_reloads_what_a_bootstrap_loads() {
    let mut mirror = replica();
    let mut boot = Bootstrap::new("team");
    let mut state = SyncState::Loading { applied: 4, cursor: 8, load: SnapshotLoad::Opening };
    let replies: [fn() -> SnapshotReply<Vec<u32>, String>; 2] = [
        || SnapshotReply::Opened(opened("new", 12)),
        || SnapshotReply::Fetched(Ok(vec![4])),
    ];
    for reply in replies {
        boot = step(boot, reply());
        state = advance(&mut mirror, state, SyncReply::Snapshot(reply()));
    }
    state = advance(&mut mirror, state, SyncReply::Snapshot(SnapshotReply::Decoded(Ok(vec![6]))));
    assert!(matches!(state, SyncState::Done { applied: 4 }));
    match Mirror::bootstrap(boot, SnapshotReply::<Vec<u32>, String>::Decoded(Ok(vec![6]))) {
        Ok(BootstrapStep::Ready(anew)) => {
            assert_eq!(mirror.drive(), anew.drive());
            assert_eq!(mirror.cursor(), anew.cursor());
        }
        _ => panic!("the bootstrap did not end"),
    }
}
