use ce_drive_client::plan::{Chunk, ReadPlan};
use ce_drive_client::readplan::{
    fetch_plan, fetch_range, slice_range, Blob, FetchError, PlanFetch,
};

fn chunk(cid: &str, offset: u64, len: u64) -> Chunk {
    Chunk { cid: cid.to_string(), offset, len }
}

fn blob(bytes: &[u8], cid: &str) -> Result<Blob, String> {
    Ok(Blob { bytes: bytes.to_vec(), cid: cid.to_string() })
}

/// Two chunks that cover the object bytes [1000, 1006).
fn two_chunks() -> ReadPlan {
    ReadPlan { chunks: vec![chunk("aa", 1000, 4), chunk("bb", 1004, 2)] }
}

#[test]
fn slice_trims_to_exact_window() {
    // Chunk-aligned bytes start at object offset 1000 and span [1000, 2000).
    let whole: Vec<u8> = (0..1000u32).map(|i| i as u8).collect();
    // Ask for [1500, 1600): relative [500, 600).
    let got = slice_range(whole.clone(), 1000, 1500, Some(100));
    assert_eq!(got.len(), 100);
    assert_eq!(got[0], whole[500]);
    // No len = to end.
    let rest = slice_range(whole.clone(), 1000, 1500, None);
    assert_eq!(rest.len(), 500);
}

#[test]
fn slice_past_end_is_empty() {
    let whole = vec![0u8; 100];
    assert!(slice_range(whole, 1000, 5000, Some(10)).is_empty());
}

#[test]
fn slice_at_end_is_empty() {
    assert!(slice_range(vec![1, 2, 3], 10, 13, Some(1)).is_empty());
    assert!(slice_range(vec![1, 2, 3], 10, 13, None).is_empty());
    assert!(slice_range(Vec::new(), 0, 0, None).is_empty());
}

#[test]
fn slice_is_cut_at_the_last_byte() {
    assert_eq!(slice_range(vec![1, 2, 3, 4], 10, 12, Some(100)), vec![3, 4]);
    assert_eq!(slice_range(vec![1, 2, 3, 4], 10, 12, Some(u64::MAX)), vec![3, 4]);
    assert_eq!(slice_range(vec![1, 2, 3], 0, 1, Some(u64::MAX)), vec![2, 3]);
}

#[test]
fn slice_of_no_bytes_is_empty() {
    assert!(slice_range(vec![1, 2, 3, 4], 10, 12, Some(0)).is_empty());
}

#[test]
fn slice_from_before_the_first_byte_keeps_to_the_window() {
    // [8, 11): only object byte 10 is at hand.
    assert_eq!(slice_range(vec![1, 2, 3, 4], 10, 8, Some(3)), vec![1]);
    // [3, 5) and [8, 10): nothing is.
    assert!(slice_range(vec![1, 2, 3, 4], 10, 3, Some(2)).is_empty());
    assert!(slice_range(vec![1, 2, 3, 4], 10, 8, Some(2)).is_empty());
    // [8, 20) and all from 8 on: everything is.
    assert_eq!(slice_range(vec![1, 2, 3, 4], 10, 8, Some(12)), vec![1, 2, 3, 4]);
    assert_eq!(slice_range(vec![1, 2, 3, 4], 10, 8, Some(u64::MAX)), vec![1, 2, 3, 4]);
    assert_eq!(slice_range(vec![1, 2, 3, 4], 10, 8, None), vec![1, 2, 3, 4]);
}

#[test]
fn slice_past_end_takes_any_length() {
    assert!(slice_range(vec![1, 2, 3, 4], 10, 20, Some(u64::MAX)).is_empty());
}

#[test]
fn adjacent_slices_join() {
    let whole: Vec<u8> = vec![1, 2, 3, 4, 5, 6];
    let mut joined = slice_range(whole.clone(), 100, 101, Some(2));
    joined.extend(slice_range(whole.clone(), 100, 103, Some(2)));
    assert_eq!(joined, slice_range(whole.clone(), 100, 101, Some(4)));
    let mut joined = slice_range(whole.clone(), 100, 98, Some(3));
    joined.extend(slice_range(whole.clone(), 100, 101, Some(2)));
    assert_eq!(joined, slice_range(whole, 100, 98, Some(5)));
}

#[test]
fn plan_reports_its_length_and_base() {
    let plan = two_chunks();
    assert_eq!(plan.planned_len(), Some(6));
    assert_eq!(plan.base(), 1000);
    let empty = ReadPlan { chunks: vec![] };
    assert_eq!(empty.planned_len(), Some(0));
    assert_eq!(empty.base(), 0);
}

#[test]
fn plan_length_that_overflows_is_none() {
    let plan = ReadPlan { chunks: vec![chunk("aa", 0, u64::MAX), chunk("bb", 0, 1)] };
    assert_eq!(plan.planned_len(), None);
}

#[test]
fn fetch_reassembles_in_plan_order() {
    let plan = two_chunks();
    let fetch = PlanFetch::new(&plan);
    assert_eq!(fetch.wanted().unwrap(), "aa");
    let fetch = match fetch_plan(fetch, blob(&[1, 2, 3, 4], "aa")) {
        Ok(fetch) => fetch,
        Err(_) => panic!("the first chunk is the one that the plan names"),
    };
    assert_eq!(fetch.wanted().unwrap(), "bb");
    let fetch = match fetch_plan(fetch, blob(&[5, 6], "bb")) {
        Ok(fetch) => fetch,
        Err(_) => panic!("the second chunk is the one that the plan names"),
    };
    assert!(fetch.wanted().is_none());
    let whole = fetch.into_bytes();
    assert_eq!(whole, vec![1, 2, 3, 4, 5, 6]);
    assert_eq!(fetch_range(&plan, whole.clone(), 1002, Some(3)), vec![3, 4, 5]);
    assert_eq!(fetch_range(&plan, whole.clone(), 1003, None), vec![4, 5, 6]);
    assert!(fetch_range(&plan, whole, 2000, Some(1)).is_empty());
}

#[test]
fn fetch_of_an_empty_plan_is_done() {
    let plan = ReadPlan { chunks: vec![] };
    let fetch = PlanFetch::new(&plan);
    assert!(fetch.wanted().is_none());
    let whole = fetch.into_bytes();
    assert!(whole.is_empty());
    assert!(fetch_range(&plan, whole, 7, None).is_empty());
}

#[test]
fn fetch_refuses_a_chunk_with_another_cid() {
    let plan = two_chunks();
    match fetch_plan(PlanFetch::new(&plan), blob(&[9, 9, 9, 9], "cc")) {
        Err(FetchError::Mismatch { expected, got }) => {
            assert_eq!(expected, "aa");
            assert_eq!(got, "cc");
            let error: FetchError<String> = FetchError::Mismatch { expected, got };
            assert_eq!(error.message(""), "chunk verification failed: expected aa, got cc");
        }
        _ => panic!("a chunk with another content id was used"),
    }
}

#[test]
fn fetch_refuses_a_later_chunk_too() {
    let plan = two_chunks();
    let fetch = match fetch_plan(PlanFetch::new(&plan), blob(&[1, 2, 3, 4], "aa")) {
        Ok(fetch) => fetch,
        Err(_) => panic!("the first chunk is the one that the plan names"),
    };
    assert!(matches!(
        fetch_plan(fetch, blob(&[1, 2, 3, 4], "aa")),
        Err(FetchError::Mismatch { expected, got }) if expected == "bb" && got == "aa"
    ));
}

#[test]
fn fetch_passes_the_data_layers_error_on() {
    let plan = two_chunks();
    let reply: Result<Blob, String> = Err("no route".to_string());
    match fetch_plan(PlanFetch::new(&plan), reply) {
        Err(FetchError::Blob(e)) => {
            assert_eq!(e, "no route");
            assert_eq!(FetchError::Blob(e).message("no route"), "no route");
        }
        _ => panic!("the error was lost"),
    }
}

#[test]
fn substituted_bytes_never_come_through() {
    // A content id that tells these byte strings apart.
    let cid_of = |bytes: &[u8]| format!("{:?}", bytes);
    let object: Vec<u8> = vec![10, 11, 12, 13, 14, 15];
    let plan = ReadPlan {
        chunks: vec![chunk(&cid_of(&object[1..3]), 1, 2), chunk(&cid_of(&object[3..6]), 3, 3)],
    };
    for served in [vec![12, 11], vec![11, 12, 13], vec![], vec![13, 14, 15]] {
        assert!(fetch_plan(PlanFetch::new(&plan), blob(&served, &cid_of(&served))).is_err());
    }
    let mut fetch = PlanFetch::new(&plan);
    for served in [&object[1..3], &object[3..6]] {
        fetch = match fetch_plan(fetch, blob(served, &cid_of(served))) {
            Ok(fetch) => fetch,
            Err(_) => panic!("the committed bytes were refused"),
        };
    }
    assert_eq!(fetch_range(&plan, fetch.into_bytes(), 2, Some(3)), object[2..5].to_vec());
}
