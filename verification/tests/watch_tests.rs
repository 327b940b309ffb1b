use nftfi::errors::NFTFiError;
use nftfi::models::{ContractName, Listing, Status};
use nftfi::watch::{sort_listings, ListingWatch};

fn listing(id: &str, listed_date: i64) -> Listing {
    Listing {
        id: id.to_string(),
        nft_collateral_contract: "0x026224a2940bfe258d0dbe947919b62fe321f042".to_string(),
        nft_collateral_id: "1378".to_string(),
        v: 0,
        borrower: "0x0000000000000000000000000000000000000001".to_string(),
        contract_name: ContractName::V1LoanFixed,
        desired_loan_currency: None,
        desired_loan_duration: Some("30".to_string()),
        desired_loan_principal_amount: Some("1000000000000000000".to_string()),
        listed_date,
        nft_key: format!("key-{}", id),
        nonce: "7".to_string(),
        signed_message: "0xsigned".to_string(),
        status: Status::Listed,
        whitelisted: true,
        name: Some(format!("asset {}", id)),
        project_name: "project".to_string(),
        description: "a listing".to_string(),
        image_url: "https://img.example/x.png".to_string(),
        animation_url: None,
        traits: Vec::new(),
        data_uri: None,
    }
}

fn ids(batch: &[Listing]) -> Vec<String> {
    batch.iter().map(|l| l.id.clone()).collect()
}

fn dates(batch: &[Listing]) -> Vec<i64> {
    batch.iter().map(|l| l.listed_date).collect()
}

#[test]
fn config_zero_rate_rejected() {
    let r = ListingWatch::new(0);
    assert!(matches!(r, Err(NFTFiError::InvalidConfiguration)));
}

#[test]
fn config_positive_rate_accepted() {
    let w = ListingWatch::new(10).expect("watch");
    assert_eq!(w.refresh_rate(), 10);
    assert_eq!(w.current_watermark(), None);
    assert!(w.is_live());
}

#[test]
fn first_snapshot_sorted_then_emitted() {
    let mut w = ListingWatch::new(1).expect("watch");
    let batch = w
        .next_batch(Ok(vec![listing("A", 100), listing("B", 50)]))
        .expect("batch");
    assert_eq!(ids(&batch), vec!["B".to_string(), "A".to_string()]);
    assert_eq!(dates(&batch), vec![50, 100]);
    assert_eq!(w.current_watermark(), Some(100));
}

#[test]
fn second_snapshot_emits_only_new() {
    let mut w = ListingWatch::new(1).expect("watch");
    let _ = w
        .next_batch(Ok(vec![listing("A", 100), listing("B", 50)]))
        .expect("batch");
    let batch = w
        .next_batch(Ok(vec![listing("A", 100), listing("C", 150)]))
        .expect("batch");
    assert_eq!(ids(&batch), vec!["C".to_string()]);
    assert_eq!(w.current_watermark(), Some(150));
}

#[test]
fn empty_snapshot_emits_nothing() {
    let mut w = ListingWatch::new(1).expect("watch");
    let _ = w
        .next_batch(Ok(vec![listing("A", 100)]))
        .expect("batch");
    let batch = w.next_batch(Ok(Vec::new())).expect("batch");
    assert!(batch.is_empty());
    assert_eq!(w.current_watermark(), Some(100));
    assert!(w.is_live());
}

#[test]
fn watermark_ties_are_skipped() {
    // Known limitation: a distinct listing sharing an already delivered
    // timestamp is silently skipped.
    let mut w = ListingWatch::new(1).expect("watch");
    let _ = w.next_batch(Ok(vec![listing("A", 100)])).expect("batch");
    let batch = w.next_batch(Ok(vec![listing("B", 100)])).expect("batch");
    assert!(batch.is_empty());
    assert_eq!(w.current_watermark(), Some(100));
}

#[test]
fn ties_within_one_snapshot_emit_first_arrival_only() {
    let mut w = ListingWatch::new(1).expect("watch");
    let batch = w
        .next_batch(Ok(vec![listing("A", 100), listing("B", 100)]))
        .expect("batch");
    assert_eq!(ids(&batch), vec!["A".to_string()]);
    assert_eq!(w.current_watermark(), Some(100));
}

#[test]
fn fetch_error_ends_the_session() {
    let mut w = ListingWatch::new(1).expect("watch");
    let _ = w.next_batch(Ok(vec![listing("A", 100)])).expect("batch");
    let r = w.next_batch(Err(NFTFiError::ServerStatusFailure(500)));
    assert!(matches!(r, Err(NFTFiError::ServerStatusFailure(500))));
    assert!(!w.is_live());
    assert_eq!(w.current_watermark(), Some(100));
}

#[test]
fn transport_error_is_surfaced_unchanged() {
    let mut w = ListingWatch::new(1).expect("watch");
    let r = w.next_batch(Err(NFTFiError::TransportFailure));
    assert!(matches!(r, Err(NFTFiError::TransportFailure)));
    assert!(!w.is_live());
    assert_eq!(w.current_watermark(), None);
}

#[test]
fn decode_error_keeps_its_path() {
    let mut w = ListingWatch::new(1).expect("watch");
    let r = w.next_batch(Err(NFTFiError::DecodeFailure("listings[3].listedDate".to_string())));
    match r {
        Err(NFTFiError::DecodeFailure(path)) => assert_eq!(path, "listings[3].listedDate"),
        other => panic!("expected a decode failure, got {:?}", other),
    }
    assert!(!w.is_live());
}

#[test]
fn emissions_monotone_across_polls() {
    let mut w = ListingWatch::new(1).expect("watch");
    let snapshots = vec![
        vec![listing("A", 30), listing("B", 10), listing("C", 20)],
        vec![listing("B", 10), listing("D", 25), listing("E", 40)],
        vec![listing("F", 35), listing("G", 50), listing("E", 40)],
    ];
    let mut all_dates: Vec<i64> = Vec::new();
    for snap in snapshots {
        let batch = w.next_batch(Ok(snap)).expect("batch");
        all_dates.extend(dates(&batch));
    }
    assert_eq!(all_dates, vec![10, 20, 30, 40, 50]);
    for pair in all_dates.windows(2) {
        assert!(pair[0] < pair[1]);
    }
}

#[test]
fn sort_is_stable_on_equal_dates() {
    let sorted = sort_listings(vec![
        listing("A", 20),
        listing("B", 10),
        listing("C", 10),
        listing("D", 20),
    ]);
    assert_eq!(
        ids(&sorted),
        vec![
            "B".to_string(),
            "C".to_string(),
            "A".to_string(),
            "D".to_string()
        ]
    );
    assert_eq!(dates(&sorted), vec![10, 10, 20, 20]);
}
