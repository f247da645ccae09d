use odss2dash::trackdb_client::{
    create_params_for_positions, track_res_to_positions_response, FetchParams,
};

#[test]
fn date_range_takes_precedence_over_fetch_size() {
    let params = create_params_for_positions(
        5,
        Some(7),
        Some(String::from("2024-01-01")),
        None,
    );
    match params {
        FetchParams::DateRange { start_date, end_date } => {
            assert_eq!(start_date, Some(String::from("2024-01-01")));
            assert_eq!(end_date, None);
        }
        FetchParams::LastFixes { .. } => panic!("expected a date range"),
    }
}

#[test]
fn end_date_alone_still_selects_date_range() {
    let params = create_params_for_positions(5, None, None, Some(String::from("2024-02-02")));
    match params {
        FetchParams::DateRange { start_date, end_date } => {
            assert_eq!(start_date, None);
            assert_eq!(end_date, Some(String::from("2024-02-02")));
        }
        FetchParams::LastFixes { .. } => panic!("expected a date range"),
    }
}

#[test]
fn positive_fetch_size_is_sent() {
    match create_params_for_positions(5, Some(7), None, None) {
        FetchParams::LastFixes { last_number_of_fixes } => assert_eq!(last_number_of_fixes, 7),
        FetchParams::DateRange { .. } => panic!("expected a fetch size"),
    }
}

#[test]
fn zero_or_absent_fetch_size_falls_back_to_default() {
    match create_params_for_positions(5, Some(0), None, None) {
        FetchParams::LastFixes { last_number_of_fixes } => assert_eq!(last_number_of_fixes, 5),
        FetchParams::DateRange { .. } => panic!("expected a fetch size"),
    }
    match create_params_for_positions(5, None, None, None) {
        FetchParams::LastFixes { last_number_of_fixes } => assert_eq!(last_number_of_fixes, 5),
        FetchParams::DateRange { .. } => panic!("expected a fetch size"),
    }
}

#[test]
fn failed_status_yields_no_response() {
    let res = track_res_to_positions_response(
        "aku",
        None,
        "error",
        vec![1],
        vec![vec![10, 20]],
    );
    assert!(res.is_none());
}

#[test]
fn success_pairs_timestamps_with_coordinates() {
    let res = track_res_to_positions_response(
        "aku",
        None,
        "success",
        vec![1, 2],
        vec![vec![10, 20], vec![30, 40]],
    )
    .expect("success response");
    assert_eq!(res.platform_id, "aku");
    assert_eq!(res.platform_name, None);
    let times: Vec<u64> = res.positions.iter().map(|p| p.time_ms).collect();
    assert_eq!(times, vec![1, 2]);
    // the source sends longitude first, latitude second
    assert_eq!(res.positions[0].lon_bits, 10);
    assert_eq!(res.positions[0].lat_bits, 20);
    assert_eq!(res.positions[1].lon_bits, 30);
    assert_eq!(res.positions[1].lat_bits, 40);
}

#[test]
fn pairing_stops_at_the_shorter_sequence() {
    let res = track_res_to_positions_response(
        "aku",
        None,
        "success",
        vec![1, 2, 3],
        vec![vec![10, 20], vec![30, 40]],
    )
    .expect("success response");
    let times: Vec<u64> = res.positions.iter().map(|p| p.time_ms).collect();
    assert_eq!(times, vec![1, 2]);
}

#[test]
fn fetch_size_cap_truncates_after_receipt() {
    let res = track_res_to_positions_response(
        "aku",
        Some(2),
        "success",
        vec![1, 2, 3],
        vec![vec![10, 20], vec![30, 40], vec![50, 60]],
    )
    .expect("success response");
    let times: Vec<u64> = res.positions.iter().map(|p| p.time_ms).collect();
    assert_eq!(times, vec![1, 2]);
}

#[test]
fn fetch_size_cap_beyond_the_response_keeps_everything() {
    let res = track_res_to_positions_response(
        "aku",
        Some(10),
        "success",
        vec![1, 2],
        vec![vec![10, 20], vec![30, 40]],
    )
    .expect("success response");
    assert_eq!(res.positions.len(), 2);
}

#[test]
fn fetch_size_cap_of_zero_empties_the_response() {
    let res = track_res_to_positions_response(
        "aku",
        Some(0),
        "success",
        vec![1],
        vec![vec![10, 20]],
    )
    .expect("success response");
    assert!(res.positions.is_empty());
}
