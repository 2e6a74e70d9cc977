//! Placeholder generation, event standards, and start-height decisions.

use indexer_lineage::events::{get_standard, Event};
use indexer_lineage::models::{create_placeholder, create_placeholders, PlaceholderError};
use indexer_lineage::opts::{stream_start_height, StartHeightError, StartMode};

#[test]
fn placeholder_numbers_one_group() {
    let mut start: usize = 1;
    let s = create_placeholder(&mut start, 3).unwrap();
    assert_eq!(s, "($1, $2, $3)");
    assert_eq!(start, 4);
    let s2 = create_placeholder(&mut start, 2).unwrap();
    assert_eq!(s2, "($4, $5)");
    assert_eq!(start, 6);
}

#[test]
fn placeholder_renders_multi_digit_numbers() {
    let mut start: usize = 9;
    let s = create_placeholder(&mut start, 4).unwrap();
    assert_eq!(s, "($9, $10, $11, $12)");
}

#[test]
fn placeholders_number_all_groups() {
    let s = create_placeholders(2, 2).unwrap();
    assert_eq!(s, "($1, $2), ($3, $4)");
    let single = create_placeholders(1, 1).unwrap();
    assert_eq!(single, "($1)");
}

#[test]
fn placeholder_wants_at_least_one_field() {
    let mut start: usize = 1;
    let err = create_placeholder(&mut start, 0).unwrap_err();
    assert!(matches!(err, PlaceholderError::NoFields));
    assert_eq!(start, 1);
}

#[test]
fn placeholders_want_at_least_one_item_and_field() {
    assert!(matches!(create_placeholders(0, 2).unwrap_err(), PlaceholderError::NoItems));
    assert!(matches!(create_placeholders(2, 0).unwrap_err(), PlaceholderError::NoFields));
}

#[test]
fn standards_name_their_event_family() {
    assert_eq!(get_standard(&Event::Nep141), "FT_NEP141");
    assert_eq!(get_standard(&Event::Nep171), "NFT_NEP171");
    assert_eq!(get_standard(&Event::Aurora), "FT_LEGACY");
    assert_eq!(get_standard(&Event::RainbowBridge), "FT_LEGACY");
    assert_eq!(get_standard(&Event::Skyward), "FT_LEGACY");
    assert_eq!(get_standard(&Event::TknNear), "FT_LEGACY");
    assert_eq!(get_standard(&Event::Wentokensir), "FT_LEGACY");
    assert_eq!(get_standard(&Event::WrapNear), "FT_LEGACY");
}

#[test]
fn start_height_from_latest_uses_the_rpc_block() {
    assert_eq!(stream_start_height(&StartMode::FromLatest, Some(500), None), Ok(500));
    assert!(matches!(
        stream_start_height(&StartMode::FromLatest, None, Some(400)),
        Err(StartHeightError::MissingLatestBlockHeight),
    ));
}

#[test]
fn start_height_resumes_a_hundred_blocks_early() {
    assert_eq!(stream_start_height(&StartMode::FromInterruption, None, Some(400)), Ok(300));
    assert_eq!(stream_start_height(&StartMode::FromInterruption, None, Some(50)), Ok(0));
    assert!(matches!(
        stream_start_height(&StartMode::FromInterruption, Some(500), None),
        Err(StartHeightError::MissingLastProcessedHeight),
    ));
}
