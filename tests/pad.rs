use fill_ledger::config::ContractError;
use fill_ledger::contract::{pad_response, receive, HandleResponse};
use fill_ledger::pad::{space_pad, BLOCK_SIZE};

#[test]
fn pad_to_block_multiple() {
    let mut msg = b"hello".to_vec();
    space_pad(256, &mut msg);
    assert_eq!(msg.len(), 256);
    assert_eq!(&msg[..5], b"hello");
    assert!(msg[5..].iter().all(|b| *b == b' '));
}

#[test]
fn pad_aligned_and_empty_unchanged() {
    let mut msg = vec![7u8; 512];
    space_pad(256, &mut msg);
    assert_eq!(msg, vec![7u8; 512]);
    let mut empty: Vec<u8> = Vec::new();
    space_pad(256, &mut empty);
    assert!(empty.is_empty());
}

#[test]
fn pad_is_idempotent() {
    let mut once = vec![1u8; 300];
    space_pad(BLOCK_SIZE, &mut once);
    assert_eq!(once.len(), 512);
    let mut twice = once.clone();
    space_pad(BLOCK_SIZE, &mut twice);
    assert_eq!(once, twice);
}

#[test]
fn pad_small_block() {
    let mut msg = b"abcde".to_vec();
    space_pad(4, &mut msg);
    assert_eq!(msg, b"abcde   ".to_vec());
}

#[test]
fn pad_response_pads_data_and_keeps_errors() {
    let r = pad_response(Ok(HandleResponse { data: Some(b"{}".to_vec()) })).unwrap();
    let data = r.data.unwrap();
    assert_eq!(data.len(), 256);
    assert_eq!(&data[..2], b"{}");
    let none = pad_response(Ok(HandleResponse { data: None })).unwrap();
    assert!(none.data.is_none());
    let err = pad_response(Err(ContractError::Unauthorized));
    assert_eq!(err.err(), Some(ContractError::Unauthorized));
}

#[test]
fn receive_replies_without_data() {
    let r = receive(b"someone".to_vec(), 5, None).unwrap();
    assert!(r.data.is_none());
}
