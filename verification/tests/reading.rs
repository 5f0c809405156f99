//! Stored rows read back into account updates.
use amm_replay::codec::Base64Error;
use amm_replay::reader::{parse_state_batch, read_row, sort_updates, StoredRow};
use amm_replay::recorder::watch::decode_account_data;

fn row(slot: u64, write_version: u64, data: &str) -> StoredRow {
    StoredRow {
        timestamp_ms: 1_700_000_000_000 + slot,
        slot,
        write_version,
        txn_signature: format!("s{slot}"),
        account_role: "pool".to_string(),
        account_data_b64: data.to_string(),
    }
}

#[test]
fn rows_are_decoded_in_order() {
    let mut out = vec![];
    assert!(parse_state_batch(vec![row(3, 1, "AAECAw=="), row(2, 1, "")], &mut out).is_ok());
    assert!(parse_state_batch(vec![row(1, 9, "/+8=")], &mut out).is_ok());
    assert!(parse_state_batch(vec![], &mut out).is_ok());
    let data: Vec<&[u8]> = out.iter().map(|u| u.account_data.as_slice()).collect();
    assert_eq!(data, vec![&[0u8, 1, 2, 3][..], &[], &[255, 239]]);
    assert_eq!(out[0].txn_signature, "s3");
    assert_eq!(out[2].timestamp_ms, 1_700_000_000_001);
}

#[test]
fn the_first_bad_row_stops_the_batch() {
    let mut out = vec![];
    let error = parse_state_batch(vec![row(1, 1, "AAAA"), row(2, 1, "A*AA"), row(3, 1, "!")], &mut out).unwrap_err();
    assert_eq!(error.row, 1);
    assert_eq!(error.error, Base64Error::InvalidByte { offset: 1, byte: b'*' });
    assert_eq!(error.message(), "row 1: base64 decode failed: Invalid symbol 42, offset 1.");
    assert_eq!(out.len(), 1);
    assert_eq!(out[0].account_data, vec![0, 0, 0]);
}

#[test]
fn every_way_to_miss_base64() {
    assert_eq!(decode_account_data("aGk="), Ok(b"hi".to_vec()));
    assert!(matches!(decode_account_data("aGk"), Err(Base64Error::InvalidPadding)));
    assert_eq!(decode_account_data("aGl="), Err(Base64Error::InvalidLastSymbol { offset: 2, byte: b'l' }));
    assert!(matches!(decode_account_data("a=Gk"), Err(Base64Error::InvalidByte { offset: 1, byte: b'=' })));
    assert!(matches!(decode_account_data("AAAAA"), Err(Base64Error::InvalidLength { len: 5 })));
}

#[test]
fn updates_follow_the_chain() {
    let mut out = vec![];
    let batch = vec![row(5, 2, "AQ=="), row(4, 9, "Ag=="), row(5, 1, "Aw=="), row(5, 2, "BA==")];
    assert!(parse_state_batch(batch, &mut out).is_ok());
    let sorted = sort_updates(out);
    let order: Vec<(u64, u64, u8)> =
        sorted.iter().map(|u| (u.slot, u.write_version, u.account_data[0])).collect();
    assert_eq!(order, vec![(4, 9, 2), (5, 1, 3), (5, 2, 1), (5, 2, 4)]);
}

#[test]
fn a_row_keeps_its_fields() {
    let u = read_row(row(8, 3, "ignored"), vec![1, 2]);
    assert_eq!((u.slot, u.write_version, u.timestamp_ms), (8, 3, 1_700_000_000_008));
    assert_eq!((u.txn_signature.as_str(), u.account_role.as_str()), ("s8", "pool"));
    assert_eq!(u.account_data, vec![1, 2]);
}
