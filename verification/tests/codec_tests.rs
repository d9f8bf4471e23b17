use brc20_reader::codec::{
    decode_balance, decode_receipts, decode_token_info, decode_transferables, encode_balance,
    encode_receipts, encode_token_info, encode_transferables,
};
use brc20_reader::records::{ActionReceipt, Balance, TokenInfo, TransferableLog};

#[test]
fn balance_encoding_is_exact_bytes() {
    let b = Balance { overall: 100, available: 100 };
    let bytes = encode_balance(&b);
    let mut expected = vec![0u8; 32];
    expected[0] = 100;
    expected[16] = 100;
    assert_eq!(bytes, expected);
}

#[test]
fn balance_roundtrip_is_lossless() {
    let b = Balance { overall: u128::MAX, available: 12345678901234567890 };
    let bytes = encode_balance(&b);
    assert_eq!(decode_balance(&bytes), Some(b));
}

#[test]
fn balance_decode_rejects_wrong_length() {
    let b = Balance { overall: 7, available: 9 };
    let mut bytes = encode_balance(&b);
    bytes.push(0);
    assert_eq!(decode_balance(&bytes), None);
    let short = vec![1u8; 31];
    assert_eq!(decode_balance(&short), None);
}

#[test]
fn token_info_roundtrip_is_lossless() {
    let t = TokenInfo {
        tick: b"ordi".to_vec(),
        supply: 21_000_000,
        limit_per_mint: 1000,
        decimals: 18,
    };
    let bytes = encode_token_info(&t);
    let back = decode_token_info(&bytes).unwrap();
    assert_eq!(back, t);
}

#[test]
fn token_info_decode_rejects_truncation() {
    let t = TokenInfo { tick: b"ordi".to_vec(), supply: 1, limit_per_mint: 1, decimals: 0 };
    let mut bytes = encode_token_info(&t);
    bytes.pop();
    assert_eq!(decode_token_info(&bytes), None);
}

#[test]
fn receipts_roundtrip_keeps_order() {
    let xs = vec![
        ActionReceipt { op: 1, amount: 10 },
        ActionReceipt { op: 2, amount: 20 },
        ActionReceipt { op: 1, amount: 30 },
    ];
    let bytes = encode_receipts(&xs);
    assert_eq!(bytes[0], 3);
    assert_eq!(&bytes[1..8], &[0u8; 7]);
    assert_eq!(decode_receipts(&bytes), Some(xs));
}

#[test]
fn empty_receipt_batch_roundtrips() {
    let xs: Vec<ActionReceipt> = Vec::new();
    let bytes = encode_receipts(&xs);
    assert_eq!(bytes, vec![0u8; 8]);
    assert_eq!(decode_receipts(&bytes), Some(Vec::new()));
}

#[test]
fn receipts_decode_rejects_overlong_count() {
    // count says two receipts but only one is present
    let xs = vec![ActionReceipt { op: 1, amount: 10 }];
    let mut bytes = encode_receipts(&xs);
    bytes[0] = 2;
    assert_eq!(decode_receipts(&bytes), None);
}

#[test]
fn receipts_decode_rejects_trailing_garbage() {
    let xs = vec![ActionReceipt { op: 1, amount: 10 }];
    let mut bytes = encode_receipts(&xs);
    bytes.push(0xab);
    assert_eq!(decode_receipts(&bytes), None);
}

#[test]
fn transferables_roundtrip_keeps_order_and_fields() {
    let xs = vec![
        TransferableLog { inscription_id: b"insc-1".to_vec(), tick: b"ordi".to_vec(), amount: 5 },
        TransferableLog { inscription_id: b"insc-2".to_vec(), tick: b"sats".to_vec(), amount: 7 },
    ];
    let bytes = encode_transferables(&xs);
    assert_eq!(decode_transferables(&bytes), Some(xs));
}

#[test]
fn transferables_decode_rejects_garbage() {
    assert_eq!(decode_transferables(&vec![1, 2, 3]), None);
    // a count with no entries behind it
    let mut bytes = vec![0u8; 8];
    bytes[0] = 1;
    assert_eq!(decode_transferables(&bytes), None);
}
