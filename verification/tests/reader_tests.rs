use brc20_reader::codec::{encode_balance, encode_receipts, encode_token_info, encode_transferables};
use brc20_reader::keys::{script_tick_key, ScriptKey, Ticker};
use brc20_reader::reader::{new_with_wtx, BRC20DatabaseReader};
use brc20_reader::records::{ActionReceipt, Balance, LedgerError, TableId, TokenInfo, TransferableLog};

use redb::backends::InMemoryBackend;
use redb::{Database, ReadableDatabase, TableDefinition};

const BALANCES: TableDefinition<&[u8], &[u8]> = TableDefinition::new("balances");
const TOKEN_INFO: TableDefinition<&[u8], &[u8]> = TableDefinition::new("token_info");
const EVENTS: TableDefinition<&[u8], &[u8]> = TableDefinition::new("events");
const TRANSFERABLE_LOG: TableDefinition<&[u8], &[u8]> = TableDefinition::new("transferable_log");

fn fresh_db() -> Database {
    Database::builder().create_with_backend(InMemoryBackend::new()).unwrap()
}

/// Creates all four tables (empty) and applies the given raw writes.
fn populate(db: &Database, writes: &[(&str, Vec<u8>, Vec<u8>)]) {
    let wtx = db.begin_write().unwrap();
    {
        let mut balances = wtx.open_table(BALANCES).unwrap();
        let mut token_info = wtx.open_table(TOKEN_INFO).unwrap();
        let mut events = wtx.open_table(EVENTS).unwrap();
        let mut transferable_log = wtx.open_table(TRANSFERABLE_LOG).unwrap();
        for (table, key, value) in writes {
            match *table {
                "balances" => balances.insert(key.as_slice(), value.as_slice()).unwrap(),
                "token_info" => token_info.insert(key.as_slice(), value.as_slice()).unwrap(),
                "events" => events.insert(key.as_slice(), value.as_slice()).unwrap(),
                _ => transferable_log.insert(key.as_slice(), value.as_slice()).unwrap(),
            };
        }
    }
    wtx.commit().unwrap();
}

fn owner(bytes: &[u8]) -> ScriptKey {
    ScriptKey::new(bytes.to_vec()).unwrap()
}

fn ticker(bytes: &[u8]) -> Ticker {
    Ticker::new(bytes.to_vec()).unwrap()
}

#[test]
fn get_balances_returns_both_records_in_key_order() {
    // balances holds "abc\x00AAAA" -> Balance{100,100} and
    // "abc\x00BBBB" -> Balance{50,0}; the scan of "abc" returns both,
    // in that order
    let db = fresh_db();
    populate(
        &db,
        &[
            (
                "balances",
                b"abc\x00AAAA".to_vec(),
                encode_balance(&Balance { overall: 100, available: 100 }),
            ),
            (
                "balances",
                b"abc\x00BBBB".to_vec(),
                encode_balance(&Balance { overall: 50, available: 0 }),
            ),
            (
                "balances",
                b"abd\x00AAAA".to_vec(),
                encode_balance(&Balance { overall: 999, available: 999 }),
            ),
        ],
    );
    let rtx = db.begin_read().unwrap();
    let reader = BRC20DatabaseReader::new(&rtx);
    let got = reader.get_balances(&owner(b"abc")).unwrap();
    assert_eq!(
        got,
        vec![
            Balance { overall: 100, available: 100 },
            Balance { overall: 50, available: 0 },
        ],
    );
}

#[test]
fn get_balance_roundtrips_a_direct_write() {
    let db = fresh_db();
    let o = owner(b"bc1pexample");
    let t = ticker(b"ordi");
    let b = Balance { overall: 444, available: 123 };
    populate(&db, &[("balances", script_tick_key(&o, &t), encode_balance(&b))]);
    let rtx = db.begin_read().unwrap();
    let reader = BRC20DatabaseReader::new(&rtx);
    assert_eq!(reader.get_balance(&o, &t).unwrap(), Some(b));
    assert_eq!(reader.get_balance(&o, &ticker(b"sats")).unwrap(), None);
}

#[test]
fn get_receipts_of_unknown_txid_is_empty_not_an_error() {
    let db = fresh_db();
    populate(&db, &[]);
    let rtx = db.begin_read().unwrap();
    let reader = BRC20DatabaseReader::new(&rtx);
    let got = reader.get_transaction_receipts(&b"deadbeef".to_vec()).unwrap();
    assert_eq!(got, Vec::new());
}

#[test]
fn get_receipts_returns_the_batch_in_stored_order() {
    let db = fresh_db();
    let xs = vec![
        ActionReceipt { op: 3, amount: 1 },
        ActionReceipt { op: 1, amount: 2 },
    ];
    populate(&db, &[("events", b"txid-1".to_vec(), encode_receipts(&xs))]);
    let rtx = db.begin_read().unwrap();
    let reader = BRC20DatabaseReader::new(&rtx);
    assert_eq!(reader.get_transaction_receipts(&b"txid-1".to_vec()).unwrap(), xs);
}

#[test]
fn get_token_info_point_and_scan() {
    let db = fresh_db();
    let t1 = TokenInfo { tick: b"ordi".to_vec(), supply: 21, limit_per_mint: 1, decimals: 8 };
    let t2 = TokenInfo { tick: b"sats".to_vec(), supply: 99, limit_per_mint: 9, decimals: 0 };
    populate(
        &db,
        &[
            ("token_info", b"ordi".to_vec(), encode_token_info(&t1)),
            ("token_info", b"sats".to_vec(), encode_token_info(&t2)),
        ],
    );
    let rtx = db.begin_read().unwrap();
    let reader = BRC20DatabaseReader::new(&rtx);
    assert_eq!(reader.get_token_info(&ticker(b"ordi")).unwrap(), Some(t1.clone()));
    assert_eq!(reader.get_token_info(&ticker(b"pepe")).unwrap(), None);
    assert_eq!(reader.get_tokens_info().unwrap(), vec![t1, t2]);
}

#[test]
fn get_transferable_concatenates_batches_in_key_order() {
    let db = fresh_db();
    let o = owner(b"abc");
    let l1 = TransferableLog { inscription_id: b"i1".to_vec(), tick: b"aaaa".to_vec(), amount: 1 };
    let l2 = TransferableLog { inscription_id: b"i2".to_vec(), tick: b"aaaa".to_vec(), amount: 2 };
    let l3 = TransferableLog { inscription_id: b"i3".to_vec(), tick: b"bbbb".to_vec(), amount: 3 };
    populate(
        &db,
        &[
            (
                "transferable_log",
                script_tick_key(&o, &ticker(b"aaaa")),
                encode_transferables(&vec![l1.clone(), l2.clone()]),
            ),
            (
                "transferable_log",
                script_tick_key(&o, &ticker(b"bbbb")),
                encode_transferables(&vec![l3.clone()]),
            ),
            (
                "transferable_log",
                script_tick_key(&owner(b"xyz"), &ticker(b"aaaa")),
                encode_transferables(&vec![TransferableLog {
                    inscription_id: b"other".to_vec(),
                    tick: b"aaaa".to_vec(),
                    amount: 9,
                }]),
            ),
        ],
    );
    let rtx = db.begin_read().unwrap();
    let reader = BRC20DatabaseReader::new(&rtx);
    assert_eq!(reader.get_transferable(&o).unwrap(), vec![l1.clone(), l2.clone(), l3]);
    assert_eq!(
        reader.get_transferable_by_tick(&o, &ticker(b"aaaa")).unwrap(),
        vec![l1, l2],
    );
    assert_eq!(
        reader.get_transferable_by_tick(&o, &ticker(b"cccc")).unwrap(),
        Vec::new(),
    );
}

#[test]
fn get_transferable_by_id_finds_the_unique_match() {
    let db = fresh_db();
    let o = owner(b"abc");
    let t = ticker(b"aaaa");
    let l1 = TransferableLog { inscription_id: b"i1".to_vec(), tick: b"aaaa".to_vec(), amount: 1 };
    let l2 = TransferableLog { inscription_id: b"i2".to_vec(), tick: b"aaaa".to_vec(), amount: 2 };
    populate(
        &db,
        &[(
            "transferable_log",
            script_tick_key(&o, &t),
            encode_transferables(&vec![l1.clone(), l2.clone()]),
        )],
    );
    let rtx = db.begin_read().unwrap();
    let reader = BRC20DatabaseReader::new(&rtx);
    assert_eq!(reader.get_transferable_by_id(&o, &t, &b"i2".to_vec()).unwrap(), Some(l2));
    assert_eq!(reader.get_transferable_by_id(&o, &t, &b"nope".to_vec()).unwrap(), None);
    // empty batch: no entry for this ticker at all
    assert_eq!(
        reader.get_transferable_by_id(&o, &ticker(b"bbbb"), &b"i1".to_vec()).unwrap(),
        None,
    );
}

#[test]
fn reader_over_write_transaction_sees_pending_writes() {
    let db = fresh_db();
    populate(&db, &[]);
    let o = owner(b"abc");
    let t = ticker(b"aaaa");
    let b = Balance { overall: 5, available: 4 };
    let wtx = db.begin_write().unwrap();
    {
        let mut balances = wtx.open_table(BALANCES).unwrap();
        balances
            .insert(script_tick_key(&o, &t).as_slice(), encode_balance(&b).as_slice())
            .unwrap();
    }
    // not yet committed: a reader bound to the write transaction sees it
    let reader = new_with_wtx(&wtx);
    assert_eq!(reader.get_balance(&o, &t).unwrap(), Some(b));
    assert_eq!(reader.get_balances(&o).unwrap(), vec![b]);
    drop(reader);
    wtx.abort().unwrap();
    // aborted: a snapshot reader sees nothing
    let rtx = db.begin_read().unwrap();
    let reader = BRC20DatabaseReader::new(&rtx);
    assert_eq!(reader.get_balance(&o, &t).unwrap(), None);
}

#[test]
fn undecodable_value_is_a_decode_error_with_the_key() {
    let db = fresh_db();
    let o = owner(b"abc");
    let t = ticker(b"aaaa");
    let key = script_tick_key(&o, &t);
    populate(&db, &[("balances", key.clone(), vec![1, 2, 3])]);
    let rtx = db.begin_read().unwrap();
    let reader = BRC20DatabaseReader::new(&rtx);
    match reader.get_balance(&o, &t) {
        Err(LedgerError::Decode { table, key: k }) => {
            assert_eq!(table, TableId::Balances);
            assert_eq!(k, key);
        },
        other => panic!("expected a decode error, got {:?}", other),
    }
    match reader.get_balances(&o) {
        Err(LedgerError::Decode { table, key: k }) => {
            assert_eq!(table, TableId::Balances);
            assert_eq!(k, key);
        },
        other => panic!("expected a decode error, got {:?}", other),
    }
}

#[test]
fn missing_table_is_a_table_error() {
    let db = fresh_db();
    // no table was ever created in this database
    let rtx = db.begin_read().unwrap();
    let reader = BRC20DatabaseReader::new(&rtx);
    match reader.get_balance(&owner(b"abc"), &ticker(b"aaaa")) {
        Err(LedgerError::Table(_)) => {},
        other => panic!("expected a table error, got {:?}", other),
    }
}

#[test]
fn lookups_on_one_snapshot_agree() {
    let db = fresh_db();
    let t = TokenInfo { tick: b"ordi".to_vec(), supply: 21, limit_per_mint: 1, decimals: 8 };
    populate(&db, &[("token_info", b"ordi".to_vec(), encode_token_info(&t))]);
    let rtx = db.begin_read().unwrap();
    let reader = BRC20DatabaseReader::new(&rtx);
    // two tickers differing only in letter case normalize to one key
    assert_eq!(
        reader.get_token_info(&ticker(b"ORDI")).unwrap(),
        reader.get_token_info(&ticker(b"ordi")).unwrap(),
    );
    // repeated reads of one snapshot agree, even while a write is pending
    let first = reader.get_tokens_info().unwrap();
    let wtx = db.begin_write().unwrap();
    {
        let mut token_info = wtx.open_table(TOKEN_INFO).unwrap();
        let t2 = TokenInfo { tick: b"sats".to_vec(), supply: 9, limit_per_mint: 9, decimals: 0 };
        token_info.insert(b"sats".as_slice(), encode_token_info(&t2).as_slice()).unwrap();
    }
    wtx.commit().unwrap();
    assert_eq!(reader.get_tokens_info().unwrap(), first);
}
