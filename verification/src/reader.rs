//! Ledger reader: the public query surface.
//!
//! A reader borrows one transaction handle (either variant) and answers
//! every query by opening the relevant table, building a key or key range,
//! fetching raw bytes and decoding them. The contracts of the queries are
//! stated against the contents of the opened table, a map from byte keys
//! to byte values. For a reader bound to a snapshot those contents are the
//! snapshot's own view of the named table, fixed for the reader's life, so
//! every query result is tied to that view; under a write transaction the
//! application can write between calls, so there the contract only binds
//! each result to the table the call opened.

use vstd::prelude::*;

use crate::codec::{
    copy_range, decode_balance, decode_receipts, decode_token_info, decode_transferables,
    spec_decode_balance, spec_decode_logs, spec_decode_receipts, spec_decode_token_info,
};
use crate::keys::{
    lemma_owner_ranges_disjoint, lemma_point_key_in_owner_range, lemma_point_key_order,
    max_script_tick_key, min_script_tick_key, script_tick_key, spec_max_script_tick_key,
    spec_min_script_tick_key, spec_script_tick_key, valid_owner_bytes, valid_tick_bytes,
    ScriptKey, Ticker,
};
use crate::order::{lemma_lex_asym, lemma_lex_irrefl, lex_le, lex_lt};
use crate::records::{
    logs_view, ActionReceipt, Balance, LedgerError, TableId, TokenInfo, TransferableLog,
    TransferableLogV,
};
use crate::store::{all_entries_ok, entries_view, range_entries_ok, ro_tx_table_view, ReaderWrapper};

verus! {

/// Copies a byte vector.
fn clone_bytes(v: &Vec<u8>) -> (r: Vec<u8>)
    ensures
        r@ == v@,
{
    let r = copy_range(v, 0, v.len());
    assert(v@.subrange(0, v@.len() as int) =~= v@);
    r
}

/// Byte-vector equality.
fn bytes_equal(a: &Vec<u8>, b: &Vec<u8>) -> (r: bool)
    ensures
        r == (a@ == b@),
{
    if a.len() != b.len() {
        assert(a@ !~= b@);
        return false;
    }
    let n = a.len();
    let mut i: usize = 0;
    while i < n
        invariant
            n == a.len() == b.len(),
            0 <= i <= n,
            forall|j: int| 0 <= j < i ==> a@[j] == b@[j],
        decreases n - i,
    {
        if a[i] != b[i] {
            return false;
        }
        i = i + 1;
    }
    assert(a@ =~= b@);
    true
}

// --- query semantics over a table's contents ---

/// What `get_balance` returns when the balances table holds `m`.
pub open spec fn balance_point_result(
    m: Map<Seq<u8>, Seq<u8>>,
    k: Seq<u8>,
    r: Result<Option<Balance>, LedgerError>,
) -> bool {
    if !m.contains_key(k) {
        r == Ok::<Option<Balance>, LedgerError>(None)
    } else {
        match spec_decode_balance(m[k]) {
            Some(b) => r == Ok::<Option<Balance>, LedgerError>(Some(b)),
            None => r matches Err(LedgerError::Decode { table, key }) && table
                == TableId::Balances && key@ == k,
        }
    }
}

/// What `get_token_info` returns when the token-info table holds `m`.
pub open spec fn token_point_result(
    m: Map<Seq<u8>, Seq<u8>>,
    k: Seq<u8>,
    r: Result<Option<TokenInfo>, LedgerError>,
) -> bool {
    if !m.contains_key(k) {
        r matches Ok(o) && o is None
    } else {
        match spec_decode_token_info(m[k]) {
            Some(tv) => r matches Ok(o) && o matches Some(t) && t@ == tv,
            None => r matches Err(LedgerError::Decode { table, key }) && table
                == TableId::TokenInfo && key@ == k,
        }
    }
}

/// What `get_transaction_receipts` returns when the events table holds `m`:
/// an absent transaction identifier yields the empty batch, not an error.
pub open spec fn receipts_point_result(
    m: Map<Seq<u8>, Seq<u8>>,
    k: Seq<u8>,
    r: Result<Vec<ActionReceipt>, LedgerError>,
) -> bool {
    if !m.contains_key(k) {
        r matches Ok(v) && v@ == Seq::<ActionReceipt>::empty()
    } else {
        match spec_decode_receipts(m[k]) {
            Some(xs) => r matches Ok(v) && v@ == xs,
            None => r matches Err(LedgerError::Decode { table, key }) && table == TableId::Events
                && key@ == k,
        }
    }
}

/// What `get_transferable_by_tick` returns when the transferable-log table
/// holds `m`: an absent key yields the empty batch.
pub open spec fn logs_point_result(
    m: Map<Seq<u8>, Seq<u8>>,
    k: Seq<u8>,
    r: Result<Vec<TransferableLog>, LedgerError>,
) -> bool {
    if !m.contains_key(k) {
        r matches Ok(v) && v@ == Seq::<TransferableLog>::empty()
    } else {
        match spec_decode_logs(m[k]) {
            Some(xs) => r matches Ok(v) && logs_view(v@) == xs,
            None => r matches Err(LedgerError::Decode { table, key }) && table
                == TableId::TransferableLog && key@ == k,
        }
    }
}

/// What decoding a list of balance entries yields: every value decoded, in
/// entry order, or the first undecodable entry's key in the error.
pub open spec fn balances_from_entries_ok(
    es: Seq<(Seq<u8>, Seq<u8>)>,
    r: Result<Vec<Balance>, LedgerError>,
) -> bool {
    match r {
        Ok(v) => v@.len() == es.len() && forall|i: int|
            0 <= i < es.len() ==> spec_decode_balance(#[trigger] es[i].1) == Some(v@[i]),
        Err(e) => exists|i: int|
            0 <= i < es.len() && spec_decode_balance(#[trigger] es[i].1) is None && (forall|
                j: int,
            |
                0 <= j < i ==> spec_decode_balance(#[trigger] es[j].1) is Some) && (e matches
            LedgerError::Decode { table, key } && table == TableId::Balances && key@ == es[i].0),
    }
}

/// What decoding a list of token-info entries yields.
pub open spec fn tokens_from_entries_ok(
    es: Seq<(Seq<u8>, Seq<u8>)>,
    r: Result<Vec<TokenInfo>, LedgerError>,
) -> bool {
    match r {
        Ok(v) => v@.len() == es.len() && forall|i: int|
            0 <= i < es.len() ==> spec_decode_token_info(#[trigger] es[i].1) == Some(v@[i]@),
        Err(e) => exists|i: int|
            0 <= i < es.len() && spec_decode_token_info(#[trigger] es[i].1) is None && (forall|
                j: int,
            |
                0 <= j < i ==> spec_decode_token_info(#[trigger] es[j].1) is Some) && (e matches
            LedgerError::Decode { table, key } && table == TableId::TokenInfo && key@ == es[i].0),
    }
}

/// What decoding and concatenating a list of transferable-log batch entries
/// yields: each value decodes to a batch, and the result is their
/// concatenation in entry order then in-batch order.
pub open spec fn transferables_from_entries_ok(
    es: Seq<(Seq<u8>, Seq<u8>)>,
    r: Result<Vec<TransferableLog>, LedgerError>,
) -> bool {
    match r {
        Ok(v) => exists|batches: Seq<Seq<TransferableLogV>>|
            #![trigger batches.flatten()]
            batches.len() == es.len() && (forall|i: int|
                0 <= i < es.len() ==> spec_decode_logs(#[trigger] es[i].1) == Some(batches[i]))
                && logs_view(v@) == batches.flatten(),
        Err(e) => exists|i: int|
            0 <= i < es.len() && spec_decode_logs(#[trigger] es[i].1) is None && (forall|j: int|
                0 <= j < i ==> spec_decode_logs(#[trigger] es[j].1) is Some) && (e matches
            LedgerError::Decode { table, key } && table == TableId::TransferableLog && key@
                == es[i].0),
    }
}

/// The first entry of `s` carrying `id`, if any.
pub open spec fn spec_find_log(s: Seq<TransferableLogV>, id: Seq<u8>) -> Option<TransferableLogV>
    decreases s.len(),
{
    if s.len() == 0 {
        None
    } else if s[0].inscription_id == id {
        Some(s[0])
    } else {
        spec_find_log(s.skip(1), id)
    }
}

/// What `get_transferable_by_id` returns when the transferable-log table
/// holds `m`.
pub open spec fn log_by_id_result(
    m: Map<Seq<u8>, Seq<u8>>,
    k: Seq<u8>,
    id: Seq<u8>,
    r: Result<Option<TransferableLog>, LedgerError>,
) -> bool {
    if !m.contains_key(k) {
        r matches Ok(o) && o is None
    } else {
        match spec_decode_logs(m[k]) {
            Some(xs) => match spec_find_log(xs, id) {
                Some(x) => r matches Ok(o) && o matches Some(l) && l@ == x,
                None => r matches Ok(o) && o is None,
            },
            None => r matches Err(LedgerError::Decode { table, key }) && table
                == TableId::TransferableLog && key@ == k,
        }
    }
}

// --- verified assembly of raw entries into results ---

/// Decodes every entry of a balances range scan, in order.
pub fn decode_balance_entries(entries: &Vec<(Vec<u8>, Vec<u8>)>) -> (r: Result<
    Vec<Balance>,
    LedgerError,
>)
    ensures
        balances_from_entries_ok(entries_view(entries@), r),
{
    let n = entries.len();
    let mut out: Vec<Balance> = Vec::new();
    let mut i: usize = 0;
    while i < n
        invariant
            n == entries.len(),
            0 <= i <= n,
            out@.len() == i,
            forall|j: int|
                0 <= j < i ==> spec_decode_balance(#[trigger] entries_view(entries@)[j].1)
                    == Some(out@[j]),
        decreases n - i,
    {
        let e = &entries[i];
        proof {
            assert(entries_view(entries@)[i as int] == (
                entries@[i as int].0@,
                entries@[i as int].1@,
            ));
        }
        match decode_balance(&e.1) {
            Some(b) => {
                out.push(b);
            },
            None => {
                let key = clone_bytes(&e.0);
                proof {
                    assert(entries_view(entries@).len() == entries@.len());
                    assert(entries_view(entries@)[i as int] == (
                        entries@[i as int].0@,
                        entries@[i as int].1@,
                    ));
                    assert(spec_decode_balance(entries_view(entries@)[i as int].1) is None);
                    assert(key@ == entries_view(entries@)[i as int].0);
                }
                return Err(LedgerError::Decode { table: TableId::Balances, key });
            },
        }
        i = i + 1;
    }
    Ok(out)
}

/// Decodes every entry of a token-info scan, in order.
pub fn decode_token_entries(entries: &Vec<(Vec<u8>, Vec<u8>)>) -> (r: Result<
    Vec<TokenInfo>,
    LedgerError,
>)
    ensures
        tokens_from_entries_ok(entries_view(entries@), r),
{
    let n = entries.len();
    let mut out: Vec<TokenInfo> = Vec::new();
    let mut i: usize = 0;
    while i < n
        invariant
            n == entries.len(),
            0 <= i <= n,
            out@.len() == i,
            forall|j: int|
                0 <= j < i ==> spec_decode_token_info(#[trigger] entries_view(entries@)[j].1)
                    == Some(out@[j]@),
        decreases n - i,
    {
        let e = &entries[i];
        proof {
            assert(entries_view(entries@)[i as int] == (
                entries@[i as int].0@,
                entries@[i as int].1@,
            ));
        }
        match decode_token_info(&e.1) {
            Some(t) => {
                out.push(t);
            },
            None => {
                let key = clone_bytes(&e.0);
                proof {
                    assert(entries_view(entries@).len() == entries@.len());
                    assert(entries_view(entries@)[i as int] == (
                        entries@[i as int].0@,
                        entries@[i as int].1@,
                    ));
                    assert(spec_decode_token_info(entries_view(entries@)[i as int].1) is None);
                    assert(key@ == entries_view(entries@)[i as int].0);
                }
                return Err(LedgerError::Decode { table: TableId::TokenInfo, key });
            },
        }
        i = i + 1;
    }
    Ok(out)
}

/// Decodes every entry of a transferable-log range scan and concatenates
/// the batches, in key order then in-batch order.
pub fn flatten_transferable_entries(entries: &Vec<(Vec<u8>, Vec<u8>)>) -> (r: Result<
    Vec<TransferableLog>,
    LedgerError,
>)
    ensures
        transferables_from_entries_ok(entries_view(entries@), r),
{
    let n = entries.len();
    let mut out: Vec<TransferableLog> = Vec::new();
    let ghost mut batches: Seq<Seq<TransferableLogV>> = Seq::empty();
    let mut i: usize = 0;
    proof {
        assert(logs_view(out@) =~= batches.flatten());
    }
    while i < n
        invariant
            n == entries.len(),
            0 <= i <= n,
            batches.len() == i,
            forall|j: int|
                0 <= j < i ==> spec_decode_logs(#[trigger] entries_view(entries@)[j].1) == Some(
                    batches[j],
                ),
            logs_view(out@) == batches.flatten(),
        decreases n - i,
    {
        let e = &entries[i];
        match decode_transferables(&e.1) {
            Some(mut batch) => {
                proof {
                    assert(entries_view(entries@)[i as int] == (
                        entries@[i as int].0@,
                        entries@[i as int].1@,
                    ));
                    crate::reader::lemma_flatten_push(batches, logs_view(batch@));
                    assert(logs_view(out@ + batch@) =~= logs_view(out@) + logs_view(batch@));
                }
                let ghost bview = logs_view(batch@);
                out.append(&mut batch);
                proof {
                    batches = batches.push(bview);
                }
            },
            None => {
                let key = clone_bytes(&e.0);
                proof {
                    assert(entries_view(entries@).len() == entries@.len());
                    assert(entries_view(entries@)[i as int] == (
                        entries@[i as int].0@,
                        entries@[i as int].1@,
                    ));
                    assert(spec_decode_logs(entries_view(entries@)[i as int].1) is None);
                    assert(key@ == entries_view(entries@)[i as int].0);
                }
                return Err(
                    LedgerError::Decode { table: TableId::TransferableLog, key },
                );
            },
        }
        i = i + 1;
    }
    Ok(out)
}

/// Flattening distributes over appending one more batch.
pub proof fn lemma_flatten_push(s: Seq<Seq<TransferableLogV>>, x: Seq<TransferableLogV>)
    ensures
        s.push(x).flatten() == s.flatten() + x,
    decreases s.len(),
{
    if s.len() == 0 {
        assert(s.push(x)[0] == x);
        assert(s.push(x).drop_first() =~= Seq::<Seq<TransferableLogV>>::empty());
        assert(s.push(x).flatten() == x + s.push(x).drop_first().flatten());
        assert(Seq::<Seq<TransferableLogV>>::empty().flatten() == Seq::<
            TransferableLogV,
        >::empty());
        assert(x + Seq::<TransferableLogV>::empty() =~= x);
        assert(s.flatten() + x =~= x);
    } else {
        lemma_flatten_push(s.drop_first(), x);
        assert(s.push(x)[0] == s[0]);
        assert(s.push(x).drop_first() =~= s.drop_first().push(x));
        assert(s.push(x).flatten() == s.push(x)[0] + s.push(x).drop_first().flatten());
        assert(s.flatten() == s[0] + s.drop_first().flatten());
        assert(s[0] + (s.drop_first().flatten() + x) =~= (s[0] + s.drop_first().flatten()) + x);
    }
}

/// Finds the first entry with the given inscription identifier; the copy
/// returned is equal, field for field, to the entry found.
pub fn find_transferable(logs: &Vec<TransferableLog>, inscription_id: &Vec<u8>) -> (r: Option<
    TransferableLog,
>)
    ensures
        match r {
            Some(x) => spec_find_log(logs_view(logs@), inscription_id@) == Some(x@),
            None => spec_find_log(logs_view(logs@), inscription_id@) is None,
        },
{
    let n = logs.len();
    let mut i: usize = 0;
    proof {
        assert(logs_view(logs@).skip(0) =~= logs_view(logs@));
    }
    while i < n
        invariant
            n == logs.len(),
            0 <= i <= n,
            spec_find_log(logs_view(logs@), inscription_id@) == spec_find_log(
                logs_view(logs@).skip(i as int),
                inscription_id@,
            ),
        decreases n - i,
    {
        let x = &logs[i];
        proof {
            assert(logs_view(logs@).skip(i as int)[0] == logs@[i as int]@);
        }
        if bytes_equal(&x.inscription_id, inscription_id) {
            let found = TransferableLog {
                inscription_id: clone_bytes(&x.inscription_id),
                tick: clone_bytes(&x.tick),
                amount: x.amount,
            };
            return Some(found);
        }
        proof {
            assert(logs_view(logs@).skip(i as int).skip(1) =~= logs_view(logs@).skip(i + 1));
        }
        i = i + 1;
    }
    proof {
        assert(logs_view(logs@).skip(n as int).len() == 0);
    }
    None
}

// --- the reader ---

/// The public query API, bound to one borrowed transaction handle.
pub struct BRC20DatabaseReader<'a> {
    wrapper: ReaderWrapper<'a>,
}

/// Binds a reader to an in-progress read-write transaction; queries then
/// observe that transaction's pending writes.
pub fn new_with_wtx<'a>(wtx: &'a redb::WriteTransaction) -> (r: BRC20DatabaseReader<'a>)
    ensures
        !r.is_snapshot(),
{
    BRC20DatabaseReader { wrapper: ReaderWrapper::Wtx(wtx) }
}

impl<'a> BRC20DatabaseReader<'a> {
    /// The reader is bound to a read-only snapshot.
    pub closed spec fn is_snapshot(&self) -> bool {
        self.wrapper.is_snapshot()
    }

    /// The named table's contents as the backing snapshot observes them;
    /// meaningful when `is_snapshot` holds.
    pub closed spec fn snapshot_table(&self, name: Seq<char>) -> Map<Seq<u8>, Seq<u8>> {
        self.wrapper.snapshot_table(name)
    }

    /// Binds a reader to a read-only snapshot transaction: every query it
    /// answers reads that snapshot's view of the tables.
    pub fn new(rtx: &'a redb::ReadTransaction) -> (r: BRC20DatabaseReader<'a>)
        ensures
            r.is_snapshot(),
            forall|name: Seq<char>| #[trigger] r.snapshot_table(name) == ro_tx_table_view(
                *rtx,
                name,
            ),
    {
        BRC20DatabaseReader { wrapper: ReaderWrapper::Rtx(rtx) }
    }

    /// Point lookup of the balance of one (owner, ticker) pair.
    pub fn get_balance(&self, script_key: &ScriptKey, tick: &Ticker) -> (r: Result<
        Option<Balance>,
        LedgerError,
    >)
        ensures
            match r {
                Err(LedgerError::Table(_)) => true,
                Err(LedgerError::Storage(_)) => true,
                _ => exists|m: Map<Seq<u8>, Seq<u8>>|
                    #[trigger] balance_point_result(
                        m,
                        spec_script_tick_key(script_key@, tick@),
                        r,
                    ),
            },
            (self.is_snapshot() && !(r matches Err(LedgerError::Table(_))) && !(r matches Err(
                LedgerError::Storage(_),
            ))) ==> balance_point_result(
                self.snapshot_table("balances"@),
                spec_script_tick_key(script_key@, tick@),
                r,
            ),
    {
        proof {
            reveal_strlit("balances");
        }
        let tbl = match self.wrapper.open_table("balances") {
            Ok(t) => t,
            Err(e) => {
                return Err(LedgerError::Table(e));
            },
        };
        let key = script_tick_key(script_key, tick);
        let got = match tbl.get(&key) {
            Ok(o) => o,
            Err(e) => {
                return Err(LedgerError::Storage(e));
            },
        };
        let res: Result<Option<Balance>, LedgerError> = match got {
            None => Ok(None),
            Some(raw) => match decode_balance(&raw) {
                Some(b) => Ok(Some(b)),
                None => Err(LedgerError::Decode { table: TableId::Balances, key }),
            },
        };
        proof {
            assert(balance_point_result(tbl@, spec_script_tick_key(script_key@, tick@), res));
            if self.is_snapshot() {
                assert(tbl@ == self.snapshot_table("balances"@));
            }
        }
        res
    }

    /// Range scan of every balance record of one owner, in ascending
    /// ticker-key order.
    pub fn get_balances(&self, script_key: &ScriptKey) -> (r: Result<Vec<Balance>, LedgerError>)
        ensures
            match r {
                Err(LedgerError::Table(_)) => true,
                Err(LedgerError::Storage(_)) => true,
                _ => exists|m: Map<Seq<u8>, Seq<u8>>, es: Seq<(Seq<u8>, Seq<u8>)>|
                    #![trigger range_entries_ok(m, spec_min_script_tick_key(script_key@), spec_max_script_tick_key(script_key@), es)]
                    range_entries_ok(
                        m,
                        spec_min_script_tick_key(script_key@),
                        spec_max_script_tick_key(script_key@),
                        es,
                    ) && balances_from_entries_ok(es, r),
            },
            (self.is_snapshot() && !(r matches Err(LedgerError::Table(_))) && !(r matches Err(
                LedgerError::Storage(_),
            ))) ==> exists|es: Seq<(Seq<u8>, Seq<u8>)>|
                #![trigger balances_from_entries_ok(es, r)]
                range_entries_ok(
                    self.snapshot_table("balances"@),
                    spec_min_script_tick_key(script_key@),
                    spec_max_script_tick_key(script_key@),
                    es,
                ) && balances_from_entries_ok(es, r),
    {
        proof {
            reveal_strlit("balances");
        }
        let tbl = match self.wrapper.open_table("balances") {
            Ok(t) => t,
            Err(e) => {
                return Err(LedgerError::Table(e));
            },
        };
        let lo = min_script_tick_key(script_key);
        let hi = max_script_tick_key(script_key);
        let entries = match tbl.range(&lo, &hi) {
            Ok(es) => es,
            Err(e) => {
                return Err(LedgerError::Storage(e));
            },
        };
        let res = decode_balance_entries(&entries);
        proof {
            assert(range_entries_ok(
                tbl@,
                spec_min_script_tick_key(script_key@),
                spec_max_script_tick_key(script_key@),
                entries_view(entries@),
            ));
            if self.is_snapshot() {
                assert(tbl@ == self.snapshot_table("balances"@));
            }
        }
        res
    }

    /// Point lookup of one ticker's metadata record, keyed by the ticker's
    /// own encoding.
    pub fn get_token_info(&self, tick: &Ticker) -> (r: Result<Option<TokenInfo>, LedgerError>)
        ensures
            match r {
                Err(LedgerError::Table(_)) => true,
                Err(LedgerError::Storage(_)) => true,
                _ => exists|m: Map<Seq<u8>, Seq<u8>>| #[trigger] token_point_result(m, tick@, r),
            },
            (self.is_snapshot() && !(r matches Err(LedgerError::Table(_))) && !(r matches Err(
                LedgerError::Storage(_),
            ))) ==> token_point_result(self.snapshot_table("token_info"@), tick@, r),
    {
        proof {
            reveal_strlit("token_info");
        }
        let tbl = match self.wrapper.open_table("token_info") {
            Ok(t) => t,
            Err(e) => {
                return Err(LedgerError::Table(e));
            },
        };
        let key = clone_bytes(tick.as_bytes());
        let got = match tbl.get(&key) {
            Ok(o) => o,
            Err(e) => {
                return Err(LedgerError::Storage(e));
            },
        };
        let res: Result<Option<TokenInfo>, LedgerError> = match got {
            None => Ok(None),
            Some(raw) => match decode_token_info(&raw) {
                Some(t) => Ok(Some(t)),
                None => Err(LedgerError::Decode { table: TableId::TokenInfo, key }),
            },
        };
        proof {
            assert(token_point_result(tbl@, tick@, res));
            if self.is_snapshot() {
                assert(tbl@ == self.snapshot_table("token_info"@));
            }
        }
        res
    }

    /// Full scan of the token-info table, in ascending key order.
    pub fn get_tokens_info(&self) -> (r: Result<Vec<TokenInfo>, LedgerError>)
        ensures
            match r {
                Err(LedgerError::Table(_)) => true,
                Err(LedgerError::Storage(_)) => true,
                _ => exists|m: Map<Seq<u8>, Seq<u8>>, es: Seq<(Seq<u8>, Seq<u8>)>|
                    #![trigger all_entries_ok(m, es), tokens_from_entries_ok(es, r)]
                    all_entries_ok(m, es) && tokens_from_entries_ok(es, r),
            },
            (self.is_snapshot() && !(r matches Err(LedgerError::Table(_))) && !(r matches Err(
                LedgerError::Storage(_),
            ))) ==> exists|es: Seq<(Seq<u8>, Seq<u8>)>|
                #![trigger tokens_from_entries_ok(es, r)]
                all_entries_ok(self.snapshot_table("token_info"@), es) && tokens_from_entries_ok(
                    es,
                    r,
                ),
    {
        proof {
            reveal_strlit("token_info");
        }
        let tbl = match self.wrapper.open_table("token_info") {
            Ok(t) => t,
            Err(e) => {
                return Err(LedgerError::Table(e));
            },
        };
        let entries = match tbl.scan() {
            Ok(es) => es,
            Err(e) => {
                return Err(LedgerError::Storage(e));
            },
        };
        let res = decode_token_entries(&entries);
        proof {
            assert(all_entries_ok(tbl@, entries_view(entries@)));
            if self.is_snapshot() {
                assert(tbl@ == self.snapshot_table("token_info"@));
            }
        }
        res
    }

    /// Point lookup of the ordered receipt batch of one transaction
    /// identifier; an unknown identifier yields the empty batch.
    pub fn get_transaction_receipts(&self, txid: &Vec<u8>) -> (r: Result<
        Vec<ActionReceipt>,
        LedgerError,
    >)
        ensures
            match r {
                Err(LedgerError::Table(_)) => true,
                Err(LedgerError::Storage(_)) => true,
                _ => exists|m: Map<Seq<u8>, Seq<u8>>|
                    #[trigger] receipts_point_result(m, txid@, r),
            },
            (self.is_snapshot() && !(r matches Err(LedgerError::Table(_))) && !(r matches Err(
                LedgerError::Storage(_),
            ))) ==> receipts_point_result(self.snapshot_table("events"@), txid@, r),
    {
        proof {
            reveal_strlit("events");
        }
        let tbl = match self.wrapper.open_table("events") {
            Ok(t) => t,
            Err(e) => {
                return Err(LedgerError::Table(e));
            },
        };
        let key = clone_bytes(txid);
        let got = match tbl.get(&key) {
            Ok(o) => o,
            Err(e) => {
                return Err(LedgerError::Storage(e));
            },
        };
        let res: Result<Vec<ActionReceipt>, LedgerError> = match got {
            None => Ok(Vec::new()),
            Some(raw) => match decode_receipts(&raw) {
                Some(v) => Ok(v),
                None => Err(LedgerError::Decode { table: TableId::Events, key }),
            },
        };
        proof {
            assert(receipts_point_result(tbl@, txid@, res));
            if self.is_snapshot() {
                assert(tbl@ == self.snapshot_table("events"@));
            }
        }
        res
    }

    /// Range scan of every transferable-log batch of one owner,
    /// concatenated in key order then in-batch order.
    pub fn get_transferable(&self, script_key: &ScriptKey) -> (r: Result<
        Vec<TransferableLog>,
        LedgerError,
    >)
        ensures
            match r {
                Err(LedgerError::Table(_)) => true,
                Err(LedgerError::Storage(_)) => true,
                _ => exists|m: Map<Seq<u8>, Seq<u8>>, es: Seq<(Seq<u8>, Seq<u8>)>|
                    #![trigger range_entries_ok(m, spec_min_script_tick_key(script_key@), spec_max_script_tick_key(script_key@), es)]
                    range_entries_ok(
                        m,
                        spec_min_script_tick_key(script_key@),
                        spec_max_script_tick_key(script_key@),
                        es,
                    ) && transferables_from_entries_ok(es, r),
            },
            (self.is_snapshot() && !(r matches Err(LedgerError::Table(_))) && !(r matches Err(
                LedgerError::Storage(_),
            ))) ==> exists|es: Seq<(Seq<u8>, Seq<u8>)>|
                #![trigger transferables_from_entries_ok(es, r)]
                range_entries_ok(
                    self.snapshot_table("transferable_log"@),
                    spec_min_script_tick_key(script_key@),
                    spec_max_script_tick_key(script_key@),
                    es,
                ) && transferables_from_entries_ok(es, r),
    {
        proof {
            reveal_strlit("transferable_log");
        }
        let tbl = match self.wrapper.open_table("transferable_log") {
            Ok(t) => t,
            Err(e) => {
                return Err(LedgerError::Table(e));
            },
        };
        let lo = min_script_tick_key(script_key);
        let hi = max_script_tick_key(script_key);
        let entries = match tbl.range(&lo, &hi) {
            Ok(es) => es,
            Err(e) => {
                return Err(LedgerError::Storage(e));
            },
        };
        let res = flatten_transferable_entries(&entries);
        proof {
            assert(range_entries_ok(
                tbl@,
                spec_min_script_tick_key(script_key@),
                spec_max_script_tick_key(script_key@),
                entries_view(entries@),
            ));
            if self.is_snapshot() {
                assert(tbl@ == self.snapshot_table("transferable_log"@));
            }
        }
        res
    }

    /// Point lookup of the transferable-log batch of one (owner, ticker)
    /// pair, in stored order; an absent key yields the empty batch.
    pub fn get_transferable_by_tick(&self, script_key: &ScriptKey, tick: &Ticker) -> (r: Result<
        Vec<TransferableLog>,
        LedgerError,
    >)
        ensures
            match r {
                Err(LedgerError::Table(_)) => true,
                Err(LedgerError::Storage(_)) => true,
                _ => exists|m: Map<Seq<u8>, Seq<u8>>|
                    #[trigger] logs_point_result(
                        m,
                        spec_script_tick_key(script_key@, tick@),
                        r,
                    ),
            },
            (self.is_snapshot() && !(r matches Err(LedgerError::Table(_))) && !(r matches Err(
                LedgerError::Storage(_),
            ))) ==> logs_point_result(
                self.snapshot_table("transferable_log"@),
                spec_script_tick_key(script_key@, tick@),
                r,
            ),
    {
        proof {
            reveal_strlit("transferable_log");
        }
        let tbl = match self.wrapper.open_table("transferable_log") {
            Ok(t) => t,
            Err(e) => {
                return Err(LedgerError::Table(e));
            },
        };
        let key = script_tick_key(script_key, tick);
        let got = match tbl.get(&key) {
            Ok(o) => o,
            Err(e) => {
                return Err(LedgerError::Storage(e));
            },
        };
        let res: Result<Vec<TransferableLog>, LedgerError> = match got {
            None => Ok(Vec::new()),
            Some(raw) => match decode_transferables(&raw) {
                Some(v) => Ok(v),
                None => Err(
                    LedgerError::Decode { table: TableId::TransferableLog, key },
                ),
            },
        };
        proof {
            assert(logs_point_result(tbl@, spec_script_tick_key(script_key@, tick@), res));
            if self.is_snapshot() {
                assert(tbl@ == self.snapshot_table("transferable_log"@));
            }
        }
        res
    }

    /// Linear scan of one (owner, ticker) batch for the first entry with
    /// the given inscription identifier.
    pub fn get_transferable_by_id(
        &self,
        script_key: &ScriptKey,
        tick: &Ticker,
        inscription_id: &Vec<u8>,
    ) -> (r: Result<Option<TransferableLog>, LedgerError>)
        ensures
            match r {
                Err(LedgerError::Table(_)) => true,
                Err(LedgerError::Storage(_)) => true,
                _ => exists|m: Map<Seq<u8>, Seq<u8>>|
                    #[trigger] log_by_id_result(
                        m,
                        spec_script_tick_key(script_key@, tick@),
                        inscription_id@,
                        r,
                    ),
            },
            (self.is_snapshot() && !(r matches Err(LedgerError::Table(_))) && !(r matches Err(
                LedgerError::Storage(_),
            ))) ==> log_by_id_result(
                self.snapshot_table("transferable_log"@),
                spec_script_tick_key(script_key@, tick@),
                inscription_id@,
                r,
            ),
    {
        let ghost k = spec_script_tick_key(script_key@, tick@);
        let inner_r = self.get_transferable_by_tick(script_key, tick);
        let ghost ginner = inner_r;
        let logs = match inner_r {
            Ok(v) => v,
            Err(e) => {
                proof {
                    if !(e matches LedgerError::Table(_)) && !(e matches LedgerError::Storage(
                        _,
                    )) {
                        let m0 = choose|m: Map<Seq<u8>, Seq<u8>>|
                            #[trigger] logs_point_result(m, k, ginner);
                        assert(logs_point_result(m0, k, ginner));
                        assert(log_by_id_result(
                            m0,
                            k,
                            inscription_id@,
                            Err::<Option<TransferableLog>, LedgerError>(e),
                        ));
                        if self.is_snapshot() {
                            let st = self.snapshot_table("transferable_log"@);
                            assert(logs_point_result(st, k, ginner));
                            assert(log_by_id_result(
                                st,
                                k,
                                inscription_id@,
                                Err::<Option<TransferableLog>, LedgerError>(e),
                            ));
                        }
                    }
                }
                return Err(e);
            },
        };
        let ghost inner: Result<Vec<TransferableLog>, LedgerError> = Ok(logs);
        proof {
            assert(exists|m: Map<Seq<u8>, Seq<u8>>| #[trigger] logs_point_result(m, k, inner));
        }
        let ghost m = choose|m: Map<Seq<u8>, Seq<u8>>| #[trigger] logs_point_result(m, k, inner);
        let found = find_transferable(&logs, inscription_id);
        let res: Result<Option<TransferableLog>, LedgerError> = Ok(found);
        proof {
            if !m.contains_key(k) {
                assert(logs_view(logs@).len() == 0);
                assert(log_by_id_result(m, k, inscription_id@, res));
            } else {
                assert(log_by_id_result(m, k, inscription_id@, res));
            }
            if self.is_snapshot() {
                let st = self.snapshot_table("transferable_log"@);
                assert(logs_point_result(st, k, inner));
                if !st.contains_key(k) {
                    assert(logs_view(logs@).len() == 0);
                }
                assert(log_by_id_result(st, k, inscription_id@, res));
            }
        }
        res
    }
}


// --- laws of the query surface ---

/// The search misses exactly when no entry carries the identifier.
pub proof fn lemma_find_log_none(s: Seq<TransferableLogV>, id: Seq<u8>)
    ensures
        (spec_find_log(s, id) is None) <==> (forall|i: int|
            0 <= i < s.len() ==> (#[trigger] s[i]).inscription_id != id),
    decreases s.len(),
{
    if s.len() > 0 {
        lemma_find_log_none(s.skip(1), id);
        assert(forall|i: int| 0 <= i < s.skip(1).len() ==> #[trigger] s.skip(1)[i] == s[i + 1]);
        if s[0].inscription_id != id {
            if spec_find_log(s, id) is None {
                assert(forall|i: int|
                    0 < i < s.len() ==> (#[trigger] s[i]).inscription_id != id) by {
                    assert(forall|i: int|
                        0 < i < s.len() ==> #[trigger] s[i] == s.skip(1)[i - 1]);
                }
            }
        }
    }
}

/// With exactly one entry carrying the identifier, the search returns that
/// entry.
pub proof fn lemma_find_log_unique(s: Seq<TransferableLogV>, id: Seq<u8>, i: int)
    requires
        0 <= i < s.len(),
        s[i].inscription_id == id,
        forall|j: int|
            0 <= j < s.len() && j != i ==> (#[trigger] s[j]).inscription_id != id,
    ensures
        spec_find_log(s, id) == Some(s[i]),
    decreases s.len(),
{
    if i == 0 {
    } else {
        assert(s[0].inscription_id != id);
        assert(forall|j: int| 0 <= j < s.skip(1).len() ==> #[trigger] s.skip(1)[j] == s[j + 1]);
        lemma_find_log_unique(s.skip(1), id, i - 1);
    }
}

/// A range scan of one owner's key range returns the records of any two of
/// that owner's tickers, in ascending ticker order.
pub proof fn lemma_owner_scan_complete_ordered(
    m: Map<Seq<u8>, Seq<u8>>,
    es: Seq<(Seq<u8>, Seq<u8>)>,
    o: Seq<u8>,
    t1: Seq<u8>,
    t2: Seq<u8>,
)
    requires
        range_entries_ok(m, spec_min_script_tick_key(o), spec_max_script_tick_key(o), es),
        valid_tick_bytes(t1),
        valid_tick_bytes(t2),
        lex_lt(t1, t2),
        m.contains_key(spec_script_tick_key(o, t1)),
        m.contains_key(spec_script_tick_key(o, t2)),
    ensures
        exists|i: int, j: int|
            0 <= i < j < es.len() && #[trigger] es[i] == (
                spec_script_tick_key(o, t1),
                m[spec_script_tick_key(o, t1)],
            ) && #[trigger] es[j] == (
                spec_script_tick_key(o, t2),
                m[spec_script_tick_key(o, t2)],
            ),
{
    let k1 = spec_script_tick_key(o, t1);
    let k2 = spec_script_tick_key(o, t2);
    lemma_point_key_in_owner_range(o, t1);
    lemma_point_key_in_owner_range(o, t2);
    lemma_point_key_order(o, t1, t2);
    assert(exists|i: int| 0 <= i < es.len() && (#[trigger] es[i]).0 == k1);
    assert(exists|j: int| 0 <= j < es.len() && (#[trigger] es[j]).0 == k2);
    let i = choose|i: int| 0 <= i < es.len() && (#[trigger] es[i]).0 == k1;
    let j = choose|j: int| 0 <= j < es.len() && (#[trigger] es[j]).0 == k2;
    assert(es[i].1 == m[k1]);
    assert(es[j].1 == m[k2]);
    lemma_lex_irrefl(k1);
    lemma_lex_asym(k1, k2);
    if j == i {
        assert(lex_lt(k1, k1));
    } else if j < i {
        assert(lex_lt(es[j].0, es[i].0));
    }
    assert(es[i] == (k1, m[k1]));
    assert(es[j] == (k2, m[k2]));
}


/// Round trip through the store: when the balances table holds exactly the
/// encoding of `b` under the point key, `get_balance` returns `b`.
pub proof fn lemma_get_balance_roundtrip(
    m: Map<Seq<u8>, Seq<u8>>,
    k: Seq<u8>,
    b: Balance,
    r: Result<Option<Balance>, LedgerError>,
)
    requires
        m.contains_key(k),
        m[k] == crate::codec::spec_encode_balance(b),
        balance_point_result(m, k, r),
    ensures
        r == Ok::<Option<Balance>, LedgerError>(Some(b)),
{
    crate::codec::lemma_balance_codec_complete(b);
}


/// On one table contents, a balance point lookup is determined: any two
/// results the predicate admits agree, up to byte-copy identity of the
/// diagnostic key. Combined with the snapshot clause of `get_balance`, two
/// calls through one snapshot-bound reader agree.
pub proof fn lemma_balance_lookup_deterministic(
    m: Map<Seq<u8>, Seq<u8>>,
    k: Seq<u8>,
    r1: Result<Option<Balance>, LedgerError>,
    r2: Result<Option<Balance>, LedgerError>,
)
    requires
        balance_point_result(m, k, r1),
        balance_point_result(m, k, r2),
    ensures
        match (r1, r2) {
            (Ok(o1), Ok(o2)) => o1 == o2,
            (
                Err(LedgerError::Decode { table: ta, key: ka }),
                Err(LedgerError::Decode { table: tb, key: kb }),
            ) => ta == tb && ka@ == kb@,
            _ => false,
        },
{
}

/// On one table contents, a token point lookup is determined. With
/// `Ticker::new`'s normalization, two tickers differing only in letter
/// case build the same key, so two such lookups on one snapshot agree.
pub proof fn lemma_token_lookup_deterministic(
    m: Map<Seq<u8>, Seq<u8>>,
    k: Seq<u8>,
    r1: Result<Option<TokenInfo>, LedgerError>,
    r2: Result<Option<TokenInfo>, LedgerError>,
)
    requires
        token_point_result(m, k, r1),
        token_point_result(m, k, r2),
    ensures
        match (r1, r2) {
            (Ok(o1), Ok(o2)) => match (o1, o2) {
                (Some(a), Some(b)) => a@ == b@,
                (None, None) => true,
                _ => false,
            },
            (
                Err(LedgerError::Decode { table: ta, key: ka }),
                Err(LedgerError::Decode { table: tb, key: kb }),
            ) => ta == tb && ka@ == kb@,
            _ => false,
        },
{
}

/// No entry of one owner's range scan carries a key built for a different
/// owner, whatever the ticker part.
pub proof fn lemma_owner_scan_excludes(
    m: Map<Seq<u8>, Seq<u8>>,
    es: Seq<(Seq<u8>, Seq<u8>)>,
    o: Seq<u8>,
    o2: Seq<u8>,
    t: Seq<u8>,
    i: int,
)
    requires
        range_entries_ok(m, spec_min_script_tick_key(o), spec_max_script_tick_key(o), es),
        valid_owner_bytes(o),
        valid_owner_bytes(o2),
        o != o2,
        0 <= i < es.len(),
    ensures
        es[i].0 != spec_script_tick_key(o2, t),
{
    if es[i].0 == spec_script_tick_key(o2, t) {
        assert(m.contains_key(es[i].0) && lex_le(spec_min_script_tick_key(o), es[i].0)
            && lex_lt(es[i].0, spec_max_script_tick_key(o)));
        lemma_owner_ranges_disjoint(o, o2, t);
    }
}


/// Two-record scan, composed down to the result: when one owner's balances
/// table holds the encodings of `b1` and `b2` under tickers in order, a
/// successful scan result carries `b1` before `b2`.
pub proof fn lemma_get_balances_two_records(
    m: Map<Seq<u8>, Seq<u8>>,
    es: Seq<(Seq<u8>, Seq<u8>)>,
    o: Seq<u8>,
    t1: Seq<u8>,
    t2: Seq<u8>,
    b1: Balance,
    b2: Balance,
    v: Vec<Balance>,
)
    requires
        range_entries_ok(m, spec_min_script_tick_key(o), spec_max_script_tick_key(o), es),
        balances_from_entries_ok(es, Ok::<Vec<Balance>, LedgerError>(v)),
        valid_tick_bytes(t1),
        valid_tick_bytes(t2),
        lex_lt(t1, t2),
        m.contains_key(spec_script_tick_key(o, t1)),
        m[spec_script_tick_key(o, t1)] == crate::codec::spec_encode_balance(b1),
        m.contains_key(spec_script_tick_key(o, t2)),
        m[spec_script_tick_key(o, t2)] == crate::codec::spec_encode_balance(b2),
    ensures
        exists|i: int, j: int| 0 <= i < j < v@.len() && v@[i] == b1 && v@[j] == b2,
{
    let k1 = spec_script_tick_key(o, t1);
    let k2 = spec_script_tick_key(o, t2);
    lemma_owner_scan_complete_ordered(m, es, o, t1, t2);
    let (i, j): (int, int) = choose|i: int, j: int|
        0 <= i < j < es.len() && #[trigger] es[i] == (k1, m[k1]) && #[trigger] es[j] == (
            k2,
            m[k2],
        );
    crate::codec::lemma_balance_codec_complete(b1);
    crate::codec::lemma_balance_codec_complete(b2);
    assert(spec_decode_balance(es[i].1) == Some(v@[i]));
    assert(spec_decode_balance(es[j].1) == Some(v@[j]));
    assert(v@[i] == b1);
    assert(v@[j] == b2);
}

/// Exclusion, composed down to the result: every element of a successful
/// scan of one owner was decoded from an entry of that owner's key range,
/// and that entry's key is no point key of any different owner.
pub proof fn lemma_get_balances_excludes_other_owners(
    m: Map<Seq<u8>, Seq<u8>>,
    es: Seq<(Seq<u8>, Seq<u8>)>,
    o: Seq<u8>,
    o2: Seq<u8>,
    t: Seq<u8>,
    v: Vec<Balance>,
    i: int,
)
    requires
        range_entries_ok(m, spec_min_script_tick_key(o), spec_max_script_tick_key(o), es),
        balances_from_entries_ok(es, Ok::<Vec<Balance>, LedgerError>(v)),
        valid_owner_bytes(o),
        valid_owner_bytes(o2),
        o != o2,
        0 <= i < v@.len(),
    ensures
        v@.len() == es.len(),
        spec_decode_balance(es[i].1) == Some(v@[i]),
        es[i].0 != spec_script_tick_key(o2, t),
{
    lemma_owner_scan_excludes(m, es, o, o2, t, i);
}

} // verus!
