//! Trusted boundary to the storage engine.
//!
//! The engine (redb) is an embedded, transactional, sorted key-value store.
//! This module declares the engine types the crate touches, names the
//! contents of an open table as a map from byte keys to byte values, and
//! wraps the few engine calls the queries make. Everything else in the
//! crate is verified against these contracts.

use vstd::prelude::*;

use crate::order::{lex_le, lex_lt};

verus! {

#[verifier::external_type_specification]
#[verifier::external_body]
pub struct ExReadTransaction(redb::ReadTransaction);

#[verifier::external_type_specification]
#[verifier::external_body]
pub struct ExWriteTransaction(redb::WriteTransaction);

#[verifier::external_type_specification]
#[verifier::external_body]
pub struct ExTableError(redb::TableError);

#[verifier::external_type_specification]
#[verifier::external_body]
pub struct ExStorageError(redb::StorageError);

/// A table handle of a read-only snapshot, held opaquely: Verus sees the
/// handle only through `ro_table_view` and the wrappers below.
#[verifier::external_body]
pub struct RoTableHandle {
    inner: redb::ReadOnlyTable<&'static [u8], &'static [u8]>,
}

/// A table handle of an in-progress read-write transaction, held opaquely:
/// Verus sees the handle only through `rw_table_view` and the wrappers
/// below.
#[verifier::external_body]
pub struct RwTableHandle<'txn> {
    inner: redb::Table<'txn, &'static [u8], &'static [u8]>,
}

/// Contents of a table opened under a read-only transaction, as a map from
/// byte key to byte value. A snapshot is immutable, so the contents belong
/// to the handle.
pub uninterp spec fn ro_table_view(t: RoTableHandle) -> Map<Seq<u8>, Seq<u8>>;

/// Contents of the named table as one read-only transaction observes them.
/// A snapshot is an immutable point-in-time view, so the contents are fixed
/// by the transaction and the name alone, however often the table is
/// opened; `open_ro_table` ties every handle it returns to this view.
pub uninterp spec fn ro_tx_table_view(
    rtx: redb::ReadTransaction,
    name: Seq<char>,
) -> Map<Seq<u8>, Seq<u8>>;

/// Contents of a table opened under a read-write transaction. While the
/// handle exists it is the table's only handle, so the contents belong to
/// the handle.
pub uninterp spec fn rw_table_view(t: RwTableHandle) -> Map<Seq<u8>, Seq<u8>>;

/// Views of a list of raw (key, value) entries.
pub open spec fn entries_view(es: Seq<(Vec<u8>, Vec<u8>)>) -> Seq<(Seq<u8>, Seq<u8>)> {
    es.map_values(|p: (Vec<u8>, Vec<u8>)| (p.0@, p.1@))
}

/// `es` is exactly the entry list of `m` restricted to keys `lo <= k < hi`,
/// in ascending key order.
pub open spec fn range_entries_ok(
    m: Map<Seq<u8>, Seq<u8>>,
    lo: Seq<u8>,
    hi: Seq<u8>,
    es: Seq<(Seq<u8>, Seq<u8>)>,
) -> bool {
    &&& forall|i: int|
        0 <= i < es.len() ==> m.contains_key(#[trigger] es[i].0) && es[i].1 == m[es[i].0]
            && lex_le(lo, es[i].0) && lex_lt(es[i].0, hi)
    &&& forall|i: int, j: int| 0 <= i < j < es.len() ==> lex_lt(#[trigger] es[i].0, #[trigger] es[j].0)
    &&& forall|k: Seq<u8>|
        #[trigger] m.contains_key(k) && lex_le(lo, k) && lex_lt(k, hi) ==> exists|i: int|
            0 <= i < es.len() && (#[trigger] es[i]).0 == k
}

/// `es` is exactly the entry list of all of `m`, in ascending key order.
pub open spec fn all_entries_ok(m: Map<Seq<u8>, Seq<u8>>, es: Seq<(Seq<u8>, Seq<u8>)>) -> bool {
    &&& forall|i: int|
        0 <= i < es.len() ==> m.contains_key(#[trigger] es[i].0) && es[i].1 == m[es[i].0]
    &&& forall|i: int, j: int| 0 <= i < j < es.len() ==> lex_lt(#[trigger] es[i].0, #[trigger] es[j].0)
    &&& forall|k: Seq<u8>|
        #[trigger] m.contains_key(k) ==> exists|i: int| 0 <= i < es.len() && (#[trigger] es[i]).0 == k
}

/// Relies on redb::ReadTransaction::open_table: opens the named table of the
/// snapshot read-only, or fails with a TableError (in particular when no
/// such table exists). Every successful open of one name under one snapshot
/// observes the same contents: the snapshot's view of that table.
#[verifier::external_body]
fn open_ro_table(rtx: &redb::ReadTransaction, name: &str) -> (r: Result<
    RoTableHandle,
    redb::TableError,
>)
    requires
        name@.len() > 0,
    ensures
        r matches Ok(t) ==> ro_table_view(t) == ro_tx_table_view(*rtx, name@),
{
    match rtx.open_table(redb::TableDefinition::new(name)) {
        Ok(t) => Ok(RoTableHandle { inner: t }),
        Err(e) => Err(e),
    }
}

/// Relies on redb::WriteTransaction::open_table: opens (creating it when
/// missing) the named table of the in-progress transaction, or fails with a
/// TableError (in particular when the table is already open).
#[verifier::external_body]
fn open_rw_table<'txn>(wtx: &'txn redb::WriteTransaction, name: &str) -> (r: Result<
    RwTableHandle<'txn>,
    redb::TableError,
>)
    requires
        name@.len() > 0,
{
    match wtx.open_table(redb::TableDefinition::new(name)) {
        Ok(t) => Ok(RwTableHandle { inner: t }),
        Err(e) => Err(e),
    }
}

/// Relies on redb::ReadOnlyTable::get: an exact point lookup in the table's
/// ordered index; absence is `None`, not an error.
#[verifier::external_body]
fn ro_table_get(
    t: &RoTableHandle,
    key: &Vec<u8>,
) -> (r: Result<Option<Vec<u8>>, redb::StorageError>)
    ensures
        match r {
            Ok(Some(v)) => ro_table_view(*t).contains_key(key@) && v@ == ro_table_view(*t)[key@],
            Ok(None) => !ro_table_view(*t).contains_key(key@),
            Err(_) => true,
        },
{
    match t.inner.get(key.as_slice()) {
        Ok(opt) => Ok(opt.map(|g| g.value().to_vec())),
        Err(e) => Err(e),
    }
}

/// Relies on redb::Table::get (through ReadableTable): the same point
/// lookup on a table of the in-progress transaction.
#[verifier::external_body]
fn rw_table_get(
    t: &RwTableHandle,
    key: &Vec<u8>,
) -> (r: Result<Option<Vec<u8>>, redb::StorageError>)
    ensures
        match r {
            Ok(Some(v)) => rw_table_view(*t).contains_key(key@) && v@ == rw_table_view(*t)[key@],
            Ok(None) => !rw_table_view(*t).contains_key(key@),
            Err(_) => true,
        },
{
    match redb::ReadableTable::get(&t.inner, key.as_slice()) {
        Ok(opt) => Ok(opt.map(|g| g.value().to_vec())),
        Err(e) => Err(e),
    }
}

/// Relies on redb::ReadOnlyTable::range with bounds `lower..upper`: the
/// entries with `lower <= key < upper` in ascending byte order of keys, from
/// the table's ordered index.
#[verifier::external_body]
fn ro_table_range(
    t: &RoTableHandle,
    lower: &Vec<u8>,
    upper: &Vec<u8>,
) -> (r: Result<Vec<(Vec<u8>, Vec<u8>)>, redb::StorageError>)
    ensures
        match r {
            Ok(es) => range_entries_ok(ro_table_view(*t), lower@, upper@, entries_view(es@)),
            Err(_) => true,
        },
{
    match t.inner.range(lower.as_slice()..upper.as_slice()) {
        Ok(it) => it.map(
            |x| x.map(|(k, v)| (k.value().to_vec(), v.value().to_vec())),
        ).collect(),
        Err(e) => Err(e),
    }
}

/// Relies on redb::Table::range (through ReadableTable) with bounds
/// `lower..upper`: the same range scan on a table of the in-progress
/// transaction.
#[verifier::external_body]
fn rw_table_range(
    t: &RwTableHandle,
    lower: &Vec<u8>,
    upper: &Vec<u8>,
) -> (r: Result<Vec<(Vec<u8>, Vec<u8>)>, redb::StorageError>)
    ensures
        match r {
            Ok(es) => range_entries_ok(rw_table_view(*t), lower@, upper@, entries_view(es@)),
            Err(_) => true,
        },
{
    match redb::ReadableTable::range(&t.inner, lower.as_slice()..upper.as_slice()) {
        Ok(it) => it.map(
            |x| x.map(|(k, v)| (k.value().to_vec(), v.value().to_vec())),
        ).collect(),
        Err(e) => Err(e),
    }
}

/// Relies on redb::ReadOnlyTable::range with unbounded range: every entry of
/// the table in ascending byte order of keys.
#[verifier::external_body]
fn ro_table_scan(
    t: &RoTableHandle,
) -> (r: Result<Vec<(Vec<u8>, Vec<u8>)>, redb::StorageError>)
    ensures
        match r {
            Ok(es) => all_entries_ok(ro_table_view(*t), entries_view(es@)),
            Err(_) => true,
        },
{
    match t.inner.range::<&[u8]>(..) {
        Ok(it) => it.map(
            |x| x.map(|(k, v)| (k.value().to_vec(), v.value().to_vec())),
        ).collect(),
        Err(e) => Err(e),
    }
}

/// Relies on redb::Table::range (through ReadableTable) with unbounded
/// range: every entry of the table in ascending byte order of keys.
#[verifier::external_body]
fn rw_table_scan(
    t: &RwTableHandle,
) -> (r: Result<Vec<(Vec<u8>, Vec<u8>)>, redb::StorageError>)
    ensures
        match r {
            Ok(es) => all_entries_ok(rw_table_view(*t), entries_view(es@)),
            Err(_) => true,
        },
{
    match redb::ReadableTable::range::<&[u8]>(&t.inner, ..) {
        Ok(it) => it.map(
            |x| x.map(|(k, v)| (k.value().to_vec(), v.value().to_vec())),
        ).collect(),
        Err(e) => Err(e),
    }
}

/// A table opened for reading, whichever transaction variant backs it. Both
/// variants expose the same point-get and range-scan semantics over the
/// same view, so every caller is oblivious to the variant.
pub enum TableWrapper<'txn> {
    RtxTable(RoTableHandle),
    WtxTable(RwTableHandle<'txn>),
}

impl<'txn> View for TableWrapper<'txn> {
    type V = Map<Seq<u8>, Seq<u8>>;

    open spec fn view(&self) -> Map<Seq<u8>, Seq<u8>> {
        match self {
            TableWrapper::RtxTable(t) => ro_table_view(*t),
            TableWrapper::WtxTable(t) => rw_table_view(*t),
        }
    }
}

impl<'txn> TableWrapper<'txn> {
    /// Point lookup: the stored value under exactly this key, or `None`.
    pub fn get(&self, key: &Vec<u8>) -> (r: Result<Option<Vec<u8>>, redb::StorageError>)
        ensures
            match r {
                Ok(Some(v)) => self@.contains_key(key@) && v@ == self@[key@],
                Ok(None) => !self@.contains_key(key@),
                Err(_) => true,
            },
    {
        match self {
            TableWrapper::RtxTable(t) => ro_table_get(t, key),
            TableWrapper::WtxTable(t) => rw_table_get(t, key),
        }
    }

    /// Range scan: the entries with `lower <= key < upper`, ascending.
    pub fn range(&self, lower: &Vec<u8>, upper: &Vec<u8>) -> (r: Result<
        Vec<(Vec<u8>, Vec<u8>)>,
        redb::StorageError,
    >)
        ensures
            match r {
                Ok(es) => range_entries_ok(self@, lower@, upper@, entries_view(es@)),
                Err(_) => true,
            },
    {
        match self {
            TableWrapper::RtxTable(t) => ro_table_range(t, lower, upper),
            TableWrapper::WtxTable(t) => rw_table_range(t, lower, upper),
        }
    }

    /// Full scan: every entry of the table, ascending.
    pub fn scan(&self) -> (r: Result<Vec<(Vec<u8>, Vec<u8>)>, redb::StorageError>)
        ensures
            match r {
                Ok(es) => all_entries_ok(self@, entries_view(es@)),
                Err(_) => true,
            },
    {
        match self {
            TableWrapper::RtxTable(t) => ro_table_scan(t),
            TableWrapper::WtxTable(t) => rw_table_scan(t),
        }
    }
}

/// A borrowed transaction handle, whichever variant the caller holds:
/// a read-only snapshot or an in-progress read-write transaction.
pub enum ReaderWrapper<'a> {
    Rtx(&'a redb::ReadTransaction),
    Wtx(&'a redb::WriteTransaction),
}

impl<'a> ReaderWrapper<'a> {
    /// The handle is the read-only snapshot variant.
    pub open spec fn is_snapshot(&self) -> bool {
        self matches ReaderWrapper::Rtx(_)
    }

    /// The named table's contents as the backing snapshot observes them;
    /// meaningful for the snapshot variant only.
    pub open spec fn snapshot_table(&self, name: Seq<char>) -> Map<Seq<u8>, Seq<u8>>
        recommends
            self.is_snapshot(),
    {
        match self {
            ReaderWrapper::Rtx(rtx) => ro_tx_table_view(**rtx, name),
            ReaderWrapper::Wtx(_) => Map::empty(),
        }
    }

    /// Opens the named table for reading under this transaction: a success
    /// is the accessor of the matching variant, and under a snapshot it
    /// holds the snapshot's view of the named table.
    pub fn open_table(&self, name: &str) -> (r: Result<TableWrapper<'a>, redb::TableError>)
        requires
            name@.len() > 0,
        ensures
            match r {
                Ok(tw) => {
                    &&& (self matches ReaderWrapper::Rtx(_) <==> tw matches
                        TableWrapper::RtxTable(_))
                    &&& (self.is_snapshot() ==> tw@ == self.snapshot_table(name@))
                },
                Err(_) => true,
            },
    {
        match self {
            ReaderWrapper::Rtx(rtx) => match open_ro_table(rtx, name) {
                Ok(t) => Ok(TableWrapper::RtxTable(t)),
                Err(e) => Err(e),
            },
            ReaderWrapper::Wtx(wtx) => match open_rw_table(wtx, name) {
                Ok(t) => Ok(TableWrapper::WtxTable(t)),
                Err(e) => Err(e),
            },
        }
    }
}

} // verus!
