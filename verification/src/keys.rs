//! Composite-key codec.
//!
//! A point key is `owner ++ SEPARATOR ++ ticker`; the scan bounds of one
//! owner are `owner ++ SEPARATOR` (inclusive) and `owner ++ SEPARATOR ++
//! SENTINEL` (exclusive). The separator byte is reserved out of the owner
//! alphabet and the sentinel byte out of the ticker alphabet, so the range
//! of one owner can hold every point key of that owner and no key of any
//! other owner.

use vstd::prelude::*;

use crate::order::{
    lemma_lex_irrefl, lemma_lex_lt_prefix, lemma_lex_lt_proper_prefix, lex_le, lex_lt,
};

verus! {

/// Separator between the owner part and the ticker part of a point key;
/// reserved: no owner encoding contains it.
pub const KEY_SEPARATOR: u8 = 0;

/// Byte sorting after every ticker byte; reserved: no ticker encoding
/// contains it.
pub const TICKER_SENTINEL: u8 = 255;

/// An owner encoding is usable as a key part when it is non-empty and does
/// not contain the separator byte.
pub open spec fn valid_owner_bytes(s: Seq<u8>) -> bool {
    s.len() > 0 && forall|i: int| 0 <= i < s.len() ==> #[trigger] s[i] != KEY_SEPARATOR
}

/// A ticker encoding is usable as a key part when it is non-empty and every
/// byte sorts strictly between the separator and the sentinel.
pub open spec fn valid_tick_bytes(s: Seq<u8>) -> bool {
    s.len() > 0 && forall|i: int| 0 <= i < s.len()
        ==> KEY_SEPARATOR < #[trigger] s[i] < TICKER_SENTINEL
}

/// Lowercase image of one ASCII byte.
pub open spec fn lower_byte(b: u8) -> u8 {
    if 65 <= b <= 90 {
        (b + 32) as u8
    } else {
        b
    }
}

/// Lowercase-normalized image of a ticker encoding.
pub open spec fn normalize_tick(s: Seq<u8>) -> Seq<u8> {
    s.map_values(|b: u8| lower_byte(b))
}

/// Opaque identifier of a ledger account; its bytes are used only to build
/// keys and are never interpreted.
#[derive(Clone, Debug, PartialEq, Eq)]
pub struct ScriptKey {
    bytes: Vec<u8>,
}

impl View for ScriptKey {
    type V = Seq<u8>;

    closed spec fn view(&self) -> Seq<u8> {
        self.bytes@
    }
}

impl ScriptKey {
    /// Accepts exactly the byte strings that are usable as an owner key part.
    pub fn new(bytes: Vec<u8>) -> (r: Option<ScriptKey>)
        ensures
            match r {
                Some(k) => valid_owner_bytes(bytes@) && k@ == bytes@,
                None => !valid_owner_bytes(bytes@),
            },
    {
        if bytes.len() == 0 {
            return None;
        }
        let n = bytes.len();
        let mut i: usize = 0;
        while i < n
            invariant
                n == bytes.len(),
                0 <= i <= n,
                forall|j: int| 0 <= j < i ==> #[trigger] bytes@[j] != KEY_SEPARATOR,
            decreases n - i,
        {
            if bytes[i] == KEY_SEPARATOR {
                return None;
            }
            i = i + 1;
        }
        Some(ScriptKey { bytes })
    }

    /// The owner encoding is valid by construction.
    pub open spec fn wf(&self) -> bool {
        valid_owner_bytes(self@)
    }

    /// The raw bytes of the encoding.
    pub fn as_bytes(&self) -> (r: &Vec<u8>)
        ensures
            r@ == self@,
    {
        &self.bytes
    }
}

/// A token identifier, lowercase-normalized on construction; its bytes are
/// the canonical encoding used to build keys.
#[derive(Clone, Debug, PartialEq, Eq)]
pub struct Ticker {
    bytes: Vec<u8>,
}

impl View for Ticker {
    type V = Seq<u8>;

    closed spec fn view(&self) -> Seq<u8> {
        self.bytes@
    }
}

impl Ticker {
    /// Accepts exactly the byte strings that are usable as a ticker key
    /// part, and stores the lowercase-normalized form.
    pub fn new(bytes: Vec<u8>) -> (r: Option<Ticker>)
        ensures
            match r {
                Some(t) => valid_tick_bytes(bytes@) && t@ == normalize_tick(bytes@),
                None => !valid_tick_bytes(bytes@),
            },
    {
        if bytes.len() == 0 {
            return None;
        }
        let n = bytes.len();
        let mut out: Vec<u8> = Vec::new();
        let mut i: usize = 0;
        while i < n
            invariant
                n == bytes.len(),
                0 <= i <= n,
                out@ =~= normalize_tick(bytes@.take(i as int)),
                forall|j: int| 0 <= j < i
                    ==> KEY_SEPARATOR < #[trigger] bytes@[j] < TICKER_SENTINEL,
            decreases n - i,
        {
            let b = bytes[i];
            if b == KEY_SEPARATOR || b == TICKER_SENTINEL {
                return None;
            }
            let low = if 65 <= b && b <= 90 {
                b + 32
            } else {
                b
            };
            out.push(low);
            assert(bytes@.take(i + 1) =~= bytes@.take(i as int).push(bytes@[i as int]));
            assert(normalize_tick(bytes@.take(i + 1)) =~= normalize_tick(
                bytes@.take(i as int),
            ).push(lower_byte(bytes@[i as int])));
            i = i + 1;
        }
        assert(bytes@.take(n as int) =~= bytes@);
        Some(Ticker { bytes: out })
    }

    /// The ticker encoding is valid by construction: normalization keeps
    /// every byte strictly between the separator and the sentinel.
    pub open spec fn wf(&self) -> bool {
        valid_tick_bytes(self@)
    }

    /// The raw bytes of the canonical encoding.
    pub fn as_bytes(&self) -> (r: &Vec<u8>)
        ensures
            r@ == self@,
    {
        &self.bytes
    }
}

/// Exact key of one (owner, ticker) record.
pub open spec fn spec_script_tick_key(owner: Seq<u8>, tick: Seq<u8>) -> Seq<u8> {
    owner + seq![KEY_SEPARATOR] + tick
}

/// Inclusive lower bound of one owner's key range.
pub open spec fn spec_min_script_tick_key(owner: Seq<u8>) -> Seq<u8> {
    owner + seq![KEY_SEPARATOR]
}

/// Exclusive upper bound of one owner's key range.
pub open spec fn spec_max_script_tick_key(owner: Seq<u8>) -> Seq<u8> {
    owner + seq![KEY_SEPARATOR, TICKER_SENTINEL]
}

/// Appends every byte of `src` to `out`.
pub fn append_bytes(out: &mut Vec<u8>, src: &Vec<u8>)
    ensures
        final(out)@ == old(out)@ + src@,
{
    let n = src.len();
    let mut i: usize = 0;
    while i < n
        invariant
            n == src.len(),
            0 <= i <= n,
            out@ =~= old(out)@ + src@.take(i as int),
        decreases n - i,
    {
        out.push(src[i]);
        assert(src@.take(i + 1) =~= src@.take(i as int).push(src@[i as int]));
        i = i + 1;
    }
    assert(src@.take(n as int) =~= src@);
}

/// Builds the exact key of one (owner, ticker) record.
pub fn script_tick_key(owner: &ScriptKey, tick: &Ticker) -> (r: Vec<u8>)
    ensures
        r@ == spec_script_tick_key(owner@, tick@),
{
    let mut out: Vec<u8> = Vec::new();
    append_bytes(&mut out, owner.as_bytes());
    out.push(KEY_SEPARATOR);
    append_bytes(&mut out, tick.as_bytes());
    assert(out@ =~= spec_script_tick_key(owner@, tick@));
    out
}

/// Builds the inclusive lower bound of one owner's key range.
pub fn min_script_tick_key(owner: &ScriptKey) -> (r: Vec<u8>)
    ensures
        r@ == spec_min_script_tick_key(owner@),
{
    let mut out: Vec<u8> = Vec::new();
    append_bytes(&mut out, owner.as_bytes());
    out.push(KEY_SEPARATOR);
    assert(out@ =~= spec_min_script_tick_key(owner@));
    out
}

/// Builds the exclusive upper bound of one owner's key range.
pub fn max_script_tick_key(owner: &ScriptKey) -> (r: Vec<u8>)
    ensures
        r@ == spec_max_script_tick_key(owner@),
{
    let mut out: Vec<u8> = Vec::new();
    append_bytes(&mut out, owner.as_bytes());
    out.push(KEY_SEPARATOR);
    out.push(TICKER_SENTINEL);
    assert(out@ =~= spec_max_script_tick_key(owner@));
    out
}

/// Every point key of an owner lies in that owner's scan range: at or above
/// the lower bound and strictly below the upper bound.
pub proof fn lemma_point_key_in_owner_range(owner: Seq<u8>, tick: Seq<u8>)
    requires
        valid_tick_bytes(tick),
    ensures
        lex_le(spec_min_script_tick_key(owner), spec_script_tick_key(owner, tick)),
        lex_lt(spec_script_tick_key(owner, tick), spec_max_script_tick_key(owner)),
{
    let low = spec_min_script_tick_key(owner);
    let pk = spec_script_tick_key(owner, tick);
    let high = spec_max_script_tick_key(owner);
    lemma_lex_lt_proper_prefix(low, tick);
    assert(low + tick =~= pk);
    lemma_lex_lt_prefix(low, tick, seq![TICKER_SENTINEL]);
    assert(low + seq![TICKER_SENTINEL] =~= high);
    assert(lex_lt(tick, seq![TICKER_SENTINEL]));
}

/// Point keys of one owner sort exactly as their tickers do.
pub proof fn lemma_point_key_order(owner: Seq<u8>, t1: Seq<u8>, t2: Seq<u8>)
    ensures
        lex_lt(spec_script_tick_key(owner, t1), spec_script_tick_key(owner, t2)) == lex_lt(
            t1,
            t2,
        ),
{
    let low = spec_min_script_tick_key(owner);
    lemma_lex_lt_prefix(low, t1, t2);
    assert(low + t1 =~= spec_script_tick_key(owner, t1));
    assert(low + t2 =~= spec_script_tick_key(owner, t2));
}

/// Core separation fact: a key that both starts with `o2 ++ SEPARATOR` and
/// lies inside the scan range of `o1` forces the two owner encodings to be
/// equal.
proof fn lemma_owner_range_separation(o1: Seq<u8>, o2: Seq<u8>, t: Seq<u8>)
    requires
        forall|i: int| 0 <= i < o1.len() ==> #[trigger] o1[i] != KEY_SEPARATOR,
        forall|i: int| 0 <= i < o2.len() ==> #[trigger] o2[i] != KEY_SEPARATOR,
        lex_le(spec_min_script_tick_key(o1), spec_script_tick_key(o2, t)),
        lex_lt(spec_script_tick_key(o2, t), spec_max_script_tick_key(o1)),
    ensures
        o1 == o2,
    decreases o1.len(),
{
    let low = spec_min_script_tick_key(o1);
    let high = spec_max_script_tick_key(o1);
    let k = spec_script_tick_key(o2, t);
    if o1.len() == 0 && o2.len() == 0 {
        assert(o1 =~= o2);
    } else if o1.len() == 0 {
        // low = [SEP]; k starts with o2[0] != SEP, so SEP < k[0]; but then
        // high = [SEP, SENTINEL] sorts before k, contradicting k < high.
        assert(k[0] == o2[0]);
        assert(high[0] == KEY_SEPARATOR);
        assert(!lex_lt(k, high));
    } else if o2.len() == 0 {
        // k = [SEP] ++ t; low starts with o1[0] != SEP, so k < low,
        // contradicting low <= k.
        assert(k[0] == KEY_SEPARATOR);
        assert(low[0] == o1[0]);
        assert(lex_lt(k, low));
        crate::order::lemma_lex_asym(k, low);
        assert(!lex_le(low, k) || k == low);
        assert(k != low);
    } else if o1[0] < o2[0] {
        assert(high[0] == o1[0] && k[0] == o2[0]);
        assert(!lex_lt(k, high));
    } else if o1[0] > o2[0] {
        assert(low[0] == o1[0] && k[0] == o2[0]);
        assert(lex_lt(k, low));
        crate::order::lemma_lex_asym(k, low);
        assert(k != low);
    } else {
        // Common first byte: strip it and recurse on the owner tails.
        let r1 = o1.skip(1);
        let r2 = o2.skip(1);
        assert(low.skip(1) =~= spec_min_script_tick_key(r1));
        assert(high.skip(1) =~= spec_max_script_tick_key(r1));
        assert(k.skip(1) =~= spec_script_tick_key(r2, t));
        assert(forall|i: int| 0 <= i < r1.len() ==> #[trigger] r1[i] != KEY_SEPARATOR);
        assert(forall|i: int| 0 <= i < r2.len() ==> #[trigger] r2[i] != KEY_SEPARATOR);
        if low == k {
            assert(low.skip(1) == k.skip(1));
            lemma_lex_irrefl(spec_script_tick_key(r2, t));
        } else {
            assert(lex_lt(low, k));
            assert(lex_lt(low.skip(1), k.skip(1)));
        }
        assert(lex_lt(k.skip(1), high.skip(1)));
        lemma_owner_range_separation(r1, r2, t);
        assert(o1 =~= seq![o1[0]] + r1);
        assert(o2 =~= seq![o2[0]] + r2);
    }
}

/// Range-bound separation: no key built for one owner ever lies inside the
/// scan range of a different owner, whatever the ticker part — the point
/// keys, the lower bound and the upper bound of the other owner all stay
/// outside `[min, max)`.
pub proof fn lemma_owner_ranges_disjoint(o1: Seq<u8>, o2: Seq<u8>, t: Seq<u8>)
    requires
        valid_owner_bytes(o1),
        valid_owner_bytes(o2),
        o1 != o2,
    ensures
        !(lex_le(spec_min_script_tick_key(o1), spec_script_tick_key(o2, t)) && lex_lt(
            spec_script_tick_key(o2, t),
            spec_max_script_tick_key(o1),
        )),
{
    if lex_le(spec_min_script_tick_key(o1), spec_script_tick_key(o2, t)) && lex_lt(
        spec_script_tick_key(o2, t),
        spec_max_script_tick_key(o1),
    ) {
        lemma_owner_range_separation(o1, o2, t);
    }
}

} // verus!
