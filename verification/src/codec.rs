//! Record codec: length-prefixed binary encoding of the domain records.
//!
//! Integers are stored little-endian in a fixed number of bytes; byte
//! strings carry an 8-byte length prefix; a batch-valued record carries an
//! 8-byte count followed by its entries in order. Decoding accepts exactly
//! the byte strings the encoder produces: both directions of that fact are
//! proved, so a round trip through the codec is lossless.

use vstd::prelude::*;

use vstd::arithmetic::div_mod::{lemma_fundamental_div_mod, lemma_fundamental_div_mod_converse};

use crate::keys::append_bytes;
use crate::records::{ActionReceipt, Balance, TokenInfo, TokenInfoV, TransferableLog, TransferableLogV};
use crate::records::logs_view;

verus! {

/// 256 to the power `n`: the number of values of an `n`-byte field.
pub open spec fn pow256(n: nat) -> nat
    decreases n,
{
    if n == 0 {
        1
    } else {
        256 * pow256((n - 1) as nat)
    }
}

/// The values of the field widths in use.
pub proof fn lemma_pow256_vals()
    ensures
        pow256(1) == 0x100,
        pow256(8) == 0x10000000000000000,
        pow256(16) == 0x100000000000000000000000000000000,
{
    reveal_with_fuel(pow256, 17);
}

/// Wider fields hold no fewer values.
pub proof fn lemma_pow256_mono(a: nat, b: nat)
    requires
        a <= b,
    ensures
        pow256(a) <= pow256(b),
    decreases b,
{
    if a < b {
        lemma_pow256_mono(a, (b - 1) as nat);
        assert(pow256(b) == 256 * pow256((b - 1) as nat));
    }
}

/// The `n`-byte little-endian encoding of `v` (of `v` modulo the field
/// size, for an oversized `v`).
pub open spec fn le_bytes(v: nat, n: nat) -> Seq<u8>
    decreases n,
{
    if n == 0 {
        Seq::empty()
    } else {
        seq![(v % 256) as u8] + le_bytes(v / 256, (n - 1) as nat)
    }
}

/// The value of a little-endian byte string.
pub open spec fn from_le(s: Seq<u8>) -> nat
    decreases s.len(),
{
    if s.len() == 0 {
        0
    } else {
        (s[0] as nat) + 256 * from_le(s.skip(1))
    }
}

pub proof fn lemma_le_bytes_len(v: nat, n: nat)
    ensures
        le_bytes(v, n).len() == n,
    decreases n,
{
    if n > 0 {
        lemma_le_bytes_len(v / 256, (n - 1) as nat);
    }
}

pub proof fn lemma_from_le_bound(s: Seq<u8>)
    ensures
        from_le(s) < pow256(s.len() as nat),
    decreases s.len(),
{
    if s.len() > 0 {
        lemma_from_le_bound(s.skip(1));
        let t = from_le(s.skip(1));
        assert(256 * t <= 256 * (pow256((s.len() - 1) as nat) - 1)) by (nonlinear_arith)
            requires
                t <= pow256((s.len() - 1) as nat) - 1,
        ;
    }
}

/// Decoding inverts encoding on every value that fits the field.
pub proof fn lemma_from_le_le_bytes(v: nat, n: nat)
    requires
        v < pow256(n),
    ensures
        from_le(le_bytes(v, n)) == v,
    decreases n,
{
    if n > 0 {
        lemma_fundamental_div_mod(v as int, 256);
        assert(v / 256 < pow256((n - 1) as nat)) by (nonlinear_arith)
            requires
                v < 256 * pow256((n - 1) as nat),
                v == 256 * (v / 256) + v % 256,
                0 <= v % 256 < 256,
        ;
        lemma_from_le_le_bytes(v / 256, (n - 1) as nat);
        let s = le_bytes(v, n);
        assert(s.skip(1) =~= le_bytes(v / 256, (n - 1) as nat));
        lemma_le_bytes_len(v / 256, (n - 1) as nat);
        assert(from_le(s) == (v % 256) + 256 * (v / 256));
    }
}

/// Encoding inverts decoding on every byte string.
pub proof fn lemma_le_bytes_from_le(s: Seq<u8>)
    ensures
        le_bytes(from_le(s), s.len() as nat) == s,
    decreases s.len(),
{
    if s.len() == 0 {
        assert(le_bytes(from_le(s), 0) =~= s);
    } else {
        let v = from_le(s);
        let t = from_le(s.skip(1));
        lemma_fundamental_div_mod_converse(v as int, 256, t as int, s[0] as int);
        lemma_le_bytes_from_le(s.skip(1));
        assert(le_bytes(v, s.len() as nat) =~= seq![(v % 256) as u8] + le_bytes(
            v / 256,
            (s.len() - 1) as nat,
        ));
        assert(le_bytes(v, s.len() as nat) =~= s);
    }
}

/// Reads an `n`-byte little-endian integer; `None` when fewer than `n`
/// bytes remain.
pub open spec fn parse_uint(s: Seq<u8>, n: nat) -> Option<(nat, Seq<u8>)> {
    if s.len() >= n {
        Some((from_le(s.take(n as int)), s.skip(n as int)))
    } else {
        None
    }
}

/// A length-prefixed byte string: 8 bytes of length, then the bytes.
pub open spec fn enc_bstr(b: Seq<u8>) -> Seq<u8> {
    le_bytes(b.len() as nat, 8) + b
}

/// Reads a length-prefixed byte string.
pub open spec fn parse_bstr(s: Seq<u8>) -> Option<(Seq<u8>, Seq<u8>)> {
    match parse_uint(s, 8) {
        Some((len, r)) => if r.len() >= len {
            Some((r.take(len as int), r.skip(len as int)))
        } else {
            None
        },
        None => None,
    }
}

pub proof fn lemma_parse_uint_enc(v: nat, n: nat, rest: Seq<u8>)
    requires
        v < pow256(n),
    ensures
        parse_uint(le_bytes(v, n) + rest, n) == Some((v, rest)),
{
    lemma_le_bytes_len(v, n);
    let s = le_bytes(v, n) + rest;
    assert(s.take(n as int) =~= le_bytes(v, n));
    assert(s.skip(n as int) =~= rest);
    lemma_from_le_le_bytes(v, n);
}

pub proof fn lemma_parse_uint_sound(s: Seq<u8>, n: nat, v: nat, rest: Seq<u8>)
    requires
        parse_uint(s, n) == Some((v, rest)),
    ensures
        s == le_bytes(v, n) + rest,
        v < pow256(n),
{
    lemma_le_bytes_from_le(s.take(n as int));
    lemma_from_le_bound(s.take(n as int));
    assert(s =~= s.take(n as int) + s.skip(n as int));
}

pub proof fn lemma_parse_bstr_enc(b: Seq<u8>, rest: Seq<u8>)
    requires
        b.len() < pow256(8),
    ensures
        parse_bstr(enc_bstr(b) + rest) == Some((b, rest)),
{
    assert(enc_bstr(b) + rest =~= le_bytes(b.len() as nat, 8) + (b + rest));
    lemma_parse_uint_enc(b.len() as nat, 8, b + rest);
    assert((b + rest).take(b.len() as int) =~= b);
    assert((b + rest).skip(b.len() as int) =~= rest);
}

pub proof fn lemma_parse_bstr_sound(s: Seq<u8>, b: Seq<u8>, rest: Seq<u8>)
    requires
        parse_bstr(s) == Some((b, rest)),
    ensures
        s == enc_bstr(b) + rest,
        b.len() < pow256(8),
{
    if let Some((len, r)) = parse_uint(s, 8) {
        lemma_parse_uint_sound(s, 8, len, r);
        assert(b =~= r.take(len as int));
        assert(rest =~= r.skip(len as int));
        assert(r =~= b + rest);
        assert(s =~= le_bytes(len, 8) + (b + rest));
        assert(s =~= enc_bstr(b) + rest);
    }
}

/// Appends the `n`-byte little-endian encoding of `v`.
pub fn push_uint(out: &mut Vec<u8>, v: u128, n: usize)
    requires
        (v as nat) < pow256(n as nat),
    ensures
        final(out)@ == old(out)@ + le_bytes(v as nat, n as nat),
    decreases n,
{
    if n == 0 {
        assert(out@ =~= old(out)@ + le_bytes(v as nat, 0));
    } else {
        let b = (v % 256) as u8;
        out.push(b);
        proof {
            lemma_fundamental_div_mod(v as int, 256);
            assert((v as nat) / 256 < pow256((n - 1) as nat)) by (nonlinear_arith)
                requires
                    (v as nat) < 256 * pow256((n - 1) as nat),
                    (v as nat) == 256 * ((v as nat) / 256) + (v as nat) % 256,
                    0 <= (v as nat) % 256 < 256,
            ;
        }
        push_uint(out, v / 256, n - 1);
        assert(out@ =~= old(out)@ + le_bytes(v as nat, n as nat));
    }
}

/// Appends the length-prefixed encoding of `b`.
pub fn push_bstr(out: &mut Vec<u8>, b: &Vec<u8>)
    ensures
        final(out)@ == old(out)@ + enc_bstr(b@),
{
    proof {
        lemma_pow256_vals();
    }
    push_uint(out, b.len() as u128, 8);
    append_bytes(out, b);
    assert(out@ =~= old(out)@ + enc_bstr(b@));
}

/// Reads the `n`-byte little-endian integer at `pos`.
pub fn read_uint(buf: &Vec<u8>, pos: usize, n: usize) -> (r: u128)
    requires
        pos + n <= buf@.len(),
        n <= 16,
    ensures
        r as nat == from_le(buf@.subrange(pos as int, pos + n)),
        (r as nat) < pow256(n as nat),
    decreases n,
{
    if n == 0 {
        assert(buf@.subrange(pos as int, pos as int) =~= Seq::<u8>::empty());
        0
    } else {
        let blen = buf.len();
        assert(pos + n <= blen);
        let b = buf[pos];
        let rest = read_uint(buf, pos + 1, n - 1);
        proof {
            lemma_pow256_vals();
            lemma_pow256_mono((n - 1) as nat, 15);
            assert(256 * (rest as nat) <= 256 * (pow256(15) - 1)) by (nonlinear_arith)
                requires
                    (rest as nat) <= pow256(15) - 1,
            ;
            assert(256 * (rest as nat) + 256 <= 256 * pow256((n - 1) as nat)) by (nonlinear_arith)
                requires
                    (rest as nat) < pow256((n - 1) as nat),
            ;
            assert(buf@.subrange(pos + 1, pos + n) =~= buf@.subrange(pos as int, pos + n).skip(1));
            lemma_pow256_mono(n as nat, 16);
        }
        b as u128 + 256 * rest
    }
}

/// Copies `buf[pos .. pos + n]` out into a fresh vector.
pub fn copy_range(buf: &Vec<u8>, pos: usize, n: usize) -> (r: Vec<u8>)
    requires
        pos + n <= buf@.len(),
    ensures
        r@ == buf@.subrange(pos as int, pos + n),
{
    let blen = buf.len();
    let mut out: Vec<u8> = Vec::new();
    let mut i: usize = 0;
    while i < n
        invariant
            pos + n <= blen == buf@.len(),
            0 <= i <= n,
            out@ =~= buf@.subrange(pos as int, pos + i),
        decreases n - i,
    {
        out.push(buf[pos + i]);
        assert(buf@.subrange(pos as int, pos + i + 1) =~= buf@.subrange(pos as int, pos + i).push(
            buf@[pos + i],
        ));
        i = i + 1;
    }
    out
}

/// Reads the length-prefixed byte string at `pos`; on success also returns
/// the position just past it.
pub fn read_bstr(buf: &Vec<u8>, pos: usize) -> (r: Option<(Vec<u8>, usize)>)
    requires
        pos <= buf@.len(),
    ensures
        match r {
            Some(p) => pos <= p.1 <= buf@.len() && parse_bstr(buf@.skip(pos as int)) == Some(
                (p.0@, buf@.skip(p.1 as int)),
            ),
            None => parse_bstr(buf@.skip(pos as int)) is None,
        },
{
    proof {
        lemma_pow256_vals();
    }
    if buf.len() - pos < 8 {
        return None;
    }
    let len128 = read_uint(buf, pos, 8);
    proof {
        assert(buf@.skip(pos as int).take(8) =~= buf@.subrange(pos as int, pos + 8));
        assert(buf@.skip(pos as int).skip(8) =~= buf@.skip(pos + 8));
    }
    let rem = buf.len() - (pos + 8);
    if len128 > rem as u128 {
        return None;
    }
    let len = len128 as usize;
    let b = copy_range(buf, pos + 8, len);
    proof {
        assert(buf@.skip(pos + 8).take(len as int) =~= buf@.subrange(pos + 8, pos + 8 + len));
        assert(buf@.skip(pos + 8).skip(len as int) =~= buf@.skip(pos + 8 + len));
    }
    Some((b, pos + 8 + len))
}

// --- Balance ---

/// Encoded form of a balance record: two 16-byte quantities.
pub open spec fn spec_encode_balance(b: Balance) -> Seq<u8> {
    le_bytes(b.overall as nat, 16) + le_bytes(b.available as nat, 16)
}

pub open spec fn parse_balance(s: Seq<u8>) -> Option<(Balance, Seq<u8>)> {
    match parse_uint(s, 16) {
        Some((v1, r1)) => match parse_uint(r1, 16) {
            Some((v2, r2)) => Some(
                (Balance { overall: v1 as u128, available: v2 as u128 }, r2),
            ),
            None => None,
        },
        None => None,
    }
}

/// A balance record is exactly 32 bytes; trailing bytes are malformed.
pub open spec fn spec_decode_balance(s: Seq<u8>) -> Option<Balance> {
    match parse_balance(s) {
        Some((b, rest)) => if rest.len() == 0 {
            Some(b)
        } else {
            None
        },
        None => None,
    }
}

/// Decoding accepts whatever encoding produced: one direction of the
/// lossless round trip.
pub proof fn lemma_balance_codec_complete(b: Balance)
    ensures
        spec_decode_balance(spec_encode_balance(b)) == Some(b),
{
    lemma_pow256_vals();
    let e1 = le_bytes(b.overall as nat, 16);
    let e2 = le_bytes(b.available as nat, 16);
    lemma_parse_uint_enc(b.overall as nat, 16, e2);
    assert(spec_encode_balance(b) =~= e1 + e2);
    lemma_parse_uint_enc(b.available as nat, 16, Seq::<u8>::empty());
    assert(e2 + Seq::<u8>::empty() =~= e2);
}

/// Only the encoding of a record decodes to it: the other direction of the
/// lossless round trip.
pub proof fn lemma_balance_codec_sound(s: Seq<u8>, b: Balance)
    requires
        spec_decode_balance(s) == Some(b),
    ensures
        s == spec_encode_balance(b),
{
    if let Some((v1, r1)) = parse_uint(s, 16) {
        if let Some((v2, r2)) = parse_uint(r1, 16) {
            lemma_parse_uint_sound(s, 16, v1, r1);
            lemma_parse_uint_sound(r1, 16, v2, r2);
            lemma_pow256_vals();
            assert(r2 =~= Seq::<u8>::empty());
            assert(r1 =~= le_bytes(v2, 16) + r2);
            assert(le_bytes(v2, 16) + r2 =~= le_bytes(v2, 16));
            assert(s =~= le_bytes(v1, 16) + le_bytes(v2, 16));
        }
    }
}

/// Produces `spec_encode_balance(*b)`.
pub fn encode_balance(b: &Balance) -> (r: Vec<u8>)
    ensures
        r@ == spec_encode_balance(*b),
{
    proof {
        lemma_pow256_vals();
    }
    let mut out: Vec<u8> = Vec::new();
    push_uint(&mut out, b.overall, 16);
    push_uint(&mut out, b.available, 16);
    assert(out@ =~= spec_encode_balance(*b));
    out
}

/// Computes `spec_decode_balance(buf@)`.
pub fn decode_balance(buf: &Vec<u8>) -> (r: Option<Balance>)
    ensures
        r == spec_decode_balance(buf@),
{
    proof {
        lemma_pow256_vals();
    }
    let blen = buf.len();
    if blen < 16 {
        return None;
    }
    let v1 = read_uint(buf, 0, 16);
    proof {
        assert(buf@.take(16) =~= buf@.subrange(0, 16));
    }
    if blen < 32 {
        return None;
    }
    let v2 = read_uint(buf, 16, 16);
    proof {
        assert(buf@.skip(16).take(16) =~= buf@.subrange(16, 32));
        assert(buf@.skip(16).skip(16) =~= buf@.skip(32));
    }
    if blen != 32 {
        return None;
    }
    Some(Balance { overall: v1, available: v2 })
}

// --- TokenInfo ---

/// Encoded form of a token-info record: length-prefixed ticker, two 16-byte
/// quantities, one byte of decimals.
pub open spec fn spec_encode_token_info(t: TokenInfoV) -> Seq<u8> {
    enc_bstr(t.tick) + le_bytes(t.supply as nat, 16) + le_bytes(t.limit_per_mint as nat, 16)
        + le_bytes(t.decimals as nat, 1)
}

pub open spec fn parse_token_info(s: Seq<u8>) -> Option<(TokenInfoV, Seq<u8>)> {
    match parse_bstr(s) {
        Some((tick, r1)) => match parse_uint(r1, 16) {
            Some((v1, r2)) => match parse_uint(r2, 16) {
                Some((v2, r3)) => match parse_uint(r3, 1) {
                    Some((v3, r4)) => Some(
                        (
                            TokenInfoV {
                                tick,
                                supply: v1 as u128,
                                limit_per_mint: v2 as u128,
                                decimals: v3 as u8,
                            },
                            r4,
                        ),
                    ),
                    None => None,
                },
                None => None,
            },
            None => None,
        },
        None => None,
    }
}

pub open spec fn spec_decode_token_info(s: Seq<u8>) -> Option<TokenInfoV> {
    match parse_token_info(s) {
        Some((t, rest)) => if rest.len() == 0 {
            Some(t)
        } else {
            None
        },
        None => None,
    }
}

pub proof fn lemma_token_info_codec_complete(t: TokenInfoV)
    requires
        t.tick.len() < pow256(8),
    ensures
        spec_decode_token_info(spec_encode_token_info(t)) == Some(t),
{
    lemma_pow256_vals();
    let e1 = le_bytes(t.supply as nat, 16);
    let e2 = le_bytes(t.limit_per_mint as nat, 16);
    let e3 = le_bytes(t.decimals as nat, 1);
    let s = spec_encode_token_info(t);
    assert(s =~= enc_bstr(t.tick) + (e1 + e2 + e3));
    lemma_parse_bstr_enc(t.tick, e1 + e2 + e3);
    assert(e1 + e2 + e3 =~= e1 + (e2 + e3));
    lemma_parse_uint_enc(t.supply as nat, 16, e2 + e3);
    lemma_parse_uint_enc(t.limit_per_mint as nat, 16, e3);
    lemma_parse_uint_enc(t.decimals as nat, 1, Seq::<u8>::empty());
    assert(e3 + Seq::<u8>::empty() =~= e3);
}

pub proof fn lemma_token_info_codec_sound(s: Seq<u8>, t: TokenInfoV)
    requires
        spec_decode_token_info(s) == Some(t),
    ensures
        s == spec_encode_token_info(t),
        t.tick.len() < pow256(8),
{
    if let Some((tick, r1)) = parse_bstr(s) {
        if let Some((v1, r2)) = parse_uint(r1, 16) {
            if let Some((v2, r3)) = parse_uint(r2, 16) {
                if let Some((v3, r4)) = parse_uint(r3, 1) {
                    lemma_parse_bstr_sound(s, tick, r1);
                    lemma_parse_uint_sound(r1, 16, v1, r2);
                    lemma_parse_uint_sound(r2, 16, v2, r3);
                    lemma_parse_uint_sound(r3, 1, v3, r4);
                    lemma_pow256_vals();
                    assert(r4 =~= Seq::<u8>::empty());
                    assert(r3 =~= le_bytes(v3, 1) + r4);
                    assert(le_bytes(v3, 1) + r4 =~= le_bytes(v3, 1));
                    assert(s =~= enc_bstr(tick) + (le_bytes(v1, 16) + (le_bytes(v2, 16)
                        + le_bytes(v3, 1))));
                    assert(s =~= spec_encode_token_info(t));
                }
            }
        }
    }
}

/// Produces `spec_encode_token_info(t@)`.
pub fn encode_token_info(t: &TokenInfo) -> (r: Vec<u8>)
    ensures
        r@ == spec_encode_token_info(t@),
{
    proof {
        lemma_pow256_vals();
    }
    let mut out: Vec<u8> = Vec::new();
    push_bstr(&mut out, &t.tick);
    push_uint(&mut out, t.supply, 16);
    push_uint(&mut out, t.limit_per_mint, 16);
    push_uint(&mut out, t.decimals as u128, 1);
    assert(out@ =~= spec_encode_token_info(t@));
    out
}

/// Computes `spec_decode_token_info(buf@)`, as a record.
pub fn decode_token_info(buf: &Vec<u8>) -> (r: Option<TokenInfo>)
    ensures
        match r {
            Some(t) => spec_decode_token_info(buf@) == Some(t@),
            None => spec_decode_token_info(buf@) is None,
        },
{
    proof {
        lemma_pow256_vals();
        assert(buf@.skip(0) =~= buf@);
    }
    let blen = buf.len();
    match read_bstr(buf, 0) {
        None => None,
        Some((tick, p1)) => {
            if blen - p1 < 16 {
                return None;
            }
            let supply = read_uint(buf, p1, 16);
            proof {
                assert(buf@.skip(p1 as int).take(16) =~= buf@.subrange(p1 as int, p1 + 16));
                assert(buf@.skip(p1 as int).skip(16) =~= buf@.skip(p1 + 16));
            }
            if blen - p1 < 32 {
                return None;
            }
            let limit = read_uint(buf, p1 + 16, 16);
            proof {
                assert(buf@.skip(p1 + 16).take(16) =~= buf@.subrange(p1 + 16, p1 + 32));
                assert(buf@.skip(p1 + 16).skip(16) =~= buf@.skip(p1 + 32));
            }
            if blen - p1 < 33 {
                return None;
            }
            let dec = read_uint(buf, p1 + 32, 1);
            proof {
                assert(buf@.skip(p1 + 32).take(1) =~= buf@.subrange(p1 + 32, p1 + 33));
                assert(buf@.skip(p1 + 32).skip(1) =~= buf@.skip(p1 + 33));
            }
            if blen != p1 + 33 {
                return None;
            }
            Some(TokenInfo { tick, supply, limit_per_mint: limit, decimals: dec as u8 })
        },
    }
}

// --- ActionReceipt batches ---

/// Encoded form of one receipt: one byte of op, 16 bytes of amount.
pub open spec fn spec_encode_receipt(x: ActionReceipt) -> Seq<u8> {
    le_bytes(x.op as nat, 1) + le_bytes(x.amount as nat, 16)
}

pub open spec fn parse_receipt(s: Seq<u8>) -> Option<(ActionReceipt, Seq<u8>)> {
    match parse_uint(s, 1) {
        Some((v1, r1)) => match parse_uint(r1, 16) {
            Some((v2, r2)) => Some((ActionReceipt { op: v1 as u8, amount: v2 as u128 }, r2)),
            None => None,
        },
        None => None,
    }
}

/// Encoded form of a list of receipts, in order.
pub open spec fn spec_encode_receipt_seq(xs: Seq<ActionReceipt>) -> Seq<u8>
    decreases xs.len(),
{
    if xs.len() == 0 {
        Seq::empty()
    } else {
        spec_encode_receipt(xs[0]) + spec_encode_receipt_seq(xs.skip(1))
    }
}

pub open spec fn parse_receipt_seq(s: Seq<u8>, count: nat) -> Option<
    (Seq<ActionReceipt>, Seq<u8>),
>
    decreases count,
{
    if count == 0 {
        Some((Seq::empty(), s))
    } else {
        match parse_receipt(s) {
            Some((x, r)) => match parse_receipt_seq(r, (count - 1) as nat) {
                Some((xs, r2)) => Some((seq![x] + xs, r2)),
                None => None,
            },
            None => None,
        }
    }
}

/// Encoded form of a receipt batch: 8 bytes of count, then the receipts.
pub open spec fn spec_encode_receipts(xs: Seq<ActionReceipt>) -> Seq<u8> {
    le_bytes(xs.len() as nat, 8) + spec_encode_receipt_seq(xs)
}

pub open spec fn spec_decode_receipts(s: Seq<u8>) -> Option<Seq<ActionReceipt>> {
    match parse_uint(s, 8) {
        Some((count, r)) => match parse_receipt_seq(r, count) {
            Some((xs, rest)) => if rest.len() == 0 {
                Some(xs)
            } else {
                None
            },
            None => None,
        },
        None => None,
    }
}

proof fn lemma_parse_receipt_enc(x: ActionReceipt, rest: Seq<u8>)
    ensures
        parse_receipt(spec_encode_receipt(x) + rest) == Some((x, rest)),
{
    lemma_pow256_vals();
    let e2 = le_bytes(x.amount as nat, 16);
    assert(spec_encode_receipt(x) + rest =~= le_bytes(x.op as nat, 1) + (e2 + rest));
    lemma_parse_uint_enc(x.op as nat, 1, e2 + rest);
    lemma_parse_uint_enc(x.amount as nat, 16, rest);
}

proof fn lemma_parse_receipt_sound(s: Seq<u8>, x: ActionReceipt, rest: Seq<u8>)
    requires
        parse_receipt(s) == Some((x, rest)),
    ensures
        s == spec_encode_receipt(x) + rest,
{
    if let Some((v1, r1)) = parse_uint(s, 1) {
        if let Some((v2, r2)) = parse_uint(r1, 16) {
            lemma_parse_uint_sound(s, 1, v1, r1);
            lemma_parse_uint_sound(r1, 16, v2, r2);
            lemma_pow256_vals();
            assert(s =~= le_bytes(v1, 1) + (le_bytes(v2, 16) + rest));
            assert(s =~= spec_encode_receipt(x) + rest);
        }
    }
}

proof fn lemma_parse_receipt_seq_enc(xs: Seq<ActionReceipt>, rest: Seq<u8>)
    ensures
        parse_receipt_seq(spec_encode_receipt_seq(xs) + rest, xs.len() as nat) == Some(
            (xs, rest),
        ),
    decreases xs.len(),
{
    if xs.len() == 0 {
        assert(spec_encode_receipt_seq(xs) + rest =~= rest);
        assert(xs =~= Seq::<ActionReceipt>::empty());
    } else {
        let tailenc = spec_encode_receipt_seq(xs.skip(1)) + rest;
        assert(spec_encode_receipt_seq(xs) + rest =~= spec_encode_receipt(xs[0]) + tailenc);
        lemma_parse_receipt_enc(xs[0], tailenc);
        lemma_parse_receipt_seq_enc(xs.skip(1), rest);
        assert(seq![xs[0]] + xs.skip(1) =~= xs);
    }
}

proof fn lemma_parse_receipt_seq_sound(
    s: Seq<u8>,
    count: nat,
    xs: Seq<ActionReceipt>,
    rest: Seq<u8>,
)
    requires
        parse_receipt_seq(s, count) == Some((xs, rest)),
    ensures
        s == spec_encode_receipt_seq(xs) + rest,
        xs.len() == count,
    decreases count,
{
    if count == 0 {
        assert(s =~= spec_encode_receipt_seq(xs) + rest);
    } else {
        if let Some((x, r)) = parse_receipt(s) {
            if let Some((ys, r2)) = parse_receipt_seq(r, (count - 1) as nat) {
                lemma_parse_receipt_sound(s, x, r);
                lemma_parse_receipt_seq_sound(r, (count - 1) as nat, ys, r2);
                assert(xs =~= seq![x] + ys);
                assert(xs[0] == x);
                assert(xs.skip(1) =~= ys);
                assert(s =~= spec_encode_receipt(x) + (spec_encode_receipt_seq(ys) + rest));
                assert(s =~= spec_encode_receipt_seq(xs) + rest);
            }
        }
    }
}

/// Decoding accepts whatever encoding produced, for every batch that fits
/// the count field.
pub proof fn lemma_receipts_codec_complete(xs: Seq<ActionReceipt>)
    requires
        xs.len() < pow256(8),
    ensures
        spec_decode_receipts(spec_encode_receipts(xs)) == Some(xs),
{
    let body = spec_encode_receipt_seq(xs);
    assert(spec_encode_receipts(xs) =~= le_bytes(xs.len() as nat, 8) + body);
    lemma_parse_uint_enc(xs.len() as nat, 8, body);
    assert(body + Seq::<u8>::empty() =~= body);
    lemma_parse_receipt_seq_enc(xs, Seq::<u8>::empty());
}

/// Only the encoding of a batch decodes to it.
pub proof fn lemma_receipts_codec_sound(s: Seq<u8>, xs: Seq<ActionReceipt>)
    requires
        spec_decode_receipts(s) == Some(xs),
    ensures
        s == spec_encode_receipts(xs),
        xs.len() < pow256(8),
{
    if let Some((count, r)) = parse_uint(s, 8) {
        if let Some((ys, rest)) = parse_receipt_seq(r, count) {
            lemma_parse_uint_sound(s, 8, count, r);
            lemma_parse_receipt_seq_sound(r, count, ys, rest);
            assert(rest =~= Seq::<u8>::empty());
            assert(r =~= spec_encode_receipt_seq(ys) + rest);
            assert(spec_encode_receipt_seq(ys) + rest =~= spec_encode_receipt_seq(ys));
            assert(s =~= le_bytes(count, 8) + spec_encode_receipt_seq(xs));
        }
    }
}

proof fn lemma_encode_receipt_seq_push(s: Seq<ActionReceipt>, x: ActionReceipt)
    ensures
        spec_encode_receipt_seq(s.push(x)) == spec_encode_receipt_seq(s) + spec_encode_receipt(
            x,
        ),
    decreases s.len(),
{
    if s.len() == 0 {
        assert(s.push(x)[0] == x);
        assert(s.push(x).skip(1) =~= Seq::<ActionReceipt>::empty());
        assert(spec_encode_receipt_seq(s.push(x)) == spec_encode_receipt(x)
            + spec_encode_receipt_seq(s.push(x).skip(1)));
        assert(spec_encode_receipt_seq(s.push(x).skip(1)) == Seq::<u8>::empty());
        assert(spec_encode_receipt_seq(s) == Seq::<u8>::empty());
        assert(spec_encode_receipt(x) + Seq::<u8>::empty() =~= spec_encode_receipt(x));
        assert(Seq::<u8>::empty() + spec_encode_receipt(x) =~= spec_encode_receipt(x));
    } else {
        lemma_encode_receipt_seq_push(s.skip(1), x);
        assert(s.push(x)[0] == s[0]);
        assert(s.push(x).skip(1) =~= s.skip(1).push(x));
        assert(spec_encode_receipt_seq(s.push(x)) == spec_encode_receipt(s[0])
            + spec_encode_receipt_seq(s.skip(1).push(x)));
        assert(spec_encode_receipt_seq(s) == spec_encode_receipt(s[0])
            + spec_encode_receipt_seq(s.skip(1)));
        assert(spec_encode_receipt(s[0]) + (spec_encode_receipt_seq(s.skip(1))
            + spec_encode_receipt(x)) =~= (spec_encode_receipt(s[0]) + spec_encode_receipt_seq(
            s.skip(1),
        )) + spec_encode_receipt(x));
    }
}

/// Produces `spec_encode_receipts(xs@)`.
pub fn encode_receipts(xs: &Vec<ActionReceipt>) -> (r: Vec<u8>)
    ensures
        r@ == spec_encode_receipts(xs@),
{
    proof {
        lemma_pow256_vals();
    }
    let n = xs.len();
    let mut out: Vec<u8> = Vec::new();
    push_uint(&mut out, n as u128, 8);
    let mut i: usize = 0;
    while i < n
        invariant
            n == xs.len(),
            0 <= i <= n,
            out@ =~= le_bytes(n as nat, 8) + spec_encode_receipt_seq(xs@.take(i as int)),
        decreases n - i,
    {
        proof {
            lemma_pow256_vals();
        }
        let x = xs[i];
        push_uint(&mut out, x.op as u128, 1);
        push_uint(&mut out, x.amount, 16);
        proof {
            lemma_encode_receipt_seq_push(xs@.take(i as int), xs@[i as int]);
            assert(xs@.take(i + 1) =~= xs@.take(i as int).push(xs@[i as int]));
            assert(out@ =~= le_bytes(n as nat, 8) + spec_encode_receipt_seq(
                xs@.take(i + 1),
            ));
        }
        i = i + 1;
    }
    assert(xs@.take(n as int) =~= xs@);
    out
}

/// Computes `spec_decode_receipts(buf@)`, as a vector.
pub fn decode_receipts(buf: &Vec<u8>) -> (r: Option<Vec<ActionReceipt>>)
    ensures
        match r {
            Some(v) => spec_decode_receipts(buf@) == Some(v@),
            None => spec_decode_receipts(buf@) is None,
        },
{
    proof {
        lemma_pow256_vals();
    }
    let blen = buf.len();
    if blen < 8 {
        return None;
    }
    let count = read_uint(buf, 0, 8);
    proof {
        assert(buf@.take(8) =~= buf@.subrange(0, 8));
    }
    let mut acc: Vec<ActionReceipt> = Vec::new();
    let mut pos: usize = 8;
    let mut done: u128 = 0;
    proof {
        if let Some((ys, rest)) = parse_receipt_seq(buf@.skip(8), count as nat) {
            assert(acc@ + ys =~= ys);
        }
    }
    while done < count
        invariant
            blen == buf@.len(),
            8 <= pos <= blen,
            done <= count,
            parse_uint(buf@, 8) == Some(((count as nat), buf@.skip(8))),
            match parse_receipt_seq(buf@.skip(pos as int), (count - done) as nat) {
                Some((ys, rest)) => parse_receipt_seq(buf@.skip(8), count as nat) == Some(
                    (acc@ + ys, rest),
                ),
                None => parse_receipt_seq(buf@.skip(8), count as nat) is None,
            },
        decreases count - done,
    {
        if blen - pos < 17 {
            return None;
        }
        let op = read_uint(buf, pos, 1);
        let amount = read_uint(buf, pos + 1, 16);
        proof {
            assert(buf@.skip(pos as int).take(1) =~= buf@.subrange(pos as int, pos + 1));
            assert(buf@.skip(pos as int).skip(1) =~= buf@.skip(pos + 1));
            assert(buf@.skip(pos + 1).take(16) =~= buf@.subrange(pos + 1, pos + 17));
            assert(buf@.skip(pos + 1).skip(16) =~= buf@.skip(pos + 17));
        }
        let x = ActionReceipt { op: op as u8, amount };
        proof {
            assert(parse_receipt(buf@.skip(pos as int)) == Some((x, buf@.skip(pos + 17))));
            if let Some((ys, rest)) = parse_receipt_seq(
                buf@.skip(pos + 17),
                (count - done - 1) as nat,
            ) {
                assert(parse_receipt_seq(buf@.skip(pos as int), (count - done) as nat)
                    == Some((seq![x] + ys, rest)));
                assert(acc@ + (seq![x] + ys) =~= acc@.push(x) + ys);
            }
        }
        acc.push(x);
        pos = pos + 17;
        done = done + 1;
    }
    proof {
        assert(parse_receipt_seq(buf@.skip(pos as int), 0) == Some(
            (Seq::<ActionReceipt>::empty(), buf@.skip(pos as int)),
        ));
        assert(acc@ + Seq::<ActionReceipt>::empty() =~= acc@);
    }
    if pos != blen {
        return None;
    }
    Some(acc)
}


// --- TransferableLog batches ---

/// Encoded form of one transferable-log entry: length-prefixed inscription
/// identifier, length-prefixed ticker, 16 bytes of amount.
pub open spec fn spec_encode_log(x: TransferableLogV) -> Seq<u8> {
    enc_bstr(x.inscription_id) + enc_bstr(x.tick) + le_bytes(x.amount as nat, 16)
}

pub open spec fn parse_log(s: Seq<u8>) -> Option<(TransferableLogV, Seq<u8>)> {
    match parse_bstr(s) {
        Some((id, r1)) => match parse_bstr(r1) {
            Some((tick, r2)) => match parse_uint(r2, 16) {
                Some((v, r3)) => Some(
                    (TransferableLogV { inscription_id: id, tick, amount: v as u128 }, r3),
                ),
                None => None,
            },
            None => None,
        },
        None => None,
    }
}

/// Encoded form of a list of entries, in order.
pub open spec fn spec_encode_log_seq(xs: Seq<TransferableLogV>) -> Seq<u8>
    decreases xs.len(),
{
    if xs.len() == 0 {
        Seq::empty()
    } else {
        spec_encode_log(xs[0]) + spec_encode_log_seq(xs.skip(1))
    }
}

pub open spec fn parse_log_seq(s: Seq<u8>, count: nat) -> Option<
    (Seq<TransferableLogV>, Seq<u8>),
>
    decreases count,
{
    if count == 0 {
        Some((Seq::empty(), s))
    } else {
        match parse_log(s) {
            Some((x, r)) => match parse_log_seq(r, (count - 1) as nat) {
                Some((xs, r2)) => Some((seq![x] + xs, r2)),
                None => None,
            },
            None => None,
        }
    }
}

/// Encoded form of a transferable-log batch: 8 bytes of count, then the
/// entries.
pub open spec fn spec_encode_logs(xs: Seq<TransferableLogV>) -> Seq<u8> {
    le_bytes(xs.len() as nat, 8) + spec_encode_log_seq(xs)
}

pub open spec fn spec_decode_logs(s: Seq<u8>) -> Option<Seq<TransferableLogV>> {
    match parse_uint(s, 8) {
        Some((count, r)) => match parse_log_seq(r, count) {
            Some((xs, rest)) => if rest.len() == 0 {
                Some(xs)
            } else {
                None
            },
            None => None,
        },
        None => None,
    }
}

/// Every field of a log entry fits its length prefix.
pub open spec fn log_fits(x: TransferableLogV) -> bool {
    x.inscription_id.len() < pow256(8) && x.tick.len() < pow256(8)
}

proof fn lemma_parse_log_enc(x: TransferableLogV, rest: Seq<u8>)
    requires
        log_fits(x),
    ensures
        parse_log(spec_encode_log(x) + rest) == Some((x, rest)),
{
    lemma_pow256_vals();
    let e2 = enc_bstr(x.tick);
    let e3 = le_bytes(x.amount as nat, 16);
    assert(spec_encode_log(x) + rest =~= enc_bstr(x.inscription_id) + (e2 + (e3 + rest)));
    lemma_parse_bstr_enc(x.inscription_id, e2 + (e3 + rest));
    lemma_parse_bstr_enc(x.tick, e3 + rest);
    lemma_parse_uint_enc(x.amount as nat, 16, rest);
}

proof fn lemma_parse_log_sound(s: Seq<u8>, x: TransferableLogV, rest: Seq<u8>)
    requires
        parse_log(s) == Some((x, rest)),
    ensures
        s == spec_encode_log(x) + rest,
        log_fits(x),
{
    if let Some((id, r1)) = parse_bstr(s) {
        if let Some((tick, r2)) = parse_bstr(r1) {
            if let Some((v, r3)) = parse_uint(r2, 16) {
                lemma_parse_bstr_sound(s, id, r1);
                lemma_parse_bstr_sound(r1, tick, r2);
                lemma_parse_uint_sound(r2, 16, v, r3);
                lemma_pow256_vals();
                assert(s =~= enc_bstr(id) + (enc_bstr(tick) + (le_bytes(v, 16) + rest)));
                assert(s =~= spec_encode_log(x) + rest);
            }
        }
    }
}

proof fn lemma_parse_log_seq_enc(xs: Seq<TransferableLogV>, rest: Seq<u8>)
    requires
        forall|i: int| 0 <= i < xs.len() ==> log_fits(#[trigger] xs[i]),
    ensures
        parse_log_seq(spec_encode_log_seq(xs) + rest, xs.len() as nat) == Some((xs, rest)),
    decreases xs.len(),
{
    if xs.len() == 0 {
        assert(spec_encode_log_seq(xs) + rest =~= rest);
        assert(xs =~= Seq::<TransferableLogV>::empty());
    } else {
        let tailenc = spec_encode_log_seq(xs.skip(1)) + rest;
        assert(spec_encode_log_seq(xs) + rest =~= spec_encode_log(xs[0]) + tailenc);
        lemma_parse_log_enc(xs[0], tailenc);
        lemma_parse_log_seq_enc(xs.skip(1), rest);
        assert(seq![xs[0]] + xs.skip(1) =~= xs);
    }
}

proof fn lemma_parse_log_seq_sound(
    s: Seq<u8>,
    count: nat,
    xs: Seq<TransferableLogV>,
    rest: Seq<u8>,
)
    requires
        parse_log_seq(s, count) == Some((xs, rest)),
    ensures
        s == spec_encode_log_seq(xs) + rest,
        xs.len() == count,
        forall|i: int| 0 <= i < xs.len() ==> log_fits(#[trigger] xs[i]),
    decreases count,
{
    if count == 0 {
        assert(s =~= spec_encode_log_seq(xs) + rest);
    } else {
        if let Some((x, r)) = parse_log(s) {
            if let Some((ys, r2)) = parse_log_seq(r, (count - 1) as nat) {
                lemma_parse_log_sound(s, x, r);
                lemma_parse_log_seq_sound(r, (count - 1) as nat, ys, r2);
                assert(xs =~= seq![x] + ys);
                assert(xs[0] == x);
                assert(xs.skip(1) =~= ys);
                assert(forall|i: int| 0 < i < xs.len() ==> #[trigger] xs[i] == ys[i - 1]);
                assert(s =~= spec_encode_log(x) + (spec_encode_log_seq(ys) + rest));
                assert(s =~= spec_encode_log_seq(xs) + rest);
            }
        }
    }
}

/// Decoding accepts whatever encoding produced, for every batch whose count
/// and fields fit their prefixes.
pub proof fn lemma_logs_codec_complete(xs: Seq<TransferableLogV>)
    requires
        xs.len() < pow256(8),
        forall|i: int| 0 <= i < xs.len() ==> log_fits(#[trigger] xs[i]),
    ensures
        spec_decode_logs(spec_encode_logs(xs)) == Some(xs),
{
    let body = spec_encode_log_seq(xs);
    assert(spec_encode_logs(xs) =~= le_bytes(xs.len() as nat, 8) + body);
    lemma_parse_uint_enc(xs.len() as nat, 8, body);
    assert(body + Seq::<u8>::empty() =~= body);
    lemma_parse_log_seq_enc(xs, Seq::<u8>::empty());
}

/// Only the encoding of a batch decodes to it.
pub proof fn lemma_logs_codec_sound(s: Seq<u8>, xs: Seq<TransferableLogV>)
    requires
        spec_decode_logs(s) == Some(xs),
    ensures
        s == spec_encode_logs(xs),
        xs.len() < pow256(8),
{
    if let Some((count, r)) = parse_uint(s, 8) {
        if let Some((ys, rest)) = parse_log_seq(r, count) {
            lemma_parse_uint_sound(s, 8, count, r);
            lemma_parse_log_seq_sound(r, count, ys, rest);
            assert(rest =~= Seq::<u8>::empty());
            assert(r =~= spec_encode_log_seq(ys) + rest);
            assert(spec_encode_log_seq(ys) + rest =~= spec_encode_log_seq(ys));
            assert(s =~= le_bytes(count, 8) + spec_encode_log_seq(xs));
        }
    }
}

proof fn lemma_encode_log_seq_push(s: Seq<TransferableLogV>, x: TransferableLogV)
    ensures
        spec_encode_log_seq(s.push(x)) == spec_encode_log_seq(s) + spec_encode_log(x),
    decreases s.len(),
{
    if s.len() == 0 {
        assert(s.push(x)[0] == x);
        assert(s.push(x).skip(1) =~= Seq::<TransferableLogV>::empty());
        assert(spec_encode_log_seq(s.push(x)) == spec_encode_log(x) + spec_encode_log_seq(
            s.push(x).skip(1),
        ));
        assert(spec_encode_log_seq(s.push(x).skip(1)) == Seq::<u8>::empty());
        assert(spec_encode_log_seq(s) == Seq::<u8>::empty());
        assert(spec_encode_log(x) + Seq::<u8>::empty() =~= spec_encode_log(x));
        assert(Seq::<u8>::empty() + spec_encode_log(x) =~= spec_encode_log(x));
    } else {
        lemma_encode_log_seq_push(s.skip(1), x);
        assert(s.push(x)[0] == s[0]);
        assert(s.push(x).skip(1) =~= s.skip(1).push(x));
        assert(spec_encode_log_seq(s.push(x)) == spec_encode_log(s[0]) + spec_encode_log_seq(
            s.skip(1).push(x),
        ));
        assert(spec_encode_log_seq(s) == spec_encode_log(s[0]) + spec_encode_log_seq(
            s.skip(1),
        ));
        assert(spec_encode_log(s[0]) + (spec_encode_log_seq(s.skip(1)) + spec_encode_log(x))
            =~= (spec_encode_log(s[0]) + spec_encode_log_seq(s.skip(1))) + spec_encode_log(x));
    }
}

/// Produces `spec_encode_logs(logs_view(xs@))`.
pub fn encode_transferables(xs: &Vec<TransferableLog>) -> (r: Vec<u8>)
    ensures
        r@ == spec_encode_logs(logs_view(xs@)),
{
    proof {
        lemma_pow256_vals();
        assert(logs_view(xs@).len() == xs@.len());
    }
    let n = xs.len();
    let mut out: Vec<u8> = Vec::new();
    push_uint(&mut out, n as u128, 8);
    let mut i: usize = 0;
    while i < n
        invariant
            n == xs.len(),
            0 <= i <= n,
            out@ =~= le_bytes(n as nat, 8) + spec_encode_log_seq(logs_view(xs@.take(i as int))),
        decreases n - i,
    {
        proof {
            lemma_pow256_vals();
        }
        let x = &xs[i];
        push_bstr(&mut out, &x.inscription_id);
        push_bstr(&mut out, &x.tick);
        push_uint(&mut out, x.amount, 16);
        proof {
            lemma_encode_log_seq_push(logs_view(xs@.take(i as int)), xs@[i as int]@);
            assert(logs_view(xs@.take(i + 1)) =~= logs_view(xs@.take(i as int)).push(
                xs@[i as int]@,
            ));
            assert(out@ =~= le_bytes(n as nat, 8) + spec_encode_log_seq(
                logs_view(xs@.take(i + 1)),
            ));
        }
        i = i + 1;
    }
    assert(xs@.take(n as int) =~= xs@);
    out
}

/// Computes `spec_decode_logs(buf@)`, as a vector of records.
pub fn decode_transferables(buf: &Vec<u8>) -> (r: Option<Vec<TransferableLog>>)
    ensures
        match r {
            Some(v) => spec_decode_logs(buf@) == Some(logs_view(v@)),
            None => spec_decode_logs(buf@) is None,
        },
{
    proof {
        lemma_pow256_vals();
    }
    let blen = buf.len();
    if blen < 8 {
        return None;
    }
    let count = read_uint(buf, 0, 8);
    proof {
        assert(buf@.take(8) =~= buf@.subrange(0, 8));
    }
    let mut acc: Vec<TransferableLog> = Vec::new();
    let mut pos: usize = 8;
    let mut done: u128 = 0;
    proof {
        if let Some((ys, rest)) = parse_log_seq(buf@.skip(8), count as nat) {
            assert(logs_view(acc@) + ys =~= ys);
        }
    }
    while done < count
        invariant
            blen == buf@.len(),
            8 <= pos <= blen,
            done <= count,
            parse_uint(buf@, 8) == Some(((count as nat), buf@.skip(8))),
            match parse_log_seq(buf@.skip(pos as int), (count - done) as nat) {
                Some((ys, rest)) => parse_log_seq(buf@.skip(8), count as nat) == Some(
                    (logs_view(acc@) + ys, rest),
                ),
                None => parse_log_seq(buf@.skip(8), count as nat) is None,
            },
        decreases count - done,
    {
        let id_r = read_bstr(buf, pos);
        match id_r {
            None => {
                return None;
            },
            Some((id, p1)) => {
                let tick_r = read_bstr(buf, p1);
                match tick_r {
                    None => {
                        return None;
                    },
                    Some((tick, p2)) => {
                        if blen - p2 < 16 {
                            return None;
                        }
                        let amount = read_uint(buf, p2, 16);
                        proof {
                            assert(buf@.skip(p2 as int).take(16) =~= buf@.subrange(
                                p2 as int,
                                p2 + 16,
                            ));
                            assert(buf@.skip(p2 as int).skip(16) =~= buf@.skip(p2 + 16));
                        }
                        let x = TransferableLog { inscription_id: id, tick, amount };
                        proof {
                            assert(parse_log(buf@.skip(pos as int)) == Some(
                                (x@, buf@.skip(p2 + 16)),
                            ));
                            if let Some((ys, rest)) = parse_log_seq(
                                buf@.skip(p2 + 16),
                                (count - done - 1) as nat,
                            ) {
                                assert(parse_log_seq(
                                    buf@.skip(pos as int),
                                    (count - done) as nat,
                                ) == Some((seq![x@] + ys, rest)));
                                assert(logs_view(acc@) + (seq![x@] + ys) =~= logs_view(
                                    acc@.push(x),
                                ) + ys);
                            }
                        }
                        acc.push(x);
                        pos = p2 + 16;
                        done = done + 1;
                    },
                }
            },
        }
    }
    proof {
        assert(parse_log_seq(buf@.skip(pos as int), 0) == Some(
            (Seq::<TransferableLogV>::empty(), buf@.skip(pos as int)),
        ));
        assert(logs_view(acc@) + Seq::<TransferableLogV>::empty() =~= logs_view(acc@));
    }
    if pos != blen {
        return None;
    }
    Some(acc)
}

} // verus!
