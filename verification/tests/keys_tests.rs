use brc20_reader::keys::{
    max_script_tick_key, min_script_tick_key, script_tick_key, ScriptKey, Ticker,
};

fn owner(bytes: &[u8]) -> ScriptKey {
    ScriptKey::new(bytes.to_vec()).unwrap()
}

fn ticker(bytes: &[u8]) -> Ticker {
    Ticker::new(bytes.to_vec()).unwrap()
}

#[test]
fn point_key_is_owner_separator_ticker() {
    let key = script_tick_key(&owner(b"abc"), &ticker(b"aaaa"));
    assert_eq!(key, b"abc\x00aaaa".to_vec());
}

#[test]
fn ticker_is_lowercase_normalized() {
    let t = ticker(b"PePe");
    assert_eq!(t.as_bytes(), &b"pepe".to_vec());
    let key = script_tick_key(&owner(b"abc"), &t);
    assert_eq!(key, b"abc\x00pepe".to_vec());
}

#[test]
fn bounds_bracket_the_owner() {
    let o = owner(b"abc");
    assert_eq!(min_script_tick_key(&o), b"abc\x00".to_vec());
    assert_eq!(max_script_tick_key(&o), b"abc\x00\xff".to_vec());
}

#[test]
fn invalid_owners_are_rejected() {
    assert!(ScriptKey::new(Vec::new()).is_none());
    assert!(ScriptKey::new(b"a\x00b".to_vec()).is_none());
    assert!(ScriptKey::new(b"a\xffb".to_vec()).is_some());
}

#[test]
fn invalid_tickers_are_rejected() {
    assert!(Ticker::new(Vec::new()).is_none());
    assert!(Ticker::new(b"a\x00b".to_vec()).is_none());
    assert!(Ticker::new(b"a\xffb".to_vec()).is_none());
    assert!(Ticker::new(b"ordi".to_vec()).is_some());
}

#[test]
fn point_keys_sort_by_ticker() {
    let o = owner(b"abc");
    let k1 = script_tick_key(&o, &ticker(b"aaaa"));
    let k2 = script_tick_key(&o, &ticker(b"bbbb"));
    assert!(min_script_tick_key(&o) <= k1);
    assert!(k1 < k2);
    assert!(k2 < max_script_tick_key(&o));
}

struct Lcg(u64);

impl Lcg {
    fn next(&mut self) -> u64 {
        self.0 = self.0.wrapping_mul(6364136223846793005).wrapping_add(1442695040888963407);
        self.0 >> 33
    }

    fn bytes(&mut self, lo: u8, hi: u8) -> Vec<u8> {
        let len = 1 + (self.next() as usize % 6);
        (0..len).map(|_| lo + (self.next() as u8 % (hi - lo + 1))).collect()
    }
}

#[test]
fn no_foreign_owner_key_enters_a_range() {
    // randomly generated owner and ticker encodings: for owners o1 != o2,
    // no point key of o2 lies in [min(o1), max(o1))
    let mut rng = Lcg(42);
    for _ in 0..500 {
        let o1_bytes = rng.bytes(1, 255);
        let o2_bytes = rng.bytes(1, 255);
        if o1_bytes == o2_bytes {
            continue;
        }
        let o1 = ScriptKey::new(o1_bytes).unwrap();
        let o2 = ScriptKey::new(o2_bytes).unwrap();
        let t = Ticker::new(rng.bytes(b'a', b'z')).unwrap();
        let lo = min_script_tick_key(&o1);
        let hi = max_script_tick_key(&o1);
        let foreign = script_tick_key(&o2, &t);
        assert!(
            !(lo <= foreign && foreign < hi),
            "key of the other owner fell inside the range",
        );
    }
}

#[test]
fn own_point_keys_stay_inside_the_range() {
    let mut rng = Lcg(7);
    for _ in 0..500 {
        let o = ScriptKey::new(rng.bytes(1, 255)).unwrap();
        let t = Ticker::new(rng.bytes(1, 254)).unwrap();
        let lo = min_script_tick_key(&o);
        let hi = max_script_tick_key(&o);
        let key = script_tick_key(&o, &t);
        assert!(lo <= key && key < hi);
    }
}
