//! What a client needs to connect to a listener, and its encoding in bytes.

use vstd::prelude::*;

use crate::raw_msg::{be_bytes, be_value, lemma_be_bytes_of_value, lemma_be_roundtrip, push_be_u32};

verus! {

/// The big-endian bytes of `x`.
pub open spec fn be64_bytes(x: u64) -> Seq<u8> {
    be_bytes((x / 0x1_0000_0000) as u32) + be_bytes((x % 0x1_0000_0000) as u32)
}

/// The `u64` whose big-endian bytes are the eight bytes of `b`.
pub open spec fn be64_value(b: Seq<u8>) -> u64
    recommends
        b.len() == 8,
{
    (be_value(b.subrange(0, 4)) * 0x1_0000_0000 + be_value(b.subrange(4, 8))) as u64
}

/// The Steam id that an identity made from the raw id `raw` reports: none for 0,
/// which is no Steam user.
pub open spec fn steam_id_of_raw(raw: u64) -> Option<u64> {
    if raw == 0 {
        None
    } else {
        Some(raw)
    }
}

/// The identity of a remote: its Steam id, or `None` for an identity that is not a
/// Steam user.
#[derive(Debug, Clone, Copy, PartialEq, Eq, Structural)]
pub struct ConnectInfo {
    pub steam_id: Option<u64>,
}

fn read_be_u64(value: &[u8]) -> (r: u64)
    requires
        value@.len() == 8,
    ensures
        r == be64_value(value@),
{
    let mut r: u64 = 0;
    let mut i: usize = 0;
    while i < 8
        invariant
            i <= 8,
            value@.len() == 8,
            r == be_prefix_value(value@, i as int),
        decreases 8 - i,
    {
        proof {
            lemma_be_prefix_bound(value@, i as int);
            lemma_pow256_bound(i as int);
            let p = pow256(i as int);
            assert(r * 0x100 + 0xff <= 0xffff_ffff_ffff_ffff) by (nonlinear_arith)
                requires
                    0 <= r < p,
                    p * 0x100 <= 0x1_0000_0000_0000_0000,
            ;
        }
        r = r * 0x100 + value[i] as u64;
        i += 1;
    }
    proof {
        lemma_be_prefix_full(value@);
    }
    r
}

/// The value of the first `n` bytes of `b`, read big-endian.
spec fn be_prefix_value(b: Seq<u8>, n: int) -> int
    decreases n,
{
    if n <= 0 {
        0
    } else {
        be_prefix_value(b, n - 1) * 0x100 + b[n - 1]
    }
}

proof fn lemma_be_prefix_bound(b: Seq<u8>, n: int)
    requires
        0 <= n <= 8,
        b.len() == 8,
    ensures
        0 <= be_prefix_value(b, n) < pow256(n),
    decreases n,
{
    if n > 0 {
        lemma_be_prefix_bound(b, n - 1);
    }
    lemma_pow256_bound(n);
}

spec fn pow256(n: int) -> int
    decreases n,
{
    if n <= 0 {
        1
    } else {
        0x100 * pow256(n - 1)
    }
}

proof fn lemma_pow256_bound(n: int)
    requires
        0 <= n <= 8,
    ensures
        0 < pow256(n),
        n < 8 ==> pow256(n) * 0x100 <= 0x1_0000_0000_0000_0000,
    decreases n,
{
    reveal_with_fuel(pow256, 9);
}

proof fn lemma_be_prefix_full(b: Seq<u8>)
    requires
        b.len() == 8,
    ensures
        be_prefix_value(b, 8) == be64_value(b),
{
    reveal_with_fuel(be_prefix_value, 9);
    lemma_be_prefix_bound(b, 8);
    let hi = b.subrange(0, 4);
    let lo = b.subrange(4, 8);
    assert(hi[0] == b[0] && hi[1] == b[1] && hi[2] == b[2] && hi[3] == b[3]);
    assert(lo[0] == b[4] && lo[1] == b[5] && lo[2] == b[6] && lo[3] == b[7]);
}

impl ConnectInfo {
    /// The identity of the Steam user `steam_id`; the raw id 0 names no Steam user.
    pub fn new(steam_id: u64) -> (r: Self)
        ensures
            r.steam_id == steam_id_of_raw(steam_id),
    {
        if steam_id == 0 {
            ConnectInfo { steam_id: None }
        } else {
            ConnectInfo { steam_id: Some(steam_id) }
        }
    }

    /// Reads the big-endian Steam id in `value`; fails unless `value` is exactly
    /// eight bytes long. Eight zero bytes give an identity of no Steam user.
    pub fn from_bytes(value: &[u8]) -> (r: Result<Self, ()>)
        ensures
            r == (if value@.len() == 8 {
                Ok(ConnectInfo { steam_id: steam_id_of_raw(be64_value(value@)) })
            } else {
                Err(())
            }),
    {
        if value.len() != 8 {
            return Err(());
        }
        Ok(Self::new(read_be_u64(value)))
    }

    /// The eight big-endian bytes of the Steam id; fails for an identity that is
    /// not a Steam user.
    pub fn to_bytes(self) -> (r: Result<Vec<u8>, ()>)
        ensures
            match self.steam_id {
                Some(id) => r matches Ok(b) && b@ == be64_bytes(id),
                None => r is Err,
            },
    {
        let Some(steam_id) = self.steam_id else {
            return Err(());
        };
        let mut b: Vec<u8> = Vec::new();
        let hi = (steam_id / 0x1_0000_0000) as u32;
        let lo = (steam_id % 0x1_0000_0000) as u32;
        push_be_u32(&mut b, hi);
        push_be_u32(&mut b, lo);
        assert(b@ =~= be64_bytes(steam_id));
        Ok(b)
    }
}

impl<'a> TryFrom<&'a [u8]> for ConnectInfo {
    type Error = ();

    fn try_from(value: &'a [u8]) -> (r: Result<Self, ()>) {
        Self::from_bytes(value)
    }
}

impl<'a> vstd::std_specs::convert::TryFromSpecImpl<&'a [u8]> for ConnectInfo {
    open spec fn obeys_try_from_spec() -> bool {
        true
    }

    open spec fn try_from_spec(value: &'a [u8]) -> Result<Self, ()> {
        if value@.len() == 8 {
            Ok(ConnectInfo { steam_id: steam_id_of_raw(be64_value(value@)) })
        } else {
            Err(())
        }
    }
}

impl vstd::std_specs::convert::TryIntoSpecImpl<Vec<u8>> for ConnectInfo {
    open spec fn obeys_try_into_spec() -> bool {
        false
    }

    open spec fn try_into_spec(self) -> Result<Vec<u8>, ()> {
        Err(())
    }
}

/// `r` is the byte form of `steam_id`: its eight big-endian bytes, or an error for
/// an identity that is not a Steam user.
pub open spec fn bytes_of_steam_id(r: Result<Vec<u8>, ()>, steam_id: Option<u64>) -> bool {
    match steam_id {
        Some(id) => r matches Ok(b) && b@ == be64_bytes(id),
        None => r is Err,
    }
}

impl TryInto<Vec<u8>> for ConnectInfo {
    type Error = ();

    fn try_into(self) -> (r: Result<Vec<u8>, ()>)
        ensures
            bytes_of_steam_id(r, self.steam_id),
    {
        self.to_bytes()
    }
}

/// Eight bytes read as a Steam id and written back are the same bytes.
pub proof fn lemma_bytes_roundtrip(b: Seq<u8>)
    requires
        b.len() == 8,
    ensures
        be64_bytes(be64_value(b)) == b,
{
    let hi = b.subrange(0, 4);
    let lo = b.subrange(4, 8);
    let vh = be_value(hi);
    let vl = be_value(lo);
    let x = be64_value(b);
    assert(x == vh * 0x1_0000_0000 + vl);
    assert(x / 0x1_0000_0000 == vh && x % 0x1_0000_0000 == vl) by (nonlinear_arith)
        requires
            0 <= vl < 0x1_0000_0000,
            x == vh * 0x1_0000_0000 + vl,
    ;
    lemma_be_bytes_of_value(hi);
    lemma_be_bytes_of_value(lo);
    assert(be64_bytes(x) =~= hi + lo);
    assert(hi + lo =~= b);
}

/// A Steam id written as bytes and read back is the same id.
pub proof fn lemma_id_roundtrip(id: u64)
    ensures
        be64_bytes(id).len() == 8,
        be64_value(be64_bytes(id)) == id,
{
    let hi = (id / 0x1_0000_0000) as u32;
    let lo = (id % 0x1_0000_0000) as u32;
    let b = be64_bytes(id);
    assert(b.subrange(0, 4) =~= be_bytes(hi));
    assert(b.subrange(4, 8) =~= be_bytes(lo));
    lemma_be_roundtrip(hi);
    lemma_be_roundtrip(lo);
}


/// Eight bytes read into a `ConnectInfo` and written back give the same bytes,
/// except eight zero bytes, which name no Steam user and cannot be written back.
pub proof fn lemma_connect_info_bytes_roundtrip(b: Seq<u8>)
    requires
        b.len() == 8,
    ensures
        be64_value(b) != 0 ==> (steam_id_of_raw(be64_value(b)) matches Some(id) && be64_bytes(id) == b),
        be64_value(b) == 0 ==> steam_id_of_raw(be64_value(b)) is None,
{
    lemma_bytes_roundtrip(b);
}

} // verus!
