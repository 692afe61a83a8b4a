//! Plain-value model of the chain objects the worker reasons about.
use vstd::prelude::*;

verus! {

/// Compares two 32-byte hashes.
pub fn hash_eq(a: &[u8; 32], b: &[u8; 32]) -> (r: bool)
    ensures
        r == (*a == *b),
{
    let mut i: usize = 0;
    while i < 32
        invariant
            0 <= i <= 32,
            forall|j: int| 0 <= j < i ==> a@[j] == b@[j],
        decreases 32 - i,
    {
        if a[i] != b[i] {
            assert(a@[i as int] != b@[i as int]);
            return false;
        }
        i = i + 1;
    }
    assert(*a =~= *b);
    true
}

/// Identifies a coin: the hash of the transaction that created it and its output index.
#[derive(Clone, Copy, Debug, PartialEq, Eq, Hash)]
pub struct CoinId {
    pub txhash: [u8; 32],
    pub index: u8,
}

/// The denomination of a coin.
#[derive(Clone, Copy, Debug, PartialEq, Eq, Hash)]
pub enum Denom {
    Mel,
    Sym,
    NomDosc,
    /// A fresh token; the chain renames it `Custom(txhash)` once confirmed.
    NewCoin,
    Custom([u8; 32]),
}

/// The contents of a coin that the worker reads: owner, value and denomination.
#[derive(Clone, Copy, Debug, PartialEq, Eq, Hash)]
pub struct CoinData {
    pub covhash: [u8; 32],
    pub value: u128,
    pub denom: Denom,
}

/// A coin's contents together with the height of the block that confirmed it.
#[derive(Clone, Copy, Debug, PartialEq, Eq, Hash)]
pub struct CoinDataHeight {
    pub coin_data: CoinData,
    pub height: u64,
}

impl Denom {
    pub fn same(&self, other: &Denom) -> (r: bool)
        ensures
            r == (*self == *other),
    {
        match (self, other) {
            (Denom::Mel, Denom::Mel) => true,
            (Denom::Sym, Denom::Sym) => true,
            (Denom::NomDosc, Denom::NomDosc) => true,
            (Denom::NewCoin, Denom::NewCoin) => true,
            (Denom::Custom(a), Denom::Custom(b)) => hash_eq(a, b),
            _ => false,
        }
    }
}

} // verus!
