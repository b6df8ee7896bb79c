//! The token registry: the number and the fixed-point precision of each asset.

use vstd::prelude::*;
use vstd::string::StrSliceExecFns;

verus! {

/// Whether two strings hold the same characters.
pub fn str_eq(a: &str, b: &str) -> (r: bool)
    ensures
        r == (a@ == b@),
{
    let n = a.unicode_len();
    if n != b.unicode_len() {
        return false;
    }
    let mut i: usize = 0;
    while i < n
        invariant
            i <= n,
            n == a@.len(),
            n == b@.len(),
            forall|k: int| 0 <= k < i ==> a@[k] == b@[k],
        decreases n - i,
    {
        if a.get_char(i) != b.get_char(i) {
            return false;
        }
        i = i + 1;
    }
    assert(a@ =~= b@);
    true
}

/// The token that an asset's name stands for, if the asset is registered.
pub open spec fn token_of(name: Seq<char>) -> Option<u32> {
    if name == "ETH"@ {
        Some(0u32)
    } else if name == "USDT"@ {
        Some(1u32)
    } else {
        None
    }
}

/// The number of decimal places in which amounts of a token are counted, if the token is
/// registered.
pub open spec fn prec_of(token_id: u32) -> Option<u32> {
    if token_id == 0 || token_id == 1 {
        Some(6u32)
    } else {
        None
    }
}

/// The token that an asset's name stands for, if the asset is registered.
pub fn find_token(token_name: &str) -> (r: Option<u32>)
    ensures
        r == token_of(token_name@),
{
    if str_eq(token_name, "ETH") {
        Some(0)
    } else if str_eq(token_name, "USDT") {
        Some(1)
    } else {
        None
    }
}

/// The token that the name of a registered asset stands for.
pub fn token_id(token_name: &str) -> (r: u32)
    requires
        token_of(token_name@) is Some,
    ensures
        Some(r) == token_of(token_name@),
{
    find_token(token_name).unwrap()
}

/// The number of decimal places of a token, if the token is registered.
pub fn find_prec(token_id: u32) -> (r: Option<u32>)
    ensures
        r == prec_of(token_id),
{
    if token_id == 0 || token_id == 1 {
        Some(6)
    } else {
        None
    }
}

/// The number of decimal places of a registered token.
pub fn prec(token_id: u32) -> (r: u32)
    requires
        prec_of(token_id) is Some,
    ensures
        Some(r) == prec_of(token_id),
{
    find_prec(token_id).unwrap()
}

} // verus!
