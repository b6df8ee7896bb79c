//! The layout of the payload of a placed order.

use crate::common::TX_LENGTH;
use crate::field::fr_of;
use crate::field::Fr;
use vstd::prelude::*;

verus! {

/// What the payload of a placed order is encoded from.
pub struct PlaceOrderTxData {
    pub order_pos: Fr,
    pub old_order_id: Fr,
    pub new_order_id: Fr,
    pub old_order_tokensell: Fr,
    pub old_order_filledsell: Fr,
    pub old_order_amountsell: Fr,
    pub old_order_tokenbuy: Fr,
    pub old_order_filledbuy: Fr,
    pub old_order_amountbuy: Fr,
    pub new_order_tokensell: Fr,
    pub new_order_amountsell: Fr,
    pub new_order_tokenbuy: Fr,
    pub new_order_amountbuy: Fr,
    pub account_id: Fr,
    pub balance: Fr,
    pub nonce: Fr,
    pub sign: Fr,
    pub ay: Fr,
    pub eth_addr: Fr,
}

/// A payload of zeros.
pub open spec fn zero_payload() -> Seq<Fr> {
    Seq::new(TX_LENGTH as nat, |i: int| fr_of(0))
}

impl PlaceOrderTxData {
    /// The fields in the order of their declaration.
    pub open spec fn fields(self) -> Seq<Fr> {
        seq![
            self.order_pos,
            self.old_order_id,
            self.new_order_id,
            self.old_order_tokensell,
            self.old_order_filledsell,
            self.old_order_amountsell,
            self.old_order_tokenbuy,
            self.old_order_filledbuy,
            self.old_order_amountbuy,
            self.new_order_tokensell,
            self.new_order_amountsell,
            self.new_order_tokenbuy,
            self.new_order_amountbuy,
            self.account_id,
            self.balance,
            self.nonce,
            self.sign,
            self.ay,
            self.eth_addr,
        ]
    }

    /// The payload: the fields, then zeros up to the payload's length.
    pub open spec fn encode_spec(self) -> Seq<Fr> {
        Seq::new(
            TX_LENGTH as nat,
            |i: int|
                if i < 19 {
                    self.fields()[i]
                } else {
                    fr_of(0)
                },
        )
    }
}


/// A payload of zeros.
pub fn zero_payload_vec() -> (r: Vec<Fr>)
    ensures
        r@ == zero_payload(),
{
    let mut r: Vec<Fr> = Vec::new();
    let mut i: usize = 0;
    while i < TX_LENGTH
        invariant
            i <= TX_LENGTH,
            r@.len() == i,
            forall|k: int| 0 <= k < i ==> r@[k] == fr_of(0),
        decreases TX_LENGTH - i,
    {
        r.push(Fr::zero());
        i = i + 1;
    }
    assert(r@ =~= zero_payload());
    r
}

impl PlaceOrderTxData {
    /// The payload: the fields in the order of their declaration, then zeros.
    pub fn encode(&self) -> (r: Vec<Fr>)
        ensures
            r@ == self.encode_spec(),
    {
        let mut r: Vec<Fr> = Vec::new();
        r.push(self.order_pos);
        r.push(self.old_order_id);
        r.push(self.new_order_id);
        r.push(self.old_order_tokensell);
        r.push(self.old_order_filledsell);
        r.push(self.old_order_amountsell);
        r.push(self.old_order_tokenbuy);
        r.push(self.old_order_filledbuy);
        r.push(self.old_order_amountbuy);
        r.push(self.new_order_tokensell);
        r.push(self.new_order_amountsell);
        r.push(self.new_order_tokenbuy);
        r.push(self.new_order_amountbuy);
        r.push(self.account_id);
        r.push(self.balance);
        r.push(self.nonce);
        r.push(self.sign);
        r.push(self.ay);
        r.push(self.eth_addr);
        assert(r@ =~= self.fields());
        let ghost fields = r@;
        while r.len() < TX_LENGTH
            invariant
                19 <= r@.len() <= TX_LENGTH,
                fields == self.fields(),
                forall|k: int| 0 <= k < 19 ==> r@[k] == fields[k],
                forall|k: int| 19 <= k < r@.len() ==> r@[k] == fr_of(0),
            decreases TX_LENGTH - r@.len(),
        {
            r.push(Fr::zero());
        }
        assert(r@ =~= self.encode_spec());
        r
    }
}

} // verus!
