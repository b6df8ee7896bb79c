//! The messages of the matching engine that the state engine replays.

use crate::decimal::Decimal;
use crate::registry::str_eq;
use vstd::prelude::*;

verus! {

/// The side of a trade that an order was on.
#[allow(non_camel_case_types)]
#[derive(Clone, Copy, Debug, PartialEq, Eq, Structural)]
pub enum MarketRole {
    MAKER,
    TAKER,
}

/// A change of one balance of one user. `balance` is the balance after the change.
#[derive(Debug)]
pub struct BalanceMessage {
    pub user_id: u32,
    pub asset: String,
    pub change: Decimal,
    pub balance: Decimal,
}

/// An order as the matching engine sees it.
#[derive(Clone, Copy, Debug)]
pub struct VerboseOrderState {
    pub amount: Decimal,
    pub price: Decimal,
    pub finished_base: Decimal,
    pub finished_quote: Decimal,
}

/// The four balances that a trade touches.
#[derive(Clone, Copy, Debug)]
pub struct VerboseBalanceState {
    pub bid_user_base: Decimal,
    pub bid_user_quote: Decimal,
    pub ask_user_base: Decimal,
    pub ask_user_quote: Decimal,
}

/// The two orders and the four balances of a trade, before or after it.
#[derive(Clone, Copy, Debug)]
pub struct VerboseTradeState {
    pub ask_order_state: VerboseOrderState,
    pub bid_order_state: VerboseOrderState,
    pub balance: VerboseBalanceState,
}

/// A trade between an ask order and a bid order on the market `BASE_QUOTE`.
#[derive(Debug)]
pub struct TradeMessage {
    pub id: u64,
    pub market: String,
    pub amount: Decimal,
    pub price: Decimal,
    pub quote_amount: Decimal,
    pub ask_user_id: u32,
    pub bid_user_id: u32,
    pub ask_order_id: u64,
    pub bid_order_id: u64,
    pub ask_role: MarketRole,
    pub bid_role: MarketRole,
    pub state_before: VerboseTradeState,
    pub state_after: VerboseTradeState,
}

impl Clone for BalanceMessage {
    fn clone(&self) -> (r: BalanceMessage)
        ensures
            r == *self,
    {
        BalanceMessage {
            user_id: self.user_id,
            asset: self.asset.clone(),
            change: self.change,
            balance: self.balance,
        }
    }
}

impl Clone for TradeMessage {
    fn clone(&self) -> (r: TradeMessage)
        ensures
            r == *self,
    {
        TradeMessage {
            id: self.id,
            market: self.market.clone(),
            amount: self.amount,
            price: self.price,
            quote_amount: self.quote_amount,
            ask_user_id: self.ask_user_id,
            bid_user_id: self.bid_user_id,
            ask_order_id: self.ask_order_id,
            bid_order_id: self.bid_order_id,
            ask_role: self.ask_role,
            bid_role: self.bid_role,
            state_before: self.state_before,
            state_after: self.state_after,
        }
    }
}

/// The kinds of message.
#[derive(Clone, Copy, Debug, PartialEq, Eq, Structural)]
pub enum MessageKind {
    Balance,
    Order,
    Trade,
}

/// The kind of message that a type name stands for, if it is one.
pub open spec fn kind_of(name: Seq<char>) -> Option<MessageKind> {
    if name == "BalanceMessage"@ {
        Some(MessageKind::Balance)
    } else if name == "OrderMessage"@ {
        Some(MessageKind::Order)
    } else if name == "TradeMessage"@ {
        Some(MessageKind::Trade)
    } else {
        None
    }
}

/// The kind of message that the `type` field of a record names, if it names one.
pub fn message_kind(name: &str) -> (r: Option<MessageKind>)
    ensures
        r == kind_of(name@),
{
    if str_eq(name, "BalanceMessage") {
        Some(MessageKind::Balance)
    } else if str_eq(name, "OrderMessage") {
        Some(MessageKind::Order)
    } else if str_eq(name, "TradeMessage") {
        Some(MessageKind::Trade)
    } else {
        None
    }
}

} // verus!
