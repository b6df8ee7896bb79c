//! The adapter between the messages of the matching engine and the state engine.
//!
//! The matching engine names users and orders by its own ids. The adapter gives each user an
//! account on first sight and each order a slot when it is first seen in a trade, checks what
//! the messages say of balances and orders against the ledger, and applies the messages as
//! transactions. A message that disagrees with the ledger is refused.

use crate::common::DepositToOldTx;
use crate::common::Order;
use crate::common::PlaceOrderTx;
use crate::common::SpotTradeTx;
use crate::decimal::decimal_of;
use crate::decimal::decimal_product;
use crate::decimal::lemma_decimal_of_view;
use crate::field::fr_of_u32;
use crate::field::lemma_fr_of_value;
use crate::ledger::lemma_scan_from;
use crate::field::Fr;
use crate::messages::MarketRole;
use crate::messages::TradeMessage;
use crate::messages::VerboseBalanceState;
use crate::messages::VerboseOrderState;
use vstd::string::StrSliceExecFns;
use crate::decimal::decimal_difference;
use crate::decimal::number_to_integer;
use crate::decimal::number_to_integer_spec;
use crate::decimal::view_of;
use crate::decimal::Decimal;
use crate::global_state::GlobalState;
use crate::ledger::Ledger;
use crate::messages::BalanceMessage;
use crate::registry::find_prec;
use crate::registry::find_token;
use crate::registry::prec_of;
use crate::registry::token_of;
use std::collections::HashMap;
use vstd::arithmetic::power2::pow2;
use vstd::prelude::*;

verus! {

/// Why a message was refused.
#[derive(Clone, Copy, Debug, PartialEq, Eq, Structural)]
pub enum ReplayError {
    /// The account tree has no room for another account.
    AccountsFull,
    /// The change of a balance is negative: only deposits are replayed.
    NegativeChange,
    /// The asset is not in the token registry.
    UnknownAsset,
    /// The market is not of the form `BASE_QUOTE`.
    UnknownMarket,
    /// The token has no leaf in the balance trees.
    TokenOutOfRange,
    /// A difference or product of decimal numbers overflowed.
    Overflow,
    /// The balance before a deposit would be negative.
    InvalidBalance,
    /// An amount is negative, is not a whole number of the token's units, or is too large.
    NotRepresentable,
    /// The balances that the message states are not those of the ledger.
    BalanceMismatch,
    /// The orders that the message states are not those of the ledger.
    OrderMismatch,
    /// The account does not exist.
    UnknownAccount,
    /// The order is not recorded in the ledger.
    UnknownOrder,
    /// Every order slot of the account holds an order that is not filled.
    OrderSlotsFull,
    /// The order id is that of another order of the account.
    OrderIdInUse,
    /// The order id is not below the number of order slots.
    OrderIdOutOfRange,
    /// A seller does not hold more than it sends.
    InsufficientBalance,
}

/// The cursor that the order slots of a new account start with.
pub const FIRST_ORDER_SLOT: u32 = 1;

// ----- deposits -----
/// What a deposit message leads to: the transaction to apply, or the reason to refuse.
/// `before` is the balance before the deposit as the message implies it, if it could be
/// computed.
pub open spec fn deposit_decision(
    l: Ledger,
    account_id: u32,
    asset: Seq<char>,
    change: (int, nat),
    before: Option<(int, nat)>,
) -> Result<DepositToOldTx, ReplayError> {
    if change.0 < 0 {
        Err(ReplayError::NegativeChange)
    } else if token_of(asset) is None {
        Err(ReplayError::UnknownAsset)
    } else if before is None {
        Err(ReplayError::Overflow)
    } else if before.unwrap().0 < 0 {
        Err(ReplayError::InvalidBalance)
    } else if account_id >= l.count() {
        Err(ReplayError::UnknownAccount)
    } else if token_of(asset).unwrap() >= pow2(l.balance_levels) {
        Err(ReplayError::TokenOutOfRange)
    } else {
        let token_id = token_of(asset).unwrap();
        let prec = prec_of(token_id).unwrap() as nat;
        let expected = number_to_integer_spec(before.unwrap(), prec);
        let amount = number_to_integer_spec(change, prec);
        if expected is None {
            Err(ReplayError::NotRepresentable)
        } else if expected.unwrap() != l.balances[account_id as int][token_id as int] {
            Err(ReplayError::BalanceMismatch)
        } else if amount is None {
            Err(ReplayError::NotRepresentable)
        } else {
            Ok(DepositToOldTx { account_id, token_id, amount: amount.unwrap() })
        }
    }
}

/// Decides what a deposit message leads to, without changing anything.
pub fn check_deposit(
    state: &GlobalState,
    account_id: u32,
    asset: &str,
    change: &Decimal,
    before: Option<Decimal>,
) -> (r: Result<DepositToOldTx, ReplayError>)
    requires
        state.wf(),
    ensures
        r == deposit_decision(state@, account_id, asset@, change@, view_of(before)),
        r is Ok ==> state@.can_deposit(r.unwrap()),
{
    proof {
        state.lemma_wf();
        crate::merkle::lemma_pow2_fits(state@.balance_levels);
    }
    if change.is_sign_negative() {
        return Err(ReplayError::NegativeChange);
    }
    let token_id = match find_token(asset) {
        Some(t) => t,
        None => {
            return Err(ReplayError::UnknownAsset);
        },
    };
    let balance_before = match before {
        Some(b) => b,
        None => {
            return Err(ReplayError::Overflow);
        },
    };
    if balance_before.is_sign_negative() {
        return Err(ReplayError::InvalidBalance);
    }
    if !state.has_account(account_id) {
        return Err(ReplayError::UnknownAccount);
    }
    if token_id >= state.max_token_num() {
        return Err(ReplayError::TokenOutOfRange);
    }
    let prec = find_prec(token_id).unwrap();
    let expected_balance_before = state.get_token_balance(account_id, token_id);
    match number_to_integer(&balance_before, prec) {
        Some(expected) => {
            if expected != expected_balance_before {
                return Err(ReplayError::BalanceMismatch);
            }
        },
        None => {
            return Err(ReplayError::NotRepresentable);
        },
    }
    match number_to_integer(change, prec) {
        Some(amount) => Ok(DepositToOldTx { token_id, account_id, amount }),
        None => Err(ReplayError::NotRepresentable),
    }
}

/// Applies a deposit message to an account, or refuses it and changes nothing. `before` is
/// the balance before the deposit as the message implies it, if it could be computed.
pub fn apply_deposit(
    state: &mut GlobalState,
    account_id: u32,
    asset: &str,
    change: &Decimal,
    before: Option<Decimal>,
) -> (r: Result<(), ReplayError>)
    requires
        old(state).wf(),
    ensures
        final(state).wf(),
        match deposit_decision(old(state)@, account_id, asset@, change@, view_of(before)) {
            Ok(tx) => r is Ok && final(state)@ == old(state)@.deposit_to_old(tx),
            Err(e) => r == Err::<(), ReplayError>(e) && final(state)@ == old(state)@,
        },
{
    match check_deposit(state, account_id, asset, change, before) {
        Ok(tx) => {
            state.deposit_to_old(tx);
            Ok(())
        },
        Err(e) => Err(e),
    }
}

// ----- accounts -----
/// The accounts of the users seen so far. Its view maps the id of a user to the number of its
/// account.
pub struct PlaceAccount {
    accounts: HashMap<u32, u32>,
}

impl View for PlaceAccount {
    type V = Map<u32, u32>;

    closed spec fn view(&self) -> Map<u32, u32> {
        self.accounts@
    }
}

/// Whether a user has an account or can be given one.
pub open spec fn can_bind(l: Ledger, m: Map<u32, u32>, user_id: u32) -> bool {
    m.contains_key(user_id) || l.count() < pow2(l.account_levels)
}

/// The account of a user: the one it has, or else the next new one.
pub open spec fn bound_account(l: Ledger, m: Map<u32, u32>, user_id: u32) -> u32 {
    if m.contains_key(user_id) {
        m[user_id]
    } else {
        l.count() as u32
    }
}

/// The ledger after a user has been given an account, if it had none.
pub open spec fn bound_ledger(l: Ledger, m: Map<u32, u32>, user_id: u32) -> Ledger {
    if m.contains_key(user_id) {
        l
    } else {
        l.create_new_account(FIRST_ORDER_SLOT)
    }
}

/// The accounts of the users after a user has been given an account, if it had none.
pub open spec fn bound_map(l: Ledger, m: Map<u32, u32>, user_id: u32) -> Map<u32, u32> {
    if m.contains_key(user_id) {
        m
    } else {
        m.insert(user_id, l.count() as u32)
    }
}

impl Default for PlaceAccount {
    fn default() -> (r: PlaceAccount)
        ensures
            r@ == Map::<u32, u32>::empty(),
    {
        PlaceAccount::new()
    }
}

impl PlaceAccount {
    /// No user has been seen.
    pub fn new() -> (r: PlaceAccount)
        ensures
            r@ == Map::<u32, u32>::empty(),
    {
        PlaceAccount { accounts: HashMap::new() }
    }

    /// The account of a user, if the user has been seen.
    pub fn get(&self, user_id: u32) -> (r: Option<u32>)
        ensures
            r == if self@.contains_key(user_id) {
                Some(self@[user_id])
            } else {
                None
            },
    {
        match self.accounts.get(&user_id) {
            Some(account_id) => Some(*account_id),
            None => None,
        }
    }

    /// Whether a user has an account or can be given one.
    pub fn can_obtain(&self, state: &GlobalState, user_id: u32) -> (r: bool)
        requires
            state.wf(),
        ensures
            r == can_bind(state@, self@, user_id),
    {
        proof {
            state.lemma_wf();
        }
        self.accounts.contains_key(&user_id) || state.account_count() < state.max_account_num()
    }

    /// The account of a user. A user seen for the first time is given a new account.
    pub fn obtain_place_id(&mut self, state: &mut GlobalState, account_id: u32) -> (r: u32)
        requires
            old(state).wf(),
            can_bind(old(state)@, old(self)@, account_id),
        ensures
            final(state).wf(),
            r == bound_account(old(state)@, old(self)@, account_id),
            final(state)@ == bound_ledger(old(state)@, old(self)@, account_id),
            final(self)@ == bound_map(old(state)@, old(self)@, account_id),
    {
        proof {
            state.lemma_wf();
        }
        match self.accounts.get(&account_id) {
            Some(pl_id) => *pl_id,
            None => {
                let uid = state.create_new_account(FIRST_ORDER_SLOT);
                self.accounts.insert(account_id, uid);
                uid
            },
        }
    }

    /// Replays a deposit: gives the user an account if it has none, checks that the balance
    /// before the deposit is the one in the ledger, and applies the deposit. A message that is
    /// refused changes nothing but, for a user not seen before, the new account.
    pub fn handle_deposit(&mut self, state: &mut GlobalState, deposit: BalanceMessage) -> (r: Result<
        (),
        ReplayError,
    >)
        requires
            old(state).wf(),
        ensures
            final(state).wf(),
            !can_bind(old(state)@, old(self)@, deposit.user_id) ==> r == Err::<(), ReplayError>(
                ReplayError::AccountsFull,
            ) && final(state)@ == old(state)@ && final(self)@ == old(self)@,
            can_bind(old(state)@, old(self)@, deposit.user_id) ==> final(self)@ == bound_map(
                old(state)@,
                old(self)@,
                deposit.user_id,
            ) && match deposit_decision(
                bound_ledger(old(state)@, old(self)@, deposit.user_id),
                bound_account(old(state)@, old(self)@, deposit.user_id),
                deposit.asset@,
                deposit.change@,
                decimal_difference(deposit.balance@, deposit.change@),
            ) {
                Ok(tx) => r is Ok && final(state)@ == bound_ledger(
                    old(state)@,
                    old(self)@,
                    deposit.user_id,
                ).deposit_to_old(tx),
                Err(e) => r == Err::<(), ReplayError>(e) && final(state)@ == bound_ledger(
                    old(state)@,
                    old(self)@,
                    deposit.user_id,
                ),
            },
    {
        if !self.can_obtain(state, deposit.user_id) {
            return Err(ReplayError::AccountsFull);
        }
        let account_id = self.obtain_place_id(state, deposit.user_id);
        let balance_before = deposit.balance.checked_sub(&deposit.change);
        apply_deposit(state, account_id, deposit.asset.as_str(), &deposit.change, balance_before)
    }
}

// ----- markets -----
/// The two tokens of a market: the base and the quote.
#[derive(Clone, Copy, Debug, PartialEq, Eq, Structural)]
pub struct TokenIdPair(pub u32, pub u32);

/// The position of the first `_` in a name, or the length of the name if it holds none.
pub open spec fn first_underscore(s: Seq<char>) -> int
    decreases s.len(),
{
    if s.len() == 0 {
        0
    } else if s[0] == '_' {
        0
    } else {
        1 + first_underscore(s.drop_first())
    }
}

/// The names of the base and the quote of a market: what stands before the first `_`, and
/// what stands between it and the next `_` or the end. A name without `_` is no market.
pub open spec fn market_names(market: Seq<char>) -> Option<(Seq<char>, Seq<char>)> {
    let i = first_underscore(market);
    if i >= market.len() {
        None
    } else {
        let rest = market.skip(i + 1);
        Some((market.take(i), rest.take(first_underscore(rest))))
    }
}

/// The tokens of a market, if it names two registered assets.
pub open spec fn market_tokens(market: Seq<char>) -> Option<TokenIdPair> {
    match market_names(market) {
        Some((base, quote)) => if token_of(base) is Some && token_of(quote) is Some {
            Some(TokenIdPair(token_of(base).unwrap(), token_of(quote).unwrap()))
        } else {
            None
        },
        None => None,
    }
}

/// No `_` stands before the first one.
proof fn lemma_first_underscore(s: Seq<char>)
    ensures
        0 <= first_underscore(s) <= s.len(),
        first_underscore(s) < s.len() ==> s[first_underscore(s)] == '_',
        forall|k: int| 0 <= k < first_underscore(s) ==> s[k] != '_',
    decreases s.len(),
{
    if s.len() > 0 && s[0] != '_' {
        let t = s.drop_first();
        lemma_first_underscore(t);
        assert forall|k: int| 0 <= k < first_underscore(s) implies s[k] != '_' by {
            if k > 0 {
                assert(s[k] == t[k - 1]);
            }
        }
    }
}

/// A position with a `_`, or the end, before which no `_` stands is that of the first `_`.
proof fn lemma_first_underscore_is(s: Seq<char>, i: int)
    requires
        0 <= i <= s.len(),
        forall|k: int| 0 <= k < i ==> s[k] != '_',
        i < s.len() ==> s[i] == '_',
    ensures
        first_underscore(s) == i,
{
    lemma_first_underscore(s);
    let f = first_underscore(s);
    if f < i {
        assert(s[f] == '_');
    }
}

/// The position of the first `_` at `from` or later, or the length of the name.
fn find_underscore(s: &str, from: usize) -> (r: usize)
    requires
        from <= s@.len(),
    ensures
        from <= r <= s@.len(),
        r - from == first_underscore(s@.skip(from as int)),
{
    let n = s.unicode_len();
    let mut i: usize = from;
    while i < n
        invariant
            from <= i <= n,
            n == s@.len(),
            forall|k: int| from <= k < i ==> s@[k] != '_',
        decreases n - i,
    {
        if s.get_char(i) == '_' {
            proof {
                lemma_first_underscore_is(s@.skip(from as int), i - from);
            }
            return i;
        }
        i = i + 1;
    }
    proof {
        lemma_first_underscore_is(s@.skip(from as int), n - from);
    }
    n
}

/// The names of the base and the quote of a market.
pub fn split_market(market: &str) -> (r: Option<(&str, &str)>)
    ensures
        match r {
            Some((base, quote)) => market_names(market@) == Some((base@, quote@)),
            None => market_names(market@) is None,
        },
{
    let n = market.unicode_len();
    let i = find_underscore(market, 0);
    assert(market@.skip(0) =~= market@);
    if i >= n {
        return None;
    }
    let j = find_underscore(market, i + 1);
    let base = market.substring_char(0, i);
    let quote = market.substring_char(i + 1, j);
    proof {
        let rest = market@.skip(i + 1);
        assert(base@ =~= market@.take(i as int));
        assert(quote@ =~= rest.take(first_underscore(rest)));
    }
    Some((base, quote))
}

/// The tokens of a market, if it names two registered assets.
pub fn parse_market(market: &str) -> (r: Option<TokenIdPair>)
    ensures
        r == market_tokens(market@),
{
    match split_market(market) {
        Some((base, quote)) => {
            match find_token(base) {
                Some(base_id) => match find_token(quote) {
                    Some(quote_id) => Some(TokenIdPair(base_id, quote_id)),
                    None => None,
                },
                None => None,
            }
        },
        None => None,
    }
}

// ----- orders as the messages state them -----
/// The side of the market that an order is on.
#[allow(non_camel_case_types)]
#[derive(Clone, Copy, Debug, PartialEq, Eq, Structural)]
pub enum Side {
    ASK,
    BID,
}

/// An order of a trade as the message states it, seen from the order's own side: what it
/// sells and buys.
#[derive(Clone, Copy, Debug)]
pub struct OrderState {
    pub side: Side,
    pub token_sell: u32,
    pub token_buy: u32,
    pub total_sell: Decimal,
    pub total_buy: Decimal,
    pub filled_sell: Decimal,
    pub filled_buy: Decimal,
    pub order_id: u32,
    pub account_id: u32,
    pub role: MarketRole,
}

/// The lower 32 bits of an order id.
pub open spec fn low32(x: u64) -> u32 {
    (x % 0x1_0000_0000) as u32
}

/// The lower 32 bits of an order id.
fn low32_of(x: u64) -> (r: u32)
    ensures
        r == low32(x),
{
    (x % 0x1_0000_0000) as u32
}

impl OrderState {
    /// The order of one side of a trade. An ask sells the base for the quote, a bid sells the
    /// quote for the base. `quote_total` is the order's amount times its price.
    pub open spec fn project(
        origin: VerboseOrderState,
        quote_total: Decimal,
        id_pair: TokenIdPair,
        side: Side,
        trade: TradeMessage,
    ) -> OrderState {
        match side {
            Side::ASK => OrderState {
                side,
                token_sell: id_pair.0,
                token_buy: id_pair.1,
                total_sell: origin.amount,
                total_buy: quote_total,
                filled_sell: origin.finished_base,
                filled_buy: origin.finished_quote,
                order_id: low32(trade.ask_order_id),
                account_id: trade.ask_user_id,
                role: trade.ask_role,
            },
            Side::BID => OrderState {
                side,
                token_sell: id_pair.1,
                token_buy: id_pair.0,
                total_sell: quote_total,
                total_buy: origin.amount,
                filled_sell: origin.finished_quote,
                filled_buy: origin.finished_base,
                order_id: low32(trade.bid_order_id),
                account_id: trade.bid_user_id,
                role: trade.bid_role,
            },
        }
    }

    /// The order of one side of a trade, if its amount times its price can be computed.
    pub open spec fn parse_spec(
        origin: VerboseOrderState,
        product: Option<(int, nat)>,
        id_pair: TokenIdPair,
        side: Side,
        trade: TradeMessage,
    ) -> Option<OrderState> {
        match product {
            Some(v) => Some(OrderState::project(origin, decimal_of(v), id_pair, side, trade)),
            None => None,
        }
    }

    /// The order of one side of a trade, given its amount times its price.
    pub fn from_parts(
        origin: &VerboseOrderState,
        quote_total: Decimal,
        id_pair: TokenIdPair,
        side: Side,
        trade: &TradeMessage,
    ) -> (r: OrderState)
        ensures
            r == OrderState::project(*origin, quote_total, id_pair, side, *trade),
    {
        match side {
            Side::ASK => OrderState {
                side,
                token_sell: id_pair.0,
                token_buy: id_pair.1,
                total_sell: origin.amount,
                total_buy: quote_total,
                filled_sell: origin.finished_base,
                filled_buy: origin.finished_quote,
                order_id: low32_of(trade.ask_order_id),
                account_id: trade.ask_user_id,
                role: trade.ask_role,
            },
            Side::BID => OrderState {
                side,
                token_sell: id_pair.1,
                token_buy: id_pair.0,
                total_sell: quote_total,
                total_buy: origin.amount,
                filled_sell: origin.finished_quote,
                filled_buy: origin.finished_base,
                order_id: low32_of(trade.bid_order_id),
                account_id: trade.bid_user_id,
                role: trade.bid_role,
            },
        }
    }

    /// The order of one side of a trade, or nothing if its amount times its price overflows.
    pub fn parse(
        origin: &VerboseOrderState,
        id_pair: TokenIdPair,
        side: Side,
        trade: &TradeMessage,
    ) -> (r: Option<OrderState>)
        ensures
            r == OrderState::parse_spec(
                *origin,
                decimal_product(origin.amount@, origin.price@),
                id_pair,
                side,
                *trade,
            ),
    {
        match origin.amount.checked_mul(&origin.price) {
            Some(quote_total) => {
                proof {
                    lemma_decimal_of_view(quote_total);
                }
                Some(OrderState::from_parts(origin, quote_total, id_pair, side, trade))
            },
            None => None,
        }
    }

    /// The transaction that places the order, if its tokens are registered and its amounts
    /// can be counted in their units.
    pub open spec fn place_order_tx_spec(self) -> Result<PlaceOrderTx, ReplayError> {
        if prec_of(self.token_sell) is None || prec_of(self.token_buy) is None {
            Err(ReplayError::UnknownAsset)
        } else {
            let amount_sell = number_to_integer_spec(
                self.total_sell@,
                prec_of(self.token_sell).unwrap() as nat,
            );
            let amount_buy = number_to_integer_spec(
                self.total_buy@,
                prec_of(self.token_buy).unwrap() as nat,
            );
            if amount_sell is None || amount_buy is None {
                Err(ReplayError::NotRepresentable)
            } else {
                Ok(
                    PlaceOrderTx {
                        order_id: self.order_id,
                        account_id: self.account_id,
                        token_id_sell: self.token_sell,
                        token_id_buy: self.token_buy,
                        amount_sell: amount_sell.unwrap(),
                        amount_buy: amount_buy.unwrap(),
                    },
                )
            }
        }
    }

    /// The transaction that places the order.
    pub fn place_order_tx(&self) -> (r: Result<PlaceOrderTx, ReplayError>)
        ensures
            r == self.place_order_tx_spec(),
    {
        let prec_sell = match find_prec(self.token_sell) {
            Some(p) => p,
            None => {
                return Err(ReplayError::UnknownAsset);
            },
        };
        let prec_buy = match find_prec(self.token_buy) {
            Some(p) => p,
            None => {
                return Err(ReplayError::UnknownAsset);
            },
        };
        let amount_sell = match number_to_integer(&self.total_sell, prec_sell) {
            Some(x) => x,
            None => {
                return Err(ReplayError::NotRepresentable);
            },
        };
        let amount_buy = match number_to_integer(&self.total_buy, prec_buy) {
            Some(x) => x,
            None => {
                return Err(ReplayError::NotRepresentable);
            },
        };
        Ok(
            PlaceOrderTx {
                order_id: self.order_id,
                account_id: self.account_id,
                token_id_sell: self.token_sell,
                token_id_buy: self.token_buy,
                amount_sell,
                amount_buy,
            },
        )
    }

    /// The order as the ledger should hold it, if its tokens are registered and its amounts
    /// can be counted in their units.
    pub open spec fn order_spec(self) -> Result<Order, ReplayError> {
        if prec_of(self.token_sell) is None || prec_of(self.token_buy) is None {
            Err(ReplayError::UnknownAsset)
        } else {
            let prec_sell = prec_of(self.token_sell).unwrap() as nat;
            let prec_buy = prec_of(self.token_buy).unwrap() as nat;
            let filled_sell = number_to_integer_spec(self.filled_sell@, prec_sell);
            let filled_buy = number_to_integer_spec(self.filled_buy@, prec_buy);
            let total_sell = number_to_integer_spec(self.total_sell@, prec_sell);
            let total_buy = number_to_integer_spec(self.total_buy@, prec_buy);
            if filled_sell is None || filled_buy is None || total_sell is None || total_buy is None {
                Err(ReplayError::NotRepresentable)
            } else {
                Ok(
                    Order {
                        order_id: fr_of_u32(self.order_id),
                        tokenbuy: fr_of_u32(self.token_buy),
                        tokensell: fr_of_u32(self.token_sell),
                        filled_sell: filled_sell.unwrap(),
                        filled_buy: filled_buy.unwrap(),
                        total_sell: total_sell.unwrap(),
                        total_buy: total_buy.unwrap(),
                    },
                )
            }
        }
    }

    /// The order as the ledger should hold it.
    pub fn to_order(&self) -> (r: Result<Order, ReplayError>)
        ensures
            r == self.order_spec(),
    {
        let prec_sell = match find_prec(self.token_sell) {
            Some(p) => p,
            None => {
                return Err(ReplayError::UnknownAsset);
            },
        };
        let prec_buy = match find_prec(self.token_buy) {
            Some(p) => p,
            None => {
                return Err(ReplayError::UnknownAsset);
            },
        };
        let filled_sell = match number_to_integer(&self.filled_sell, prec_sell) {
            Some(x) => x,
            None => {
                return Err(ReplayError::NotRepresentable);
            },
        };
        let filled_buy = match number_to_integer(&self.filled_buy, prec_buy) {
            Some(x) => x,
            None => {
                return Err(ReplayError::NotRepresentable);
            },
        };
        let total_sell = match number_to_integer(&self.total_sell, prec_sell) {
            Some(x) => x,
            None => {
                return Err(ReplayError::NotRepresentable);
            },
        };
        let total_buy = match number_to_integer(&self.total_buy, prec_buy) {
            Some(x) => x,
            None => {
                return Err(ReplayError::NotRepresentable);
            },
        };
        Ok(
            Order {
                order_id: Fr::from_u32(self.order_id),
                tokenbuy: Fr::from_u32(self.token_buy),
                tokensell: Fr::from_u32(self.token_sell),
                filled_sell,
                filled_buy,
                total_sell,
                total_buy,
            },
        )
    }
}

// ----- balances as the messages state them -----
/// The four balances that a trade touches, as field elements.
#[derive(Clone, Copy, Debug, PartialEq, Eq, Structural)]
pub struct CommonBalanceState {
    pub bid_user_base: Fr,
    pub bid_user_quote: Fr,
    pub ask_user_base: Fr,
    pub ask_user_quote: Fr,
}

impl CommonBalanceState {
    /// The balances that a message states, if the tokens are registered and the balances can
    /// be counted in their units.
    pub open spec fn parse_spec(origin: VerboseBalanceState, id_pair: TokenIdPair) -> Result<
        CommonBalanceState,
        ReplayError,
    > {
        if prec_of(id_pair.0) is None || prec_of(id_pair.1) is None {
            Err(ReplayError::UnknownAsset)
        } else {
            let prec_base = prec_of(id_pair.0).unwrap() as nat;
            let prec_quote = prec_of(id_pair.1).unwrap() as nat;
            let bid_user_base = number_to_integer_spec(origin.bid_user_base@, prec_base);
            let bid_user_quote = number_to_integer_spec(origin.bid_user_quote@, prec_quote);
            let ask_user_base = number_to_integer_spec(origin.ask_user_base@, prec_base);
            let ask_user_quote = number_to_integer_spec(origin.ask_user_quote@, prec_quote);
            if bid_user_base is None || bid_user_quote is None || ask_user_base is None
                || ask_user_quote is None {
                Err(ReplayError::NotRepresentable)
            } else {
                Ok(
                    CommonBalanceState {
                        bid_user_base: bid_user_base.unwrap(),
                        bid_user_quote: bid_user_quote.unwrap(),
                        ask_user_base: ask_user_base.unwrap(),
                        ask_user_quote: ask_user_quote.unwrap(),
                    },
                )
            }
        }
    }

    /// The balances that a message states.
    pub fn parse(origin: &VerboseBalanceState, id_pair: TokenIdPair) -> (r: Result<
        CommonBalanceState,
        ReplayError,
    >)
        ensures
            r == CommonBalanceState::parse_spec(*origin, id_pair),
    {
        let prec_base = match find_prec(id_pair.0) {
            Some(p) => p,
            None => {
                return Err(ReplayError::UnknownAsset);
            },
        };
        let prec_quote = match find_prec(id_pair.1) {
            Some(p) => p,
            None => {
                return Err(ReplayError::UnknownAsset);
            },
        };
        let bid_user_base = match number_to_integer(&origin.bid_user_base, prec_base) {
            Some(x) => x,
            None => {
                return Err(ReplayError::NotRepresentable);
            },
        };
        let bid_user_quote = match number_to_integer(&origin.bid_user_quote, prec_quote) {
            Some(x) => x,
            None => {
                return Err(ReplayError::NotRepresentable);
            },
        };
        let ask_user_base = match number_to_integer(&origin.ask_user_base, prec_base) {
            Some(x) => x,
            None => {
                return Err(ReplayError::NotRepresentable);
            },
        };
        let ask_user_quote = match number_to_integer(&origin.ask_user_quote, prec_quote) {
            Some(x) => x,
            None => {
                return Err(ReplayError::NotRepresentable);
            },
        };
        Ok(CommonBalanceState { bid_user_base, bid_user_quote, ask_user_base, ask_user_quote })
    }

    /// The balances that the ledger holds.
    pub open spec fn local_spec(l: Ledger, bid_id: u32, ask_id: u32, id_pair: TokenIdPair) -> Result<
        CommonBalanceState,
        ReplayError,
    > {
        if bid_id >= l.count() || ask_id >= l.count() {
            Err(ReplayError::UnknownAccount)
        } else if id_pair.0 >= pow2(l.balance_levels) || id_pair.1 >= pow2(l.balance_levels) {
            Err(ReplayError::TokenOutOfRange)
        } else {
            Ok(
                CommonBalanceState {
                    bid_user_base: l.balances[bid_id as int][id_pair.0 as int],
                    bid_user_quote: l.balances[bid_id as int][id_pair.1 as int],
                    ask_user_base: l.balances[ask_id as int][id_pair.0 as int],
                    ask_user_quote: l.balances[ask_id as int][id_pair.1 as int],
                },
            )
        }
    }

    /// The balances that the ledger holds, if the accounts exist and the tokens have leaves.
    pub fn build_local(state: &GlobalState, bid_id: u32, ask_id: u32, id_pair: TokenIdPair) -> (r:
        Result<CommonBalanceState, ReplayError>)
        requires
            state.wf(),
        ensures
            r == CommonBalanceState::local_spec(state@, bid_id, ask_id, id_pair),
    {
        proof {
            state.lemma_wf();
        }
        if !state.has_account(bid_id) || !state.has_account(ask_id) {
            return Err(ReplayError::UnknownAccount);
        }
        let max = state.max_token_num();
        if id_pair.0 >= max || id_pair.1 >= max {
            return Err(ReplayError::TokenOutOfRange);
        }
        Ok(
            CommonBalanceState {
                bid_user_base: state.get_token_balance(bid_id, id_pair.0),
                bid_user_quote: state.get_token_balance(bid_id, id_pair.1),
                ask_user_base: state.get_token_balance(ask_id, id_pair.0),
                ask_user_quote: state.get_token_balance(ask_id, id_pair.1),
            },
        )
    }
}

/// Whether the balances that a message states are those of the ledger, or why they cannot be
/// compared.
pub open spec fn balance_check(
    l: Ledger,
    balance_state: VerboseBalanceState,
    bid_id: u32,
    ask_id: u32,
    id_pair: TokenIdPair,
) -> Result<(), ReplayError> {
    match CommonBalanceState::local_spec(l, bid_id, ask_id, id_pair) {
        Err(e) => Err(e),
        Ok(local) => match CommonBalanceState::parse_spec(balance_state, id_pair) {
            Err(e) => Err(e),
            Ok(parsed) => if local == parsed {
                Ok(())
            } else {
                Err(ReplayError::BalanceMismatch)
            },
        },
    }
}

/// Checks that the balances that a message states are those of the ledger.
pub fn assert_balance_state(
    balance_state: &VerboseBalanceState,
    state: &GlobalState,
    bid_id: u32,
    ask_id: u32,
    id_pair: TokenIdPair,
) -> (r: Result<(), ReplayError>)
    requires
        state.wf(),
    ensures
        r == balance_check(state@, *balance_state, bid_id, ask_id, id_pair),
{
    let local_balance = match CommonBalanceState::build_local(state, bid_id, ask_id, id_pair) {
        Ok(b) => b,
        Err(e) => {
            return Err(e);
        },
    };
    let parsed_state = match CommonBalanceState::parse(balance_state, id_pair) {
        Ok(b) => b,
        Err(e) => {
            return Err(e);
        },
    };
    if local_balance == parsed_state {
        Ok(())
    } else {
        Err(ReplayError::BalanceMismatch)
    }
}

// ----- orders -----
/// What placing an order as a message states it leads to: the transaction to apply, or the
/// reason to refuse.
pub open spec fn placing_decision(l: Ledger, order_state: OrderState) -> Result<
    PlaceOrderTx,
    ReplayError,
> {
    match order_state.place_order_tx_spec() {
        Err(e) => Err(e),
        Ok(tx) => {
            let a = tx.account_id as int;
            if tx.account_id >= l.count() {
                Err(ReplayError::UnknownAccount)
            } else if tx.token_id_sell >= pow2(l.balance_levels) {
                Err(ReplayError::TokenOutOfRange)
            } else if l.next_slot(a) is None {
                Err(ReplayError::OrderSlotsFull)
            } else if l.order_pos.contains_key((tx.account_id, tx.order_id)) && l.order_pos[(
                tx.account_id,
                tx.order_id,
            )] != l.next_slot(a).unwrap() {
                Err(ReplayError::OrderIdInUse)
            } else {
                Ok(tx)
            }
        },
    }
}

/// Decides what placing an order leads to, without changing anything.
pub fn check_placing(state: &GlobalState, order_state: &OrderState) -> (r: Result<
    PlaceOrderTx,
    ReplayError,
>)
    requires
        state.wf(),
    ensures
        r == placing_decision(state@, *order_state),
        r is Ok ==> state@.can_place_order(r.unwrap()),
{
    proof {
        state.lemma_wf();
    }
    let tx = match order_state.place_order_tx() {
        Ok(tx) => tx,
        Err(e) => {
            return Err(e);
        },
    };
    if !state.has_account(tx.account_id) {
        return Err(ReplayError::UnknownAccount);
    }
    if tx.token_id_sell >= state.max_token_num() {
        return Err(ReplayError::TokenOutOfRange);
    }
    let pos = match state.find_order_slot(tx.account_id) {
        Some((pos, _)) => pos,
        None => {
            return Err(ReplayError::OrderSlotsFull);
        },
    };
    if state.has_order(tx.account_id, tx.order_id) && state.get_order_pos_by_id(
        tx.account_id,
        tx.order_id,
    ) != pos {
        return Err(ReplayError::OrderIdInUse);
    }
    proof {
        lemma_scan_from(state@, tx.account_id as int, 0);
        lemma_fr_of_value(tx.order_id as nat);
    }
    Ok(tx)
}

/// What a trade as a transaction leads to: nothing to object, or the reason to refuse.
pub open spec fn spot_trade_decision(l: Ledger, tx: SpotTradeTx) -> Result<(), ReplayError> {
    let a1 = tx.order1_account_id as int;
    let a2 = tx.order2_account_id as int;
    if tx.order1_id >= pow2(l.order_levels) || tx.order2_id >= pow2(l.order_levels) {
        Err(ReplayError::OrderIdOutOfRange)
    } else if a1 >= l.count() || a2 >= l.count() {
        Err(ReplayError::UnknownAccount)
    } else if tx.token_id_1to2 >= pow2(l.balance_levels) || tx.token_id_2to1 >= pow2(
        l.balance_levels,
    ) {
        Err(ReplayError::TokenOutOfRange)
    } else if !l.order_pos.contains_key((tx.order1_account_id, tx.order1_id))
        || !l.order_pos.contains_key((tx.order2_account_id, tx.order2_id)) {
        Err(ReplayError::UnknownOrder)
    } else if l.balances[a1][tx.token_id_1to2 as int]@ <= tx.amount_1to2@
        || l.balances[a2][tx.token_id_2to1 as int]@ <= tx.amount_2to1@ {
        Err(ReplayError::InsufficientBalance)
    } else {
        Ok(())
    }
}

/// Decides whether a trade can be applied, without changing anything.
pub fn check_spot_trade(state: &GlobalState, tx: &SpotTradeTx) -> (r: Result<(), ReplayError>)
    requires
        state.wf(),
    ensures
        r == spot_trade_decision(state@, *tx),
        r is Ok <==> state@.can_spot_trade(*tx),
{
    proof {
        state.lemma_wf();
    }
    let max_orders = state.max_order_num();
    if tx.order1_id >= max_orders || tx.order2_id >= max_orders {
        return Err(ReplayError::OrderIdOutOfRange);
    }
    if !state.has_account(tx.order1_account_id) || !state.has_account(tx.order2_account_id) {
        return Err(ReplayError::UnknownAccount);
    }
    let max_tokens = state.max_token_num();
    if tx.token_id_1to2 >= max_tokens || tx.token_id_2to1 >= max_tokens {
        return Err(ReplayError::TokenOutOfRange);
    }
    if !state.has_order(tx.order1_account_id, tx.order1_id) || !state.has_order(
        tx.order2_account_id,
        tx.order2_id,
    ) {
        return Err(ReplayError::UnknownOrder);
    }
    let balance1 = state.get_token_balance(tx.order1_account_id, tx.token_id_1to2);
    let balance2 = state.get_token_balance(tx.order2_account_id, tx.token_id_2to1);
    if !balance1.gt(&tx.amount_1to2) || !balance2.gt(&tx.amount_2to1) {
        return Err(ReplayError::InsufficientBalance);
    }
    Ok(())
}

/// The trade as a transaction, given the market's tokens: the maker's order is order 1, so
/// where the ask is the maker the base goes from order 1 to order 2, and else the quote does.
pub open spec fn spot_tx_of(trade: TradeMessage, id_pair: TokenIdPair) -> Result<
    SpotTradeTx,
    ReplayError,
> {
    if prec_of(id_pair.0) is None || prec_of(id_pair.1) is None {
        Err(ReplayError::UnknownAsset)
    } else {
        let amount = number_to_integer_spec(trade.amount@, prec_of(id_pair.0).unwrap() as nat);
        let quote_amount = number_to_integer_spec(
            trade.quote_amount@,
            prec_of(id_pair.1).unwrap() as nat,
        );
        if amount is None || quote_amount is None {
            Err(ReplayError::NotRepresentable)
        } else {
            match trade.ask_role {
                MarketRole::MAKER => Ok(
                    SpotTradeTx {
                        order1_account_id: trade.ask_user_id,
                        order2_account_id: trade.bid_user_id,
                        token_id_1to2: id_pair.0,
                        token_id_2to1: id_pair.1,
                        amount_1to2: amount.unwrap(),
                        amount_2to1: quote_amount.unwrap(),
                        order1_id: low32(trade.ask_order_id),
                        order2_id: low32(trade.bid_order_id),
                    },
                ),
                MarketRole::TAKER => Ok(
                    SpotTradeTx {
                        order1_account_id: trade.bid_user_id,
                        order2_account_id: trade.ask_user_id,
                        token_id_1to2: id_pair.1,
                        token_id_2to1: id_pair.0,
                        amount_1to2: quote_amount.unwrap(),
                        amount_2to1: amount.unwrap(),
                        order1_id: low32(trade.bid_order_id),
                        order2_id: low32(trade.ask_order_id),
                    },
                ),
            }
        }
    }
}

/// The trade as a transaction, if its market is known.
pub open spec fn spot_tx_spec(trade: TradeMessage) -> Result<SpotTradeTx, ReplayError> {
    match market_tokens(trade.market@) {
        Some(id_pair) => spot_tx_of(trade, id_pair),
        None => Err(ReplayError::UnknownMarket),
    }
}

/// Whether the order that a message states is the one that the ledger holds under its id, or
/// why the two cannot be compared.
pub open spec fn order_check(l: Ledger, order_state: OrderState) -> Result<(), ReplayError> {
    let k = (order_state.account_id, order_state.order_id);
    if !l.order_pos.contains_key(k) {
        Err(ReplayError::UnknownOrder)
    } else {
        match order_state.order_spec() {
            Err(e) => Err(e),
            Ok(order) => if l.orders[order_state.account_id as int][l.order_pos[k]] == order {
                Ok(())
            } else {
                Err(ReplayError::OrderMismatch)
            },
        }
    }
}

/// The check of the ask order, and then of the bid order.
pub open spec fn orders_check(l: Ledger, ask: OrderState, bid: OrderState) -> Result<
    (),
    ReplayError,
> {
    match order_check(l, ask) {
        Err(e) => Err(e),
        Ok(_) => order_check(l, bid),
    }
}

/// Checks that the order that a message states is the one the ledger holds under its id.
pub fn check_order(state: &GlobalState, order_state: &OrderState) -> (r: Result<(), ReplayError>)
    requires
        state.wf(),
    ensures
        r == order_check(state@, *order_state),
{
    proof {
        state.lemma_wf();
    }
    if !state.has_order(order_state.account_id, order_state.order_id) {
        return Err(ReplayError::UnknownOrder);
    }
    let local = state.get_account_order_by_id(order_state.account_id, order_state.order_id).unwrap();
    match order_state.to_order() {
        Ok(order) => {
            if local == order {
                Ok(())
            } else {
                Err(ReplayError::OrderMismatch)
            }
        },
        Err(e) => Err(e),
    }
}

/// The four orders of a trade message and the tokens of its market.
#[derive(Clone, Copy, Debug)]
pub struct ParsedTrade {
    pub id_pair: TokenIdPair,
    pub ask_before: OrderState,
    pub bid_before: OrderState,
    pub ask_after: OrderState,
    pub bid_after: OrderState,
}

/// The four orders of a trade message, given the four products of amount and price: refused
/// where the market is not known or a product overflows.
pub open spec fn parsed_trade(
    trade: TradeMessage,
    ask_before: Option<(int, nat)>,
    bid_before: Option<(int, nat)>,
    ask_after: Option<(int, nat)>,
    bid_after: Option<(int, nat)>,
) -> Result<ParsedTrade, ReplayError> {
    match market_tokens(trade.market@) {
        None => Err(ReplayError::UnknownMarket),
        Some(id_pair) => {
            let a0 = OrderState::parse_spec(
                trade.state_before.ask_order_state,
                ask_before,
                id_pair,
                Side::ASK,
                trade,
            );
            let b0 = OrderState::parse_spec(
                trade.state_before.bid_order_state,
                bid_before,
                id_pair,
                Side::BID,
                trade,
            );
            let a1 = OrderState::parse_spec(
                trade.state_after.ask_order_state,
                ask_after,
                id_pair,
                Side::ASK,
                trade,
            );
            let b1 = OrderState::parse_spec(
                trade.state_after.bid_order_state,
                bid_after,
                id_pair,
                Side::BID,
                trade,
            );
            if a0 is None || b0 is None || a1 is None || b1 is None {
                Err(ReplayError::Overflow)
            } else {
                Ok(
                    ParsedTrade {
                        id_pair,
                        ask_before: a0.unwrap(),
                        bid_before: b0.unwrap(),
                        ask_after: a1.unwrap(),
                        bid_after: b1.unwrap(),
                    },
                )
            }
        },
    }
}

/// The four orders of a trade message.
pub fn parse_trade(trade: &TradeMessage) -> (r: Result<ParsedTrade, ReplayError>)
    ensures
        r == parsed_trade(
            *trade,
            decimal_product(
                trade.state_before.ask_order_state.amount@,
                trade.state_before.ask_order_state.price@,
            ),
            decimal_product(
                trade.state_before.bid_order_state.amount@,
                trade.state_before.bid_order_state.price@,
            ),
            decimal_product(
                trade.state_after.ask_order_state.amount@,
                trade.state_after.ask_order_state.price@,
            ),
            decimal_product(
                trade.state_after.bid_order_state.amount@,
                trade.state_after.bid_order_state.price@,
            ),
        ),
{
    let id_pair = match parse_market(trade.market.as_str()) {
        Some(p) => p,
        None => {
            return Err(ReplayError::UnknownMarket);
        },
    };
    let ask_before = OrderState::parse(&trade.state_before.ask_order_state, id_pair, Side::ASK, trade);
    let bid_before = OrderState::parse(&trade.state_before.bid_order_state, id_pair, Side::BID, trade);
    let ask_after = OrderState::parse(&trade.state_after.ask_order_state, id_pair, Side::ASK, trade);
    let bid_after = OrderState::parse(&trade.state_after.bid_order_state, id_pair, Side::BID, trade);
    match (ask_before, bid_before, ask_after, bid_after) {
        (Some(ask_before), Some(bid_before), Some(ask_after), Some(bid_after)) => Ok(
            ParsedTrade { id_pair, ask_before, bid_before, ask_after, bid_after },
        ),
        _ => Err(ReplayError::Overflow),
    }
}

/// The state of the replay: what came of the last step, the ledger, and the slots of the
/// orders seen so far.
pub struct Replay {
    pub result: Result<(), ReplayError>,
    pub ledger: Ledger,
    pub slots: Map<u32, (u32, u64)>,
}

/// The replay after an order has been placed, if it was not placed before.
pub open spec fn placed(l: Ledger, m: Map<u32, (u32, u64)>, order_state: OrderState) -> Replay {
    if m.contains_key(order_state.order_id) {
        Replay { result: Ok(()), ledger: l, slots: m }
    } else {
        match placing_decision(l, order_state) {
            Err(e) => Replay { result: Err(e), ledger: l, slots: m },
            Ok(tx) => Replay {
                result: Ok(()),
                ledger: l.place_order(tx),
                slots: m.insert(
                    order_state.order_id,
                    (order_state.account_id, l.next_slot(tx.account_id as int).unwrap() as u64),
                ),
            },
        }
    }
}

/// The checks of a trade message against a ledger in which both orders are placed, and the
/// trade: the balances and the orders before the trade, the trade itself, then the balances
/// and the orders after it. A check that fails before the trade leaves the ledger as it is;
/// one that fails after it leaves the trade applied.
pub open spec fn traded(
    l: Ledger,
    m: Map<u32, (u32, u64)>,
    trade: TradeMessage,
    p: ParsedTrade,
) -> Replay {
    let before = match balance_check(
        l,
        trade.state_before.balance,
        p.bid_before.account_id,
        p.ask_before.account_id,
        p.id_pair,
    ) {
        Err(e) => Err(e),
        Ok(_) => match orders_check(l, p.ask_before, p.bid_before) {
            Err(e) => Err(e),
            Ok(_) => match spot_tx_spec(trade) {
                Err(e) => Err(e),
                Ok(tx) => match spot_trade_decision(l, tx) {
                    Err(e) => Err(e),
                    Ok(_) => Ok(tx),
                },
            },
        },
    };
    match before {
        Err(e) => Replay { result: Err(e), ledger: l, slots: m },
        Ok(tx) => {
            let after = l.spot_trade(tx);
            let result = match balance_check(
                after,
                trade.state_after.balance,
                p.bid_after.account_id,
                p.ask_after.account_id,
                p.id_pair,
            ) {
                Err(e) => Err(e),
                Ok(_) => orders_check(after, p.ask_after, p.bid_after),
            };
            Replay { result, ledger: after, slots: m }
        },
    }
}

/// The replay after the two orders of a trade have been placed where they were new: the order
/// with the smaller id first, the ask first where the ids are equal. If the first cannot be
/// placed, the second is not tried.
pub open spec fn both_placed(l: Ledger, m: Map<u32, (u32, u64)>, p: ParsedTrade) -> Replay {
    let first = if p.bid_before.order_id < p.ask_before.order_id {
        p.bid_before
    } else {
        p.ask_before
    };
    let second = if p.bid_before.order_id < p.ask_before.order_id {
        p.ask_before
    } else {
        p.bid_before
    };
    let r1 = placed(l, m, first);
    if r1.result is Err {
        r1
    } else {
        placed(r1.ledger, r1.slots, second)
    }
}

/// The replay of a trade message: the two orders are placed, then the trade is checked and
/// applied.
pub open spec fn trade_outcome(
    l: Ledger,
    m: Map<u32, (u32, u64)>,
    trade: TradeMessage,
    p: ParsedTrade,
) -> Replay {
    let r = both_placed(l, m, p);
    if r.result is Err {
        r
    } else {
        traded(r.ledger, r.slots, trade, p)
    }
}

/// The slots of the orders seen so far. Its view maps the id of an order to its account and
/// its position in the account's order tree.
pub struct PlaceOrder {
    ordermapping: HashMap<u32, (u32, u64)>,
}

impl View for PlaceOrder {
    type V = Map<u32, (u32, u64)>;

    closed spec fn view(&self) -> Map<u32, (u32, u64)> {
        self.ordermapping@
    }
}

impl Default for PlaceOrder {
    fn default() -> (r: PlaceOrder)
        ensures
            r@ == Map::<u32, (u32, u64)>::empty(),
    {
        PlaceOrder::new()
    }
}

impl PlaceOrder {
    /// No order has been seen.
    pub fn new() -> (r: PlaceOrder)
        ensures
            r@ == Map::<u32, (u32, u64)>::empty(),
    {
        PlaceOrder { ordermapping: HashMap::new() }
    }

    /// The account and the position of an order, if the order has been seen.
    pub fn get(&self, order_id: u32) -> (r: Option<(u32, u64)>)
        ensures
            r == if self@.contains_key(order_id) {
                Some(self@[order_id])
            } else {
                None
            },
    {
        match self.ordermapping.get(&order_id) {
            Some(slot) => Some(*slot),
            None => None,
        }
    }

    /// Places an order unless it has been placed before, and remembers its slot.
    pub fn ensure_placed(&mut self, state: &mut GlobalState, order_state: &OrderState) -> (r: Result<
        (),
        ReplayError,
    >)
        requires
            old(state).wf(),
        ensures
            final(state).wf(),
            r == placed(old(state)@, old(self)@, *order_state).result,
            final(state)@ == placed(old(state)@, old(self)@, *order_state).ledger,
            final(self)@ == placed(old(state)@, old(self)@, *order_state).slots,
    {
        if self.ordermapping.contains_key(&order_state.order_id) {
            return Ok(());
        }
        match check_placing(state, order_state) {
            Ok(tx) => {
                let new_order_pos = state.place_order(tx);
                self.ordermapping.insert(
                    order_state.order_id,
                    (order_state.account_id, new_order_pos as u64),
                );
                Ok(())
            },
            Err(e) => Err(e),
        }
    }

    /// Checks that the two orders that a message states are those of the ledger.
    pub fn assert_order_state(
        &self,
        state: &GlobalState,
        ask_order_state: OrderState,
        bid_order_state: OrderState,
    ) -> (r: Result<(), ReplayError>)
        requires
            state.wf(),
        ensures
            r == orders_check(state@, ask_order_state, bid_order_state),
    {
        match check_order(state, &ask_order_state) {
            Ok(_) => check_order(state, &bid_order_state),
            Err(e) => Err(e),
        }
    }

    /// The trade as a transaction between the maker's order and the taker's.
    pub fn trade_into_spot_tx(&self, trade: &TradeMessage) -> (r: Result<SpotTradeTx, ReplayError>)
        ensures
            r == spot_tx_spec(*trade),
    {
        let id_pair = match parse_market(trade.market.as_str()) {
            Some(p) => p,
            None => {
                return Err(ReplayError::UnknownMarket);
            },
        };
        let prec_base = match find_prec(id_pair.0) {
            Some(p) => p,
            None => {
                return Err(ReplayError::UnknownAsset);
            },
        };
        let prec_quote = match find_prec(id_pair.1) {
            Some(p) => p,
            None => {
                return Err(ReplayError::UnknownAsset);
            },
        };
        let amount = match number_to_integer(&trade.amount, prec_base) {
            Some(x) => x,
            None => {
                return Err(ReplayError::NotRepresentable);
            },
        };
        let quote_amount = match number_to_integer(&trade.quote_amount, prec_quote) {
            Some(x) => x,
            None => {
                return Err(ReplayError::NotRepresentable);
            },
        };
        match trade.ask_role {
            MarketRole::MAKER => Ok(
                SpotTradeTx {
                    order1_account_id: trade.ask_user_id,
                    order2_account_id: trade.bid_user_id,
                    token_id_1to2: id_pair.0,
                    token_id_2to1: id_pair.1,
                    amount_1to2: amount,
                    amount_2to1: quote_amount,
                    order1_id: low32_of(trade.ask_order_id),
                    order2_id: low32_of(trade.bid_order_id),
                },
            ),
            MarketRole::TAKER => Ok(
                SpotTradeTx {
                    order1_account_id: trade.bid_user_id,
                    order2_account_id: trade.ask_user_id,
                    token_id_1to2: id_pair.1,
                    token_id_2to1: id_pair.0,
                    amount_1to2: quote_amount,
                    amount_2to1: amount,
                    order1_id: low32_of(trade.bid_order_id),
                    order2_id: low32_of(trade.ask_order_id),
                },
            ),
        }
    }

    /// Checks a trade message against the ledger in which both orders are placed, and applies
    /// the trade.
    pub fn check_and_trade(
        &self,
        state: &mut GlobalState,
        trade: &TradeMessage,
        parsed: &ParsedTrade,
    ) -> (r: Result<(), ReplayError>)
        requires
            old(state).wf(),
        ensures
            final(state).wf(),
            r == traded(old(state)@, self@, *trade, *parsed).result,
            final(state)@ == traded(old(state)@, self@, *trade, *parsed).ledger,
    {
        match assert_balance_state(
            &trade.state_before.balance,
            state,
            parsed.bid_before.account_id,
            parsed.ask_before.account_id,
            parsed.id_pair,
        ) {
            Ok(_) => {},
            Err(e) => {
                return Err(e);
            },
        }
        match self.assert_order_state(state, parsed.ask_before, parsed.bid_before) {
            Ok(_) => {},
            Err(e) => {
                return Err(e);
            },
        }
        let tx = match self.trade_into_spot_tx(trade) {
            Ok(tx) => tx,
            Err(e) => {
                return Err(e);
            },
        };
        match check_spot_trade(state, &tx) {
            Ok(_) => {},
            Err(e) => {
                return Err(e);
            },
        }
        state.spot_trade(tx);
        match assert_balance_state(
            &trade.state_after.balance,
            state,
            parsed.bid_after.account_id,
            parsed.ask_after.account_id,
            parsed.id_pair,
        ) {
            Ok(_) => {},
            Err(e) => {
                return Err(e);
            },
        }
        self.assert_order_state(state, parsed.ask_after, parsed.bid_after)
    }

    /// Places the two orders of a trade where they are new, the one with the smaller id first.
    pub fn place_orders(&mut self, state: &mut GlobalState, parsed: &ParsedTrade) -> (r: Result<
        (),
        ReplayError,
    >)
        requires
            old(state).wf(),
        ensures
            final(state).wf(),
            r == both_placed(old(state)@, old(self)@, *parsed).result,
            final(state)@ == both_placed(old(state)@, old(self)@, *parsed).ledger,
            final(self)@ == both_placed(old(state)@, old(self)@, *parsed).slots,
    {
        let (first, second) = if parsed.bid_before.order_id < parsed.ask_before.order_id {
            (parsed.bid_before, parsed.ask_before)
        } else {
            (parsed.ask_before, parsed.bid_before)
        };
        match self.ensure_placed(state, &first) {
            Ok(_) => self.ensure_placed(state, &second),
            Err(e) => Err(e),
        }
    }

    /// Replays a trade whose four orders have been worked out: places the two orders where
    /// they are new; checks the balances and the orders before the trade; applies the trade;
    /// checks the balances and the orders after it.
    pub fn handle_parsed_trade(
        &mut self,
        state: &mut GlobalState,
        trade: &TradeMessage,
        parsed: &ParsedTrade,
    ) -> (r: Result<(), ReplayError>)
        requires
            old(state).wf(),
        ensures
            final(state).wf(),
            r == trade_outcome(old(state)@, old(self)@, *trade, *parsed).result,
            final(state)@ == trade_outcome(old(state)@, old(self)@, *trade, *parsed).ledger,
            final(self)@ == trade_outcome(old(state)@, old(self)@, *trade, *parsed).slots,
    {
        match self.place_orders(state, parsed) {
            Ok(_) => self.check_and_trade(state, trade, parsed),
            Err(e) => Err(e),
        }
    }

    /// Replays a trade message. A message whose market is not known, or in which an amount
    /// times a price overflows, is refused and changes nothing.
    pub fn handle_trade(&mut self, state: &mut GlobalState, trade: TradeMessage) -> (r: Result<
        (),
        ReplayError,
    >)
        requires
            old(state).wf(),
        ensures
            final(state).wf(),
            match parsed_trade(
                trade,
                decimal_product(
                    trade.state_before.ask_order_state.amount@,
                    trade.state_before.ask_order_state.price@,
                ),
                decimal_product(
                    trade.state_before.bid_order_state.amount@,
                    trade.state_before.bid_order_state.price@,
                ),
                decimal_product(
                    trade.state_after.ask_order_state.amount@,
                    trade.state_after.ask_order_state.price@,
                ),
                decimal_product(
                    trade.state_after.bid_order_state.amount@,
                    trade.state_after.bid_order_state.price@,
                ),
            ) {
                Err(e) => {
                    &&& r == Err::<(), ReplayError>(e)
                    &&& final(state)@ == old(state)@
                    &&& final(self)@ == old(self)@
                },
                Ok(p) => {
                    &&& r == trade_outcome(old(state)@, old(self)@, trade, p).result
                    &&& final(state)@ == trade_outcome(old(state)@, old(self)@, trade, p).ledger
                    &&& final(self)@ == trade_outcome(old(state)@, old(self)@, trade, p).slots
                },
            },
    {
        match parse_trade(&trade) {
            Ok(parsed) => self.handle_parsed_trade(state, &trade, &parsed),
            Err(e) => Err(e),
        }
    }
}

impl PlaceAccount {
    /// The trade with the ids of its two users replaced by the numbers of their accounts. A
    /// user seen for the first time is given a new account; where there is no room for one,
    /// the trade is refused.
    pub fn transform_trade(&mut self, state: &mut GlobalState, trade: TradeMessage) -> (r: Result<
        TradeMessage,
        ReplayError,
    >)
        requires
            old(state).wf(),
        ensures
            final(state).wf(),
            ({
                let l0 = old(state)@;
                let m0 = old(self)@;
                let l1 = bound_ledger(l0, m0, trade.ask_user_id);
                let m1 = bound_map(l0, m0, trade.ask_user_id);
                if !can_bind(l0, m0, trade.ask_user_id) {
                    &&& r == Err::<TradeMessage, ReplayError>(ReplayError::AccountsFull)
                    &&& final(state)@ == l0
                    &&& final(self)@ == m0
                } else if !can_bind(l1, m1, trade.bid_user_id) {
                    &&& r == Err::<TradeMessage, ReplayError>(ReplayError::AccountsFull)
                    &&& final(state)@ == l1
                    &&& final(self)@ == m1
                } else {
                    &&& r == Ok::<TradeMessage, ReplayError>(
                        TradeMessage {
                            ask_user_id: bound_account(l0, m0, trade.ask_user_id),
                            bid_user_id: bound_account(l1, m1, trade.bid_user_id),
                            ..trade
                        },
                    )
                    &&& final(state)@ == bound_ledger(l1, m1, trade.bid_user_id)
                    &&& final(self)@ == bound_map(l1, m1, trade.bid_user_id)
                }
            }),
    {
        let mut trade = trade;
        if !self.can_obtain(state, trade.ask_user_id) {
            return Err(ReplayError::AccountsFull);
        }
        trade.ask_user_id = self.obtain_place_id(state, trade.ask_user_id);
        if !self.can_obtain(state, trade.bid_user_id) {
            return Err(ReplayError::AccountsFull);
        }
        trade.bid_user_id = self.obtain_place_id(state, trade.bid_user_id);
        Ok(trade)
    }
}

} // verus!
