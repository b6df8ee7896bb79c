use state_keeper::adapter::{
    apply_deposit, assert_balance_state, check_deposit, check_order, check_placing,
    check_spot_trade, parse_market, parse_trade, split_market, CommonBalanceState, OrderState,
    PlaceAccount, PlaceOrder, ReplayError, Side, TokenIdPair,
};
use state_keeper::common::{DepositToOldTx, Order, PlaceOrderTx, SpotTradeTx, TxType};
use state_keeper::decimal::{Decimal, MAX_MANTISSA};
use state_keeper::field::Fr;
use state_keeper::global_state::GlobalState;
use state_keeper::messages::{
    message_kind, BalanceMessage, MarketRole, MessageKind, TradeMessage, VerboseBalanceState,
    VerboseOrderState, VerboseTradeState,
};

fn fr(x: u32) -> Fr {
    Fr::from_u32(x)
}

fn dec(mantissa: i128, scale: u32) -> Decimal {
    Decimal::new(mantissa, scale).unwrap()
}

fn balance_msg(user_id: u32, asset: &str, change: Decimal, balance: Decimal) -> BalanceMessage {
    BalanceMessage { user_id, asset: asset.to_string(), change, balance }
}

fn order_state(finished_base: Decimal, finished_quote: Decimal) -> VerboseOrderState {
    VerboseOrderState { amount: dec(5, 1), price: dec(20, 1), finished_base, finished_quote }
}

/// The trade of 0.5 ETH for 1.0 USDT between the ask of user 101 and the bid of user 202,
/// where user 101 holds 1 ETH and user 202 holds `bid_quote` USDT (in millionths).
fn trade_msg(ask_user_id: u32, bid_user_id: u32, bid_quote: i128, ask_role: MarketRole) -> TradeMessage {
    let zero = dec(0, 0);
    TradeMessage {
        id: 1,
        market: "ETH_USDT".to_string(),
        amount: dec(5, 1),
        price: dec(20, 1),
        quote_amount: dec(10, 1),
        ask_user_id,
        bid_user_id,
        ask_order_id: 1,
        bid_order_id: 2,
        ask_role,
        bid_role: match ask_role {
            MarketRole::MAKER => MarketRole::TAKER,
            MarketRole::TAKER => MarketRole::MAKER,
        },
        state_before: VerboseTradeState {
            ask_order_state: order_state(zero, zero),
            bid_order_state: order_state(zero, zero),
            balance: VerboseBalanceState {
                bid_user_base: zero,
                bid_user_quote: dec(bid_quote, 6),
                ask_user_base: dec(1_000_000, 6),
                ask_user_quote: zero,
            },
        },
        state_after: VerboseTradeState {
            ask_order_state: order_state(dec(5, 1), dec(10, 1)),
            bid_order_state: order_state(dec(5, 1), dec(10, 1)),
            balance: VerboseBalanceState {
                bid_user_base: dec(500_000, 6),
                bid_user_quote: dec(bid_quote - 1_000_000, 6),
                ask_user_base: dec(500_000, 6),
                ask_user_quote: dec(1_000_000, 6),
            },
        },
    }
}

/// A state with the accounts of users 101 and 202, holding 1 ETH and `bid_quote` millionths of
/// USDT.
fn funded(bid_quote: i128) -> (GlobalState, PlaceAccount) {
    let mut state = GlobalState::new(2, 7, 2, 2, false);
    let mut accounts = PlaceAccount::new();
    let one = dec(1_000_000, 6);
    assert_eq!(accounts.handle_deposit(&mut state, balance_msg(101, "ETH", one, one)), Ok(()));
    let q = dec(bid_quote, 6);
    assert_eq!(accounts.handle_deposit(&mut state, balance_msg(202, "USDT", q, q)), Ok(()));
    (state, accounts)
}

#[test]
fn message_kinds() {
    assert_eq!(message_kind("BalanceMessage"), Some(MessageKind::Balance));
    assert_eq!(message_kind("OrderMessage"), Some(MessageKind::Order));
    assert_eq!(message_kind("TradeMessage"), Some(MessageKind::Trade));
    assert_eq!(message_kind("DepositMessage"), None);
    assert_eq!(message_kind(""), None);
    assert_eq!(message_kind("balancemessage"), None);
}

#[test]
fn markets() {
    assert_eq!(split_market("ETH_USDT"), Some(("ETH", "USDT")));
    assert_eq!(split_market("A_B_C"), Some(("A", "B")));
    assert_eq!(split_market("_"), Some(("", "")));
    assert_eq!(split_market("ETH_"), Some(("ETH", "")));
    assert_eq!(split_market("_USDT"), Some(("", "USDT")));
    assert_eq!(split_market("ETHUSDT"), None);
    assert_eq!(split_market(""), None);
    assert_eq!(parse_market("ETH_USDT"), Some(TokenIdPair(0, 1)));
    assert_eq!(parse_market("USDT_ETH"), Some(TokenIdPair(1, 0)));
    assert_eq!(parse_market("ETH_ETH"), Some(TokenIdPair(0, 0)));
    assert_eq!(parse_market("ETH_USDT_X"), Some(TokenIdPair(0, 1)));
    assert_eq!(parse_market("ETH_BTC"), None);
    assert_eq!(parse_market("BTC_USDT"), None);
    assert_eq!(parse_market("ETH"), None);
}

#[test]
fn deposit_on_a_new_account() {
    let mut state = GlobalState::new(2, 7, 2, 2, false);
    let default_root = state.root();
    let mut accounts = PlaceAccount::new();
    assert_eq!(accounts.get(101), None);
    let one = dec(1_000_000, 6);
    assert_eq!(accounts.handle_deposit(&mut state, balance_msg(101, "ETH", one, one)), Ok(()));
    assert_eq!(accounts.get(101), Some(0));
    assert_eq!(state.account_count(), 1);
    assert_eq!(state.get_token_balance(0, 0), fr(1_000_000));
    assert_eq!(state.find_order_slot(0), Some((1, false)));
    let txs = state.get_buffered_txs();
    assert_eq!(txs.len(), 1);
    assert_eq!(txs[0].tx_type, TxType::DepositToOld);
    assert_eq!(txs[0].root_before, default_root);
    assert_eq!(txs[0].root_after, state.root());
    assert_ne!(state.root(), default_root);
    // a second deposit of the same user goes to the same account
    let two = dec(2_500_000, 6);
    assert_eq!(
        accounts.handle_deposit(&mut state, balance_msg(101, "ETH", dec(15, 1), two)),
        Ok(())
    );
    assert_eq!(state.account_count(), 1);
    assert_eq!(state.get_token_balance(0, 0), fr(2_500_000));
}

#[test]
fn a_deposit_that_disagrees_with_the_ledger_changes_nothing() {
    let (mut state, mut accounts) = funded(2_000_000);
    let root = state.root();
    let count = state.buffered_tx_count();
    // the ledger holds 1 ETH for user 101, the message implies 2 ETH before the deposit
    let r = accounts.handle_deposit(&mut state, balance_msg(101, "ETH", dec(1, 0), dec(3, 0)));
    assert_eq!(r, Err(ReplayError::BalanceMismatch));
    assert_eq!(state.root(), root);
    assert_eq!(state.buffered_tx_count(), count);
    assert_eq!(state.get_token_balance(0, 0), fr(1_000_000));
    assert_eq!(state.account_count(), 2);
    // for a user not seen before only the new account remains
    let r = accounts.handle_deposit(&mut state, balance_msg(303, "ETH", dec(1, 0), dec(3, 0)));
    assert_eq!(r, Err(ReplayError::BalanceMismatch));
    assert_eq!(state.root(), root);
    assert_eq!(state.buffered_tx_count(), count);
    assert_eq!(state.account_count(), 3);
    assert_eq!(accounts.get(303), Some(2));
}

#[test]
fn deposits_that_are_refused() {
    let (mut state, mut accounts) = funded(2_000_000);
    let one = dec(1, 0);
    let root = state.root();
    let r = accounts.handle_deposit(&mut state, balance_msg(101, "ETH", dec(-1, 0), dec(0, 0)));
    assert_eq!(r, Err(ReplayError::NegativeChange));
    let r = accounts.handle_deposit(&mut state, balance_msg(101, "BTC", one, one));
    assert_eq!(r, Err(ReplayError::UnknownAsset));
    let r = accounts.handle_deposit(&mut state, balance_msg(101, "ETH", dec(2, 0), one));
    assert_eq!(r, Err(ReplayError::InvalidBalance));
    let r = accounts.handle_deposit(
        &mut state,
        balance_msg(101, "ETH", dec(MAX_MANTISSA, 0), dec(-MAX_MANTISSA, 0)),
    );
    assert_eq!(r, Err(ReplayError::Overflow));
    // the balance before is not a whole number of millionths
    let r = accounts.handle_deposit(&mut state, balance_msg(101, "ETH", one, dec(10000001, 7)));
    assert_eq!(r, Err(ReplayError::NotRepresentable));
    // the change is not a whole number of millionths
    let r = accounts
        .handle_deposit(&mut state, balance_msg(101, "ETH", dec(1, 7), dec(10000001, 7)));
    assert_eq!(r, Err(ReplayError::NotRepresentable));
    assert_eq!(state.root(), root);
    assert_eq!(state.buffered_tx_count(), 2);
    // decided without the account table
    assert_eq!(
        check_deposit(&state, 7, "ETH", &one, Some(dec(0, 0))),
        Err(ReplayError::UnknownAccount)
    );
    assert_eq!(check_deposit(&state, 0, "ETH", &one, None), Err(ReplayError::Overflow));
    assert_eq!(
        check_deposit(&state, 1, "ETH", &one, Some(dec(0, 0))),
        Ok(DepositToOldTx { account_id: 1, token_id: 0, amount: fr(1_000_000) })
    );
    assert_eq!(apply_deposit(&mut state, 1, "ETH", &one, Some(dec(0, 0))), Ok(()));
    assert_eq!(state.get_token_balance(1, 0), fr(1_000_000));
    assert_eq!(
        apply_deposit(&mut state, 1, "ETH", &one, Some(dec(0, 0))),
        Err(ReplayError::BalanceMismatch)
    );
}

#[test]
fn a_token_without_a_leaf_is_refused() {
    let mut state = GlobalState::new(0, 2, 2, 2, false);
    let mut accounts = PlaceAccount::new();
    let one = dec(1, 0);
    assert_eq!(
        accounts.handle_deposit(&mut state, balance_msg(1, "USDT", one, one)),
        Err(ReplayError::TokenOutOfRange)
    );
    assert_eq!(accounts.handle_deposit(&mut state, balance_msg(1, "ETH", one, one)), Ok(()));
}

#[test]
fn no_room_for_another_account() {
    let mut state = GlobalState::new(2, 2, 1, 2, false);
    let mut accounts = PlaceAccount::new();
    let one = dec(1, 0);
    assert!(accounts.can_obtain(&state, 1));
    assert_eq!(accounts.obtain_place_id(&mut state, 1), 0);
    assert_eq!(accounts.obtain_place_id(&mut state, 1), 0);
    assert_eq!(accounts.obtain_place_id(&mut state, 2), 1);
    assert!(accounts.can_obtain(&state, 2));
    assert!(!accounts.can_obtain(&state, 3));
    let root = state.root();
    assert_eq!(
        accounts.handle_deposit(&mut state, balance_msg(3, "ETH", one, one)),
        Err(ReplayError::AccountsFull)
    );
    assert_eq!(accounts.get(3), None);
    assert_eq!(state.root(), root);
    assert_eq!(state.account_count(), 2);
    let t = trade_msg(1, 3, 2_000_000, MarketRole::MAKER);
    assert!(matches!(accounts.transform_trade(&mut state, t), Err(ReplayError::AccountsFull)));
    let t = trade_msg(3, 1, 2_000_000, MarketRole::MAKER);
    assert!(matches!(accounts.transform_trade(&mut state, t), Err(ReplayError::AccountsFull)));
}

#[test]
fn transform_trade_replaces_users_by_accounts() {
    let (mut state, mut accounts) = funded(2_000_000);
    let t = accounts
        .transform_trade(&mut state, trade_msg(202, 404, 2_000_000, MarketRole::TAKER))
        .unwrap();
    assert_eq!(t.ask_user_id, 1);
    assert_eq!(t.bid_user_id, 2);
    assert_eq!(t.market, "ETH_USDT");
    assert_eq!(t.ask_order_id, 1);
    assert_eq!(t.bid_role, MarketRole::MAKER);
    assert_eq!(state.account_count(), 3);
    assert_eq!(accounts.get(404), Some(2));
}

#[test]
fn orders_are_projected_by_their_side() {
    let t = trade_msg(0, 1, 2_000_000, MarketRole::MAKER);
    let p = parse_trade(&t).unwrap();
    assert_eq!(p.id_pair, TokenIdPair(0, 1));
    let ask = p.ask_after;
    assert_eq!(ask.side, Side::ASK);
    assert_eq!((ask.token_sell, ask.token_buy), (0, 1));
    assert_eq!(ask.total_sell, dec(5, 1));
    assert_eq!(ask.total_buy, dec(100, 2));
    assert_eq!(ask.filled_sell, dec(5, 1));
    assert_eq!(ask.filled_buy, dec(10, 1));
    assert_eq!((ask.order_id, ask.account_id, ask.role), (1, 0, MarketRole::MAKER));
    let bid = p.bid_after;
    assert_eq!(bid.side, Side::BID);
    assert_eq!((bid.token_sell, bid.token_buy), (1, 0));
    assert_eq!(bid.total_sell, dec(100, 2));
    assert_eq!(bid.total_buy, dec(5, 1));
    assert_eq!(bid.filled_sell, dec(10, 1));
    assert_eq!(bid.filled_buy, dec(5, 1));
    assert_eq!((bid.order_id, bid.account_id, bid.role), (2, 1, MarketRole::TAKER));
    assert_eq!(
        ask.place_order_tx().map(|tx| (
            tx.order_id,
            tx.account_id,
            tx.token_id_sell,
            tx.token_id_buy,
            tx.amount_sell,
            tx.amount_buy
        )),
        Ok((1, 0, 0, 1, fr(500_000), fr(1_000_000)))
    );
    assert_eq!(
        bid.to_order(),
        Ok(Order {
            order_id: fr(2),
            tokenbuy: fr(0),
            tokensell: fr(1),
            filled_sell: fr(1_000_000),
            filled_buy: fr(500_000),
            total_sell: fr(1_000_000),
            total_buy: fr(500_000),
        })
    );
    let from_parts =
        OrderState::from_parts(&t.state_after.bid_order_state, dec(7, 0), p.id_pair, Side::BID, &t);
    assert_eq!(from_parts.total_sell, dec(7, 0));
    assert_eq!(from_parts.total_buy, dec(5, 1));
    // order ids are cut to 32 bits
    let mut long = t.clone();
    long.ask_order_id = (7u64 << 32) + 5;
    assert_eq!(parse_trade(&long).unwrap().ask_before.order_id, 5);
    // unregistered tokens and amounts that cannot be counted
    let odd = OrderState { token_sell: 9, ..ask };
    assert!(matches!(odd.place_order_tx(), Err(ReplayError::UnknownAsset)));
    assert_eq!(odd.to_order(), Err(ReplayError::UnknownAsset));
    let fine = OrderState { total_buy: dec(1, 7), ..ask };
    assert!(matches!(fine.place_order_tx(), Err(ReplayError::NotRepresentable)));
    assert_eq!(fine.to_order(), Err(ReplayError::NotRepresentable));
}

#[test]
fn trades_that_cannot_be_parsed() {
    let mut t = trade_msg(0, 1, 2_000_000, MarketRole::MAKER);
    t.market = "ETHUSDT".to_string();
    assert!(matches!(parse_trade(&t), Err(ReplayError::UnknownMarket)));
    assert!(matches!(PlaceOrder::new().trade_into_spot_tx(&t), Err(ReplayError::UnknownMarket)));
    let mut t = trade_msg(0, 1, 2_000_000, MarketRole::MAKER);
    t.state_after.bid_order_state.amount = dec(MAX_MANTISSA, 0);
    assert!(matches!(parse_trade(&t), Err(ReplayError::Overflow)));
    let (mut state, _) = funded(2_000_000);
    let root = state.root();
    let mut orders = PlaceOrder::new();
    assert_eq!(orders.handle_trade(&mut state, t), Err(ReplayError::Overflow));
    assert_eq!(state.root(), root);
    assert_eq!(state.buffered_tx_count(), 2);
}

#[test]
fn the_trade_as_a_transaction() {
    let orders = PlaceOrder::new();
    let tx = orders.trade_into_spot_tx(&trade_msg(3, 4, 2_000_000, MarketRole::MAKER)).unwrap();
    assert_eq!((tx.order1_account_id, tx.order2_account_id), (3, 4));
    assert_eq!((tx.token_id_1to2, tx.token_id_2to1), (0, 1));
    assert_eq!((tx.amount_1to2, tx.amount_2to1), (fr(500_000), fr(1_000_000)));
    assert_eq!((tx.order1_id, tx.order2_id), (1, 2));
    let tx = orders.trade_into_spot_tx(&trade_msg(3, 4, 2_000_000, MarketRole::TAKER)).unwrap();
    assert_eq!((tx.order1_account_id, tx.order2_account_id), (4, 3));
    assert_eq!((tx.token_id_1to2, tx.token_id_2to1), (1, 0));
    assert_eq!((tx.amount_1to2, tx.amount_2to1), (fr(1_000_000), fr(500_000)));
    assert_eq!((tx.order1_id, tx.order2_id), (2, 1));
    let mut t = trade_msg(3, 4, 2_000_000, MarketRole::MAKER);
    t.quote_amount = dec(-1, 0);
    assert!(matches!(orders.trade_into_spot_tx(&t), Err(ReplayError::NotRepresentable)));
}

#[test]
fn place_and_fill_one_trade_where_the_ask_is_the_maker() {
    let (mut state, mut accounts) = funded(1_000_001);
    let mut orders = PlaceOrder::new();
    let trade = accounts
        .transform_trade(&mut state, trade_msg(101, 202, 1_000_001, MarketRole::MAKER))
        .unwrap();
    assert_eq!((trade.ask_user_id, trade.bid_user_id), (0, 1));
    assert_eq!(orders.handle_trade(&mut state, trade), Ok(()));
    let txs = state.get_buffered_txs();
    let kinds: Vec<TxType> = txs.iter().map(|t| t.tx_type).collect();
    assert_eq!(
        kinds,
        vec![
            TxType::DepositToOld,
            TxType::DepositToOld,
            TxType::PlaceOrder,
            TxType::PlaceOrder,
            TxType::SpotTrade
        ]
    );
    // ETH(101) = 0.5, USDT(101) = 1.0, USDT(202) = 0.000001, ETH(202) = 0.5
    assert_eq!(state.get_token_balance(0, 0), fr(500_000));
    assert_eq!(state.get_token_balance(0, 1), fr(1_000_000));
    assert_eq!(state.get_token_balance(1, 1), fr(1));
    assert_eq!(state.get_token_balance(1, 0), fr(500_000));
    assert_eq!(orders.get(1), Some((0, 1)));
    assert_eq!(orders.get(2), Some((1, 1)));
    assert_eq!(orders.get(3), None);
    let ask = state.get_account_order_by_id(0, 1).unwrap();
    assert_eq!((ask.total_sell, ask.total_buy), (fr(500_000), fr(1_000_000)));
    assert_eq!((ask.filled_sell, ask.filled_buy), (fr(500_000), fr(1_000_000)));
    let bid = state.get_account_order_by_id(1, 2).unwrap();
    assert_eq!((bid.filled_sell, bid.filled_buy), (fr(1_000_000), fr(500_000)));
    assert!(ask.is_filled() && bid.is_filled());
    // the maker's order is order 1 of the trade
    let w = &txs[4];
    assert_eq!(w.payload[state_keeper::tx_detail_idx::ACCOUNT_ID1], fr(0));
    assert_eq!(w.payload[state_keeper::tx_detail_idx::AMOUNT], fr(500_000));
    assert_eq!(w.payload[state_keeper::tx_detail_idx::AMOUNT2], fr(1_000_000));
    assert_eq!(state.get_buffered_blocks().len(), 2);
}

#[test]
fn place_and_fill_one_trade_where_the_bid_is_the_maker() {
    let (mut state, mut accounts) = funded(3_000_000);
    let mut orders = PlaceOrder::new();
    let trade = accounts
        .transform_trade(&mut state, trade_msg(101, 202, 3_000_000, MarketRole::TAKER))
        .unwrap();
    assert_eq!(orders.handle_trade(&mut state, trade), Ok(()));
    assert_eq!(state.get_token_balance(0, 0), fr(500_000));
    assert_eq!(state.get_token_balance(0, 1), fr(1_000_000));
    assert_eq!(state.get_token_balance(1, 1), fr(2_000_000));
    assert_eq!(state.get_token_balance(1, 0), fr(500_000));
    let txs = state.get_buffered_txs();
    let w = &txs[4];
    assert_eq!(w.tx_type, TxType::SpotTrade);
    assert_eq!(w.payload[state_keeper::tx_detail_idx::ACCOUNT_ID1], fr(1));
    assert_eq!(w.payload[state_keeper::tx_detail_idx::ACCOUNT_ID2], fr(0));
    assert_eq!(w.payload[state_keeper::tx_detail_idx::TOKEN_ID], fr(1));
    assert_eq!(w.payload[state_keeper::tx_detail_idx::AMOUNT], fr(1_000_000));
    // the order with the smaller id was placed first
    assert_eq!(txs[2].payload[2], fr(1));
    assert_eq!(txs[3].payload[2], fr(2));
}

#[test]
fn a_seller_must_hold_more_than_it_sends() {
    // user 202 holds exactly the 1.0 USDT that it sends
    let (mut state, mut accounts) = funded(1_000_000);
    let mut orders = PlaceOrder::new();
    let trade = accounts
        .transform_trade(&mut state, trade_msg(101, 202, 1_000_000, MarketRole::MAKER))
        .unwrap();
    assert_eq!(orders.handle_trade(&mut state, trade), Err(ReplayError::InsufficientBalance));
    // the two orders were placed, the trade was not applied
    assert_eq!(state.buffered_tx_count(), 4);
    assert_eq!(state.get_token_balance(1, 1), fr(1_000_000));
    assert_eq!(state.get_token_balance(0, 0), fr(1_000_000));
    assert_eq!(orders.get(1), Some((0, 1)));
    assert_eq!(orders.get(2), Some((1, 1)));
}

#[test]
fn an_order_seen_before_is_not_placed_again() {
    let (mut state, mut accounts) = funded(5_000_000);
    let mut orders = PlaceOrder::new();
    let mut first = accounts
        .transform_trade(&mut state, trade_msg(101, 202, 5_000_000, MarketRole::MAKER))
        .unwrap();
    // the orders are for 1 ETH, of which the first trade fills a half
    first.state_before.ask_order_state.amount = dec(1, 0);
    first.state_before.bid_order_state.amount = dec(1, 0);
    first.state_after.ask_order_state.amount = dec(1, 0);
    first.state_after.bid_order_state.amount = dec(1, 0);
    let mut second = first.clone();
    assert_eq!(orders.handle_trade(&mut state, first), Ok(()));
    assert_eq!(state.buffered_tx_count(), 5);
    second.state_before = second.state_after;
    second.state_before.balance = VerboseBalanceState {
        bid_user_base: dec(500_000, 6),
        bid_user_quote: dec(4_000_000, 6),
        ask_user_base: dec(500_000, 6),
        ask_user_quote: dec(1_000_000, 6),
    };
    second.amount = dec(25, 2);
    second.quote_amount = dec(5, 1);
    second.state_after.ask_order_state.finished_base = dec(75, 2);
    second.state_after.ask_order_state.finished_quote = dec(15, 1);
    second.state_after.bid_order_state = second.state_after.ask_order_state;
    second.state_after.balance = VerboseBalanceState {
        bid_user_base: dec(750_000, 6),
        bid_user_quote: dec(3_500_000, 6),
        ask_user_base: dec(250_000, 6),
        ask_user_quote: dec(1_500_000, 6),
    };
    assert_eq!(orders.handle_trade(&mut state, second), Ok(()));
    assert_eq!(state.buffered_tx_count(), 6);
    assert_eq!(state.get_buffered_txs()[5].tx_type, TxType::SpotTrade);
    assert_eq!(state.get_token_balance(0, 0), fr(250_000));
    assert_eq!(state.get_token_balance(1, 1), fr(3_500_000));
    let ask = state.get_account_order_by_id(0, 1).unwrap();
    assert_eq!((ask.filled_sell, ask.total_sell), (fr(750_000), fr(1_000_000)));
}

#[test]
fn trades_that_disagree_with_the_ledger() {
    // the balances before
    let (mut state, mut accounts) = funded(2_000_000);
    let mut orders = PlaceOrder::new();
    let trade = accounts
        .transform_trade(&mut state, trade_msg(101, 202, 2_500_000, MarketRole::MAKER))
        .unwrap();
    assert_eq!(orders.handle_trade(&mut state, trade), Err(ReplayError::BalanceMismatch));
    assert_eq!(state.buffered_tx_count(), 4);
    // the orders before
    let (mut state, mut accounts) = funded(2_000_000);
    let mut orders = PlaceOrder::new();
    let mut trade = accounts
        .transform_trade(&mut state, trade_msg(101, 202, 2_000_000, MarketRole::MAKER))
        .unwrap();
    trade.state_before.bid_order_state.finished_base = dec(1, 1);
    assert_eq!(orders.handle_trade(&mut state, trade), Err(ReplayError::OrderMismatch));
    assert_eq!(state.buffered_tx_count(), 4);
    // the balances after: the trade is applied, then refused
    let (mut state, mut accounts) = funded(2_000_000);
    let mut orders = PlaceOrder::new();
    let mut trade = accounts
        .transform_trade(&mut state, trade_msg(101, 202, 2_000_000, MarketRole::MAKER))
        .unwrap();
    trade.state_after.balance.ask_user_quote = dec(2, 0);
    assert_eq!(orders.handle_trade(&mut state, trade), Err(ReplayError::BalanceMismatch));
    assert_eq!(state.buffered_tx_count(), 5);
    // the orders after
    let (mut state, mut accounts) = funded(2_000_000);
    let mut orders = PlaceOrder::new();
    let mut trade = accounts
        .transform_trade(&mut state, trade_msg(101, 202, 2_000_000, MarketRole::MAKER))
        .unwrap();
    trade.state_after.ask_order_state.finished_quote = dec(2, 0);
    assert_eq!(orders.handle_trade(&mut state, trade), Err(ReplayError::OrderMismatch));
    assert_eq!(state.buffered_tx_count(), 5);
    // a balance that cannot be counted
    let (mut state, mut accounts) = funded(2_000_000);
    let mut orders = PlaceOrder::new();
    let mut trade = accounts
        .transform_trade(&mut state, trade_msg(101, 202, 2_000_000, MarketRole::MAKER))
        .unwrap();
    trade.state_before.balance.ask_user_quote = dec(1, 9);
    assert_eq!(orders.handle_trade(&mut state, trade), Err(ReplayError::NotRepresentable));
}

#[test]
fn balances_are_compared_with_the_ledger() {
    let (state, _) = funded(2_000_000);
    let pair = TokenIdPair(0, 1);
    let stated = VerboseBalanceState {
        bid_user_base: dec(0, 0),
        bid_user_quote: dec(2, 0),
        ask_user_base: dec(1, 0),
        ask_user_quote: dec(0, 0),
    };
    assert_eq!(assert_balance_state(&stated, &state, 1, 0, pair), Ok(()));
    assert_eq!(assert_balance_state(&stated, &state, 0, 1, pair), Err(ReplayError::BalanceMismatch));
    assert_eq!(assert_balance_state(&stated, &state, 1, 2, pair), Err(ReplayError::UnknownAccount));
    assert_eq!(
        assert_balance_state(&stated, &state, 1, 0, TokenIdPair(0, 4)),
        Err(ReplayError::TokenOutOfRange)
    );
    assert_eq!(
        assert_balance_state(&stated, &state, 1, 0, TokenIdPair(0, 2)),
        Err(ReplayError::UnknownAsset)
    );
    assert_eq!(
        CommonBalanceState::build_local(&state, 1, 0, pair),
        Ok(CommonBalanceState {
            bid_user_base: fr(0),
            bid_user_quote: fr(2_000_000),
            ask_user_base: fr(1_000_000),
            ask_user_quote: fr(0),
        })
    );
    assert_eq!(
        CommonBalanceState::parse(&stated, pair),
        CommonBalanceState::build_local(&state, 1, 0, pair)
    );
}

#[test]
fn placing_that_is_refused() {
    let (mut state, _) = funded(2_000_000);
    let p = parse_trade(&trade_msg(0, 1, 2_000_000, MarketRole::MAKER)).unwrap();
    assert!(check_placing(&state, &p.ask_before).is_ok());
    let stranger = OrderState { account_id: 9, ..p.ask_before };
    assert!(matches!(check_placing(&state, &stranger), Err(ReplayError::UnknownAccount)));
    let odd = OrderState { total_sell: dec(-1, 0), ..p.ask_before };
    assert!(matches!(check_placing(&state, &odd), Err(ReplayError::NotRepresentable)));
    let mut orders = PlaceOrder::new();
    assert_eq!(orders.ensure_placed(&mut state, &p.ask_before), Ok(()));
    assert_eq!(orders.get(1), Some((0, 1)));
    assert_eq!(orders.ensure_placed(&mut state, &p.ask_before), Ok(()));
    assert_eq!(state.buffered_tx_count(), 3);
    // the id is that of the order in slot 1, and the next slot is 2
    assert!(matches!(check_placing(&state, &p.ask_before), Err(ReplayError::OrderIdInUse)));
    assert_eq!(check_order(&state, &p.ask_before), Ok(()));
    assert_eq!(check_order(&state, &p.ask_after), Err(ReplayError::OrderMismatch));
    assert_eq!(check_order(&state, &p.bid_before), Err(ReplayError::UnknownOrder));
    assert_eq!(
        orders.assert_order_state(&state, p.ask_before, p.bid_before),
        Err(ReplayError::UnknownOrder)
    );
    // a tree with one token and one order slot
    let mut small = GlobalState::new(0, 0, 1, 2, false);
    small.create_new_account(1);
    assert!(matches!(check_placing(&small, &p.bid_before), Err(ReplayError::UnknownAccount)));
    let bid0 = OrderState { account_id: 0, ..p.bid_before };
    assert!(matches!(check_placing(&small, &bid0), Err(ReplayError::TokenOutOfRange)));
    let ask0 = OrderState { account_id: 0, ..p.ask_before };
    let mut orders = PlaceOrder::new();
    assert_eq!(orders.ensure_placed(&mut small, &ask0), Ok(()));
    let next = OrderState { order_id: 5, ..ask0 };
    assert!(matches!(check_placing(&small, &next), Err(ReplayError::OrderSlotsFull)));
    assert_eq!(orders.ensure_placed(&mut small, &next), Err(ReplayError::OrderSlotsFull));
    assert_eq!(orders.get(5), None);
}

#[test]
fn trades_that_cannot_be_applied() {
    let (mut state, _) = funded(2_000_000);
    state.place_order(PlaceOrderTx {
        order_id: 1,
        account_id: 0,
        token_id_sell: 0,
        token_id_buy: 1,
        amount_sell: fr(10),
        amount_buy: fr(20),
    });
    state.place_order(PlaceOrderTx {
        order_id: 2,
        account_id: 1,
        token_id_sell: 1,
        token_id_buy: 0,
        amount_sell: fr(20),
        amount_buy: fr(10),
    });
    let tx = SpotTradeTx {
        order1_account_id: 0,
        order2_account_id: 1,
        token_id_1to2: 0,
        token_id_2to1: 1,
        amount_1to2: fr(10),
        amount_2to1: fr(20),
        order1_id: 1,
        order2_id: 2,
    };
    assert_eq!(check_spot_trade(&state, &tx), Ok(()));
    assert_eq!(
        check_spot_trade(&state, &SpotTradeTx { order1_id: 128, ..tx }),
        Err(ReplayError::OrderIdOutOfRange)
    );
    assert_eq!(
        check_spot_trade(&state, &SpotTradeTx { order2_account_id: 2, ..tx }),
        Err(ReplayError::UnknownAccount)
    );
    assert_eq!(
        check_spot_trade(&state, &SpotTradeTx { token_id_2to1: 4, ..tx }),
        Err(ReplayError::TokenOutOfRange)
    );
    assert_eq!(
        check_spot_trade(&state, &SpotTradeTx { order2_id: 3, ..tx }),
        Err(ReplayError::UnknownOrder)
    );
    assert_eq!(
        check_spot_trade(&state, &SpotTradeTx { amount_1to2: fr(1_000_000), ..tx }),
        Err(ReplayError::InsufficientBalance)
    );
    assert_eq!(
        check_spot_trade(&state, &SpotTradeTx { amount_1to2: fr(999_999), ..tx }),
        Ok(())
    );
    assert_eq!(
        check_spot_trade(&state, &SpotTradeTx { amount_2to1: fr(2_000_001), ..tx }),
        Err(ReplayError::InsufficientBalance)
    );
}

#[test]
fn tables_start_empty() {
    let accounts = PlaceAccount::default();
    assert_eq!(accounts.get(0), None);
    let orders = PlaceOrder::default();
    assert_eq!(orders.get(0), None);
}
