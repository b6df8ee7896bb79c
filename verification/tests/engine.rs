use state_keeper::codec::PlaceOrderTxData;
use state_keeper::common::{
    AccountState, DepositToOldTx, Order, PlaceOrderTx, RawTx, SpotTradeTx, TxType, TX_LENGTH,
};
use state_keeper::field::{Fr, Hasher};
use state_keeper::global_state::GlobalState;
use state_keeper::merkle::{empty_tree_root, recover_root, Tree};
use state_keeper::registry::{find_prec, find_token, prec, token_id};
use state_keeper::tx_detail_idx;

fn fr(x: u32) -> Fr {
    Fr::from_u32(x)
}

fn genesis_root(h: &Hasher, balance_levels: usize, order_levels: usize, account_levels: usize) -> Fr {
    let balance_root = empty_tree_root(h, balance_levels, Fr::zero());
    let order_leaf = h.hash(&vec![Fr::zero(); 7]);
    let order_root = empty_tree_root(h, order_levels, order_leaf);
    let z = Fr::zero();
    let account_leaf = h.hash(&vec![z, z, z, z, balance_root, order_root]);
    empty_tree_root(h, account_levels, account_leaf)
}

fn deposit(state: &mut GlobalState, account_id: u32, token_id: u32, amount: u32) {
    state.deposit_to_old(DepositToOldTx { account_id, token_id, amount: fr(amount) });
}

fn place(
    state: &mut GlobalState,
    account_id: u32,
    order_id: u32,
    sell: u32,
    buy: u32,
    amount_sell: u32,
    amount_buy: u32,
) -> u32 {
    state.place_order(PlaceOrderTx {
        order_id,
        account_id,
        token_id_sell: sell,
        token_id_buy: buy,
        amount_sell: fr(amount_sell),
        amount_buy: fr(amount_buy),
    })
}

/// Checks that every account's leaf, balance root and order root are what the trees hold.
fn check_leaf_consistency(state: &GlobalState, h: &Hasher) {
    for a in 0..state.account_count() {
        let acc = state.get_account(a);
        let p = state.state_proof(a, 0);
        assert_eq!(p.balance_root, acc.balance_root);
        assert_eq!(p.order_root, acc.order_root);
        assert_eq!(recover_root(h, p.leaf, &p.balance_path, 0), acc.balance_root);
        assert_eq!(recover_root(h, acc.hash(h), &p.account_path, a), state.root());
        assert_eq!(p.root, state.root());
    }
}

#[test]
fn registry_knows_eth_and_usdt() {
    assert_eq!(token_id("ETH"), 0);
    assert_eq!(token_id("USDT"), 1);
    assert_eq!(prec(0), 6);
    assert_eq!(prec(1), 6);
    assert_eq!(find_token("ETH"), Some(0));
    assert_eq!(find_token("USDT"), Some(1));
    assert_eq!(find_token("BTC"), None);
    assert_eq!(find_token(""), None);
    assert_eq!(find_token("ETH "), None);
    assert_eq!(find_token("eth"), None);
    assert_eq!(find_prec(0), Some(6));
    assert_eq!(find_prec(1), Some(6));
    assert_eq!(find_prec(2), None);
}

#[test]
fn payload_positions() {
    assert_eq!(TX_LENGTH, 34);
    let all = [
        tx_detail_idx::TOKEN_ID,
        tx_detail_idx::AMOUNT,
        tx_detail_idx::ACCOUNT_ID1,
        tx_detail_idx::ACCOUNT_ID2,
        tx_detail_idx::ETH_ADDR1,
        tx_detail_idx::ETH_ADDR2,
        tx_detail_idx::SIGN1,
        tx_detail_idx::SIGN2,
        tx_detail_idx::AY1,
        tx_detail_idx::AY2,
        tx_detail_idx::NONCE1,
        tx_detail_idx::NONCE2,
        tx_detail_idx::BALANCE1,
        tx_detail_idx::BALANCE2,
        tx_detail_idx::BALANCE3,
        tx_detail_idx::BALANCE4,
        tx_detail_idx::SIG_L2_HASH,
        tx_detail_idx::S,
        tx_detail_idx::R8X,
        tx_detail_idx::R8Y,
        tx_detail_idx::TOKEN_ID2,
        tx_detail_idx::AMOUNT2,
        tx_detail_idx::ORDER1_ID,
        tx_detail_idx::ORDER1_AMOUNT_SELL,
        tx_detail_idx::ORDER1_AMOUNT_BUY,
        tx_detail_idx::ORDER1_FILLED_SELL,
        tx_detail_idx::ORDER1_FILLED_BUY,
        tx_detail_idx::ORDER2_ID,
        tx_detail_idx::ORDER2_AMOUNT_SELL,
        tx_detail_idx::ORDER2_AMOUNT_BUY,
        tx_detail_idx::ORDER2_FILLED_SELL,
        tx_detail_idx::ORDER2_FILLED_BUY,
        tx_detail_idx::TOKEN_ID3,
        tx_detail_idx::TOKEN_ID4,
    ];
    for (i, idx) in all.iter().enumerate() {
        assert_eq!(*idx, i);
    }
}

#[test]
fn order_hash_and_filled() {
    let h = Hasher::new();
    let o = Order {
        order_id: fr(1),
        tokenbuy: fr(2),
        tokensell: fr(3),
        filled_sell: fr(4),
        filled_buy: fr(5),
        total_sell: fr(6),
        total_buy: fr(7),
    };
    assert_eq!(o.hash(&h), h.hash(&vec![fr(1), fr(2), fr(3), fr(6), fr(7), fr(4), fr(5)]));
    assert!(!o.is_filled());
    let filled = Order { filled_sell: fr(6), ..o };
    assert!(filled.is_filled());
    let over = Order { filled_sell: fr(7), ..o };
    assert!(over.is_filled());
    let d = Order::default();
    assert_eq!(d.order_id, Fr::zero());
    assert_eq!(d.total_sell, Fr::zero());
    assert!(d.is_filled());
    assert_eq!(d.hash(&h), h.hash(&vec![Fr::zero(); 7]));
}

#[test]
fn account_state_hash_and_updates() {
    let h = Hasher::new();
    let mut a = AccountState::empty(fr(8), fr(9));
    assert_eq!(a.nonce, Fr::zero());
    assert_eq!(a.sign, Fr::zero());
    assert_eq!(a.ay, Fr::zero());
    assert_eq!(a.eth_addr, Fr::zero());
    assert_eq!(a.balance_root, fr(8));
    assert_eq!(a.order_root, fr(9));
    let z = Fr::zero();
    assert_eq!(a.hash(&h), h.hash(&vec![z, z, z, z, fr(8), fr(9)]));
    a.update_nonce(fr(3));
    a.update_order_root(fr(10));
    assert_eq!(a.hash(&h), h.hash(&vec![fr(3), z, z, z, fr(8), fr(10)]));
}

#[test]
fn place_order_payload_layout() {
    let f: Vec<Fr> = (1..=19).map(fr).collect();
    let data = PlaceOrderTxData {
        order_pos: f[0],
        old_order_id: f[1],
        new_order_id: f[2],
        old_order_tokensell: f[3],
        old_order_filledsell: f[4],
        old_order_amountsell: f[5],
        old_order_tokenbuy: f[6],
        old_order_filledbuy: f[7],
        old_order_amountbuy: f[8],
        new_order_tokensell: f[9],
        new_order_amountsell: f[10],
        new_order_tokenbuy: f[11],
        new_order_amountbuy: f[12],
        account_id: f[13],
        balance: f[14],
        nonce: f[15],
        sign: f[16],
        ay: f[17],
        eth_addr: f[18],
    };
    let payload = data.encode();
    assert_eq!(payload.len(), TX_LENGTH);
    for i in 0..19 {
        assert_eq!(payload[i], fr(i as u32 + 1));
    }
    for i in 19..TX_LENGTH {
        assert_eq!(payload[i], Fr::zero());
    }
}

#[test]
fn genesis_root_is_that_of_empty_trees() {
    let h = Hasher::new();
    let state = GlobalState::new(2, 7, 2, 2, false);
    assert_eq!(state.root(), genesis_root(&h, 2, 7, 2));
    assert_eq!(state.account_count(), 0);
    assert_eq!(state.max_account_num(), 4);
    assert_eq!(state.max_token_num(), 4);
    assert_eq!(state.max_order_num(), 128);
    assert_eq!(state.n_tx(), 2);
    assert!(!state.verbose());
    assert_eq!(state.buffered_tx_count(), 0);
    assert_eq!(state.get_buffered_blocks().len(), 0);
    // built from the hash primitive step by step
    let z = Fr::zero();
    let b1 = h.hash_pair(z, z);
    let b2 = h.hash_pair(b1, b1);
    let mut o = h.hash(&vec![z; 7]);
    for _ in 0..7 {
        o = h.hash_pair(o, o);
    }
    let leaf = h.hash(&vec![z, z, z, z, b2, o]);
    let l1 = h.hash_pair(leaf, leaf);
    assert_eq!(state.root(), h.hash_pair(l1, l1));
    let other = GlobalState::new(2, 7, 2, 5, true);
    assert_eq!(other.root(), state.root());
    assert!(other.verbose());
    assert_ne!(GlobalState::new(3, 7, 2, 2, false).root(), state.root());
}

#[test]
fn new_accounts_are_numbered_in_order_and_leave_the_root() {
    let h = Hasher::new();
    let mut state = GlobalState::new(2, 3, 2, 2, false);
    let root = state.root();
    assert!(!state.has_account(0));
    assert_eq!(state.create_new_account(1), 0);
    assert_eq!(state.create_new_account(1), 1);
    assert_eq!(state.create_new_account(5), 2);
    assert_eq!(state.account_count(), 3);
    assert!(state.has_account(2));
    assert!(!state.has_account(3));
    assert_eq!(state.root(), root);
    let acc = state.get_account(1);
    assert_eq!(acc, AccountState::empty(empty_tree_root(&h, 2, Fr::zero()), acc.order_root));
    assert_eq!(acc.order_root, empty_tree_root(&h, 3, Order::default().hash(&h)));
    assert_eq!(state.get_l1_addr(1), Fr::zero());
    assert_eq!(state.get_token_balance(2, 3), Fr::zero());
    assert_eq!(state.find_order_slot(0), Some((1, false)));
    assert_eq!(state.find_order_slot(2), Some((5, false)));
    assert_eq!(state.create_new_account(1), 3);
    assert_eq!(state.account_count(), state.max_account_num());
    check_leaf_consistency(&state, &h);
}

#[test]
fn deposit_adds_to_the_balance_and_records_the_witness() {
    let h = Hasher::new();
    let mut state = GlobalState::new(2, 3, 2, 2, false);
    state.create_new_account(1);
    state.create_new_account(1);
    state.set_account_nonce(1, fr(7));
    deposit(&mut state, 1, 2, 500);
    let root0 = state.root();
    let before = state.state_proof(1, 2);
    let acc0 = state.get_account(1);
    let other = state.get_account(0);
    deposit(&mut state, 1, 2, 250);
    assert_eq!(state.get_token_balance(1, 2), fr(750));
    assert_eq!(state.get_token_balance(1, 0), Fr::zero());
    assert_eq!(state.get_token_balance(1, 1), Fr::zero());
    assert_eq!(state.get_token_balance(1, 3), Fr::zero());
    assert_eq!(state.get_token_balance(0, 2), Fr::zero());
    let acc1 = state.get_account(1);
    assert_eq!(acc1.nonce, fr(7));
    assert_eq!(acc1.order_root, acc0.order_root);
    assert_ne!(acc1.balance_root, acc0.balance_root);
    assert_eq!(state.get_account(0), other);
    let txs = state.get_buffered_txs();
    assert_eq!(txs.len(), 2);
    let w: &RawTx = &txs[1];
    assert_eq!(w.tx_type, TxType::DepositToOld);
    assert_eq!(w.root_before, root0);
    assert_eq!(w.root_after, state.root());
    assert_eq!(w.balance_path0, before.balance_path);
    assert_eq!(w.balance_path1, before.balance_path);
    assert_eq!(w.balance_path2, before.balance_path);
    assert_eq!(w.balance_path3, before.balance_path);
    assert_eq!(w.account_path0, before.account_path);
    assert_eq!(w.account_path1, before.account_path);
    assert_eq!(w.order_path0, state.trivial_order_path_elements());
    assert_eq!(w.order_path1, state.trivial_order_path_elements());
    assert_eq!(w.order_root0, acc0.order_root);
    assert_eq!(w.order_root1, acc0.order_root);
    let mut payload = vec![Fr::zero(); TX_LENGTH];
    payload[tx_detail_idx::TOKEN_ID] = fr(2);
    payload[tx_detail_idx::AMOUNT] = fr(250);
    payload[tx_detail_idx::ACCOUNT_ID2] = fr(1);
    payload[tx_detail_idx::BALANCE2] = fr(500);
    payload[tx_detail_idx::NONCE2] = fr(7);
    assert_eq!(w.payload, payload);
    // the witness replays: the same paths lead from the old leaves to the old roots and from
    // the new leaves to the new roots
    assert_eq!(recover_root(&h, fr(500), &w.balance_path0, 2), acc0.balance_root);
    assert_eq!(recover_root(&h, fr(750), &w.balance_path0, 2), acc1.balance_root);
    assert_eq!(recover_root(&h, acc0.hash(&h), &w.account_path0, 1), w.root_before);
    assert_eq!(recover_root(&h, acc1.hash(&h), &w.account_path0, 1), w.root_after);
    check_leaf_consistency(&state, &h);
}

#[test]
fn deposit_wraps_at_the_modulus() {
    let mut state = GlobalState::new(1, 1, 1, 2, false);
    state.create_new_account(1);
    let top = Fr::zero().sub(&Fr::one());
    state.deposit_to_old(DepositToOldTx { account_id: 0, token_id: 1, amount: top });
    assert_eq!(state.get_token_balance(0, 1), top);
    deposit(&mut state, 0, 1, 3);
    assert_eq!(state.get_token_balance(0, 1), fr(2));
}

#[test]
fn nonce_setters() {
    let h = Hasher::new();
    let mut state = GlobalState::new(1, 1, 1, 2, false);
    state.create_new_account(1);
    let root0 = state.root();
    state.set_account_nonce(0, fr(41));
    assert_eq!(state.get_account(0).nonce, fr(41));
    assert_ne!(state.root(), root0);
    state.increase_nonce(0);
    assert_eq!(state.get_account(0).nonce, fr(42));
    check_leaf_consistency(&state, &h);
    assert_eq!(state.buffered_tx_count(), 0);
}

#[test]
fn set_token_balance_restamps_the_account() {
    let h = Hasher::new();
    let mut state = GlobalState::new(2, 1, 1, 2, false);
    state.create_new_account(1);
    state.create_new_account(1);
    state.set_token_balance(1, 3, fr(99));
    assert_eq!(state.get_token_balance(1, 3), fr(99));
    let mut t = Tree::new(&h, 2, Fr::zero());
    t.set_value(&h, 3, fr(99));
    assert_eq!(state.get_account(1).balance_root, t.get_root());
    check_leaf_consistency(&state, &h);
}

#[test]
fn set_account_order_root_detaches_the_root() {
    let h = Hasher::new();
    let mut state = GlobalState::new(1, 2, 1, 2, false);
    state.create_new_account(1);
    state.set_account_order_root(0, fr(123));
    let acc = state.get_account(0);
    assert_eq!(acc.order_root, fr(123));
    let p = state.state_proof(0, 0);
    assert_ne!(p.order_root, fr(123));
    assert_eq!(recover_root(&h, acc.hash(&h), &p.account_path, 0), state.root());
}

#[test]
fn set_account_order_records_and_replaces() {
    let h = Hasher::new();
    let mut state = GlobalState::new(1, 2, 1, 2, false);
    state.create_new_account(1);
    let o = Order { order_id: fr(50), total_sell: fr(10), ..Order::default() };
    assert!(!state.has_order(0, 50));
    state.set_account_order(0, 3, o);
    assert!(state.has_order(0, 50));
    assert_eq!(state.get_order_pos_by_id(0, 50), 3);
    assert_eq!(state.get_account_order_by_id(0, 50), Some(o));
    assert_eq!(state.get_account_order_by_pos(0, 3), Some(o));
    assert_eq!(state.get_account_order_by_pos(0, 2), None);
    let mut t = Tree::new(&h, 2, Order::default().hash(&h));
    t.set_value(&h, 3, o.hash(&h));
    assert_eq!(state.get_account(0).order_root, t.get_root());
    // another order in the same slot: the first is no longer found
    let o2 = Order { order_id: fr(51), total_sell: fr(20), ..Order::default() };
    state.set_account_order(0, 3, o2);
    assert!(!state.has_order(0, 50));
    assert_eq!(state.get_order_pos_by_id(0, 51), 3);
    assert_eq!(state.get_account_order_by_id(0, 51), Some(o2));
    // the same order written again in its slot
    let o3 = Order { filled_sell: fr(5), ..o2 };
    state.set_account_order(0, 3, o3);
    assert_eq!(state.get_account_order_by_id(0, 51), Some(o3));
    check_leaf_consistency(&state, &h);
}

#[test]
fn place_order_takes_the_next_slot_and_records_the_witness() {
    let h = Hasher::new();
    let mut state = GlobalState::new(2, 2, 2, 2, false);
    state.create_new_account(1);
    state.create_new_account(1);
    deposit(&mut state, 1, 0, 1000);
    state.set_account_nonce(1, fr(3));
    let root0 = state.root();
    let acc0 = state.get_account(1);
    let before = state.state_proof(1, 0);
    let pos = place(&mut state, 1, 77, 0, 1, 400, 800);
    assert_eq!(pos, 1);
    let placed = Order {
        order_id: fr(77),
        tokenbuy: fr(1),
        tokensell: fr(0),
        filled_sell: Fr::zero(),
        filled_buy: Fr::zero(),
        total_sell: fr(400),
        total_buy: fr(800),
    };
    assert_eq!(state.get_account_order_by_id(1, 77), Some(placed));
    assert_eq!(state.get_order_pos_by_id(1, 77), 1);
    assert_eq!(state.find_order_slot(1), Some((2, false)));
    assert_eq!(state.get_token_balance(1, 0), fr(1000));
    let acc1 = state.get_account(1);
    assert_eq!(acc1.balance_root, acc0.balance_root);
    assert_eq!(acc1.nonce, fr(3));
    let txs = state.get_buffered_txs();
    let w = &txs[1];
    assert_eq!(w.tx_type, TxType::PlaceOrder);
    assert_eq!(w.root_before, root0);
    assert_eq!(w.root_after, state.root());
    assert_eq!(w.balance_path0, before.balance_path);
    assert_eq!(w.balance_path3, before.balance_path);
    assert_eq!(w.account_path0, before.account_path);
    assert_eq!(w.account_path1, before.account_path);
    assert_eq!(w.order_path1, state.trivial_order_path_elements());
    assert_eq!(w.order_root0, acc0.order_root);
    assert_eq!(w.order_root1, acc1.order_root);
    let z = Fr::zero();
    let mut payload = vec![
        fr(1),
        z,
        fr(77),
        z,
        z,
        z,
        z,
        z,
        z,
        fr(0),
        fr(400),
        fr(1),
        fr(800),
        fr(1),
        fr(1000),
        fr(3),
        z,
        z,
        z,
    ];
    payload.resize(TX_LENGTH, z);
    assert_eq!(w.payload, payload);
    // the shared order path leads from the old leaf to the old root and from the new leaf to
    // the new root
    assert_eq!(recover_root(&h, Order::default().hash(&h), &w.order_path0, 1), w.order_root0);
    assert_eq!(recover_root(&h, placed.hash(&h), &w.order_path0, 1), w.order_root1);
    check_leaf_consistency(&state, &h);
}

#[test]
fn order_slots_are_searched_in_a_ring() {
    let mut state = GlobalState::new(1, 2, 1, 2, false);
    state.create_new_account(3);
    assert_eq!(state.find_order_slot(0), Some((3, false)));
    assert_eq!(place(&mut state, 0, 10, 0, 1, 5, 5), 3);
    assert_eq!(state.find_order_slot(0), Some((0, false)));
    assert_eq!(place(&mut state, 0, 11, 0, 1, 5, 5), 0);
    assert_eq!(place(&mut state, 0, 12, 0, 1, 5, 5), 1);
    assert_eq!(place(&mut state, 0, 13, 0, 1, 5, 5), 2);
    // every slot holds an order that is not filled
    assert_eq!(state.find_order_slot(0), None);
    // the order in slot 1 is filled: its slot is the next one
    let filled = Order { filled_sell: fr(5), ..state.get_account_order_by_id(0, 12).unwrap() };
    state.set_account_order(0, 1, filled);
    assert_eq!(state.find_order_slot(0), Some((1, true)));
    let (pos, old_order) = state.create_new_order(&PlaceOrderTx {
        order_id: 14,
        account_id: 0,
        token_id_sell: 0,
        token_id_buy: 1,
        amount_sell: fr(6),
        amount_buy: fr(6),
    });
    assert_eq!(pos, 1);
    assert_eq!(old_order, filled);
    assert!(!state.has_order(0, 12));
    assert_eq!(state.get_order_pos_by_id(0, 14), 1);
    assert_eq!(state.find_order_slot(0), None);
}

#[test]
fn a_cursor_beyond_the_slots_wraps() {
    let mut state = GlobalState::new(1, 0, 1, 2, false);
    state.create_new_account(1);
    assert_eq!(state.max_order_num(), 1);
    assert_eq!(state.find_order_slot(0), Some((0, false)));
    assert_eq!(place(&mut state, 0, 9, 0, 1, 5, 5), 0);
    assert_eq!(state.find_order_slot(0), None);
    let mut other = GlobalState::new(1, 2, 1, 2, false);
    other.create_new_account(u32::MAX);
    assert_eq!(other.find_order_slot(0), Some((3, false)));
}

#[test]
fn slots_are_reused_once_their_orders_are_filled() {
    let order_levels = 2;
    let slots = 1u32 << order_levels;
    let mut state = GlobalState::new(1, order_levels, 1, 2, false);
    state.create_new_account(1);
    let mut positions = Vec::new();
    for i in 0..=slots {
        let id = 100 + i;
        let pos = place(&mut state, 0, id, 0, 1, 10, 20);
        positions.push(pos);
        let o = state.get_account_order_by_id(0, id).unwrap();
        assert!(!o.is_filled());
        state.set_account_order(0, pos, Order { filled_sell: fr(10), filled_buy: fr(20), ..o });
        assert!(state.get_account_order_by_id(0, id).unwrap().is_filled());
    }
    assert_eq!(positions, vec![1, 2, 3, 0, 1]);
    // the first order was overwritten by the last: only the orders in the slots are found
    assert!(!state.has_order(0, 100));
    for i in 1..=slots {
        assert!(state.has_order(0, 100 + i));
    }
    assert_eq!(state.get_order_pos_by_id(0, 104), 1);
    assert_eq!(state.get_order_pos_by_id(0, 101), 2);
    assert_eq!(state.find_order_slot(0), Some((2, true)));
    // two different ids never share a slot
    for i in 1..=slots {
        for j in 1..=slots {
            if i != j {
                assert_ne!(
                    state.get_order_pos_by_id(0, 100 + i),
                    state.get_order_pos_by_id(0, 100 + j)
                );
            }
        }
    }
}

fn trade_setup() -> GlobalState {
    let mut state = GlobalState::new(2, 3, 2, 2, false);
    state.create_new_account(1);
    state.create_new_account(1);
    state.create_new_account(1);
    deposit(&mut state, 0, 0, 1000);
    deposit(&mut state, 1, 1, 5000);
    deposit(&mut state, 1, 0, 7);
    deposit(&mut state, 0, 1, 11);
    state
}

fn a_trade() -> SpotTradeTx {
    SpotTradeTx {
        order1_account_id: 0,
        order2_account_id: 1,
        token_id_1to2: 0,
        token_id_2to1: 1,
        amount_1to2: fr(300),
        amount_2to1: fr(600),
        order1_id: 1,
        order2_id: 2,
    }
}

#[test]
fn spot_trade_moves_the_tokens_and_fills_the_orders() {
    let h = Hasher::new();
    let mut state = trade_setup();
    assert_eq!(place(&mut state, 0, 1, 0, 1, 500, 1000), 1);
    assert_eq!(place(&mut state, 1, 2, 1, 0, 1000, 500), 1);
    let bystander = state.get_account(2);
    state.spot_trade(a_trade());
    assert_eq!(state.get_token_balance(0, 0), fr(700));
    assert_eq!(state.get_token_balance(1, 0), fr(307));
    assert_eq!(state.get_token_balance(0, 1), fr(611));
    assert_eq!(state.get_token_balance(1, 1), fr(4400));
    // each token's sum over the two accounts is what it was
    assert_eq!(
        state.get_token_balance(0, 0).add(&state.get_token_balance(1, 0)),
        fr(1000).add(&fr(7))
    );
    assert_eq!(
        state.get_token_balance(0, 1).add(&state.get_token_balance(1, 1)),
        fr(11).add(&fr(5000))
    );
    let o1 = state.get_account_order_by_id(0, 1).unwrap();
    assert_eq!(
        o1,
        Order {
            order_id: fr(1),
            tokenbuy: fr(1),
            tokensell: fr(0),
            filled_sell: fr(300),
            filled_buy: fr(600),
            total_sell: fr(500),
            total_buy: fr(1000),
        }
    );
    let o2 = state.get_account_order_by_id(1, 2).unwrap();
    assert_eq!(
        o2,
        Order {
            order_id: fr(2),
            tokenbuy: fr(0),
            tokensell: fr(1),
            filled_sell: fr(600),
            filled_buy: fr(300),
            total_sell: fr(1000),
            total_buy: fr(500),
        }
    );
    assert!(!o1.is_filled() && !o2.is_filled());
    assert_eq!(state.get_account(2), bystander);
    // a second trade fills both orders
    state.spot_trade(SpotTradeTx { amount_1to2: fr(200), amount_2to1: fr(400), ..a_trade() });
    let o1 = state.get_account_order_by_id(0, 1).unwrap();
    let o2 = state.get_account_order_by_id(1, 2).unwrap();
    assert_eq!((o1.filled_sell, o1.filled_buy), (fr(500), fr(1000)));
    assert_eq!((o2.filled_sell, o2.filled_buy), (fr(1000), fr(500)));
    assert!(o1.is_filled() && o2.is_filled());
    assert_eq!(state.find_order_slot(0), Some((2, false)));
    check_leaf_consistency(&state, &h);
}

#[test]
fn spot_trade_witness_holds_each_path_of_its_moment() {
    let h = Hasher::new();
    let mut state = trade_setup();
    place(&mut state, 0, 1, 0, 1, 500, 1000);
    place(&mut state, 1, 2, 1, 0, 1000, 500);
    state.set_account_nonce(0, fr(5));
    state.set_account_nonce(1, fr(6));
    let root0 = state.root();
    let acc1 = state.get_account(0);
    let acc2 = state.get_account(1);
    let proof1 = state.state_proof(0, 0);
    let proof2 = state.state_proof(1, 1);
    let order1 = state.get_account_order_by_id(0, 1).unwrap();
    let order2 = state.get_account_order_by_id(1, 2).unwrap();
    state.spot_trade(a_trade());
    let txs = state.get_buffered_txs();
    let w = &txs[txs.len() - 1];
    assert_eq!(w.tx_type, TxType::SpotTrade);
    assert_eq!(w.root_before, root0);
    assert_eq!(w.root_after, state.root());
    assert_eq!(w.order_root0, acc1.order_root);
    assert_eq!(w.order_root1, acc2.order_root);
    assert_eq!(w.balance_path0, proof1.balance_path);
    assert_eq!(w.balance_path2, proof2.balance_path);
    assert_eq!(w.account_path0, proof1.account_path);
    let z = Fr::zero();
    let mut payload = vec![z; TX_LENGTH];
    payload[tx_detail_idx::ACCOUNT_ID1] = fr(0);
    payload[tx_detail_idx::ACCOUNT_ID2] = fr(1);
    payload[tx_detail_idx::NONCE1] = fr(5);
    payload[tx_detail_idx::NONCE2] = fr(6);
    payload[tx_detail_idx::TOKEN_ID] = fr(0);
    payload[tx_detail_idx::AMOUNT] = fr(300);
    payload[tx_detail_idx::BALANCE1] = fr(1000);
    payload[tx_detail_idx::BALANCE2] = fr(7);
    payload[tx_detail_idx::BALANCE3] = fr(5000);
    payload[tx_detail_idx::BALANCE4] = fr(11);
    payload[tx_detail_idx::TOKEN_ID2] = fr(1);
    payload[tx_detail_idx::AMOUNT2] = fr(600);
    payload[tx_detail_idx::TOKEN_ID3] = fr(1);
    payload[tx_detail_idx::ORDER1_ID] = fr(1);
    payload[tx_detail_idx::ORDER1_AMOUNT_SELL] = fr(500);
    payload[tx_detail_idx::ORDER1_AMOUNT_BUY] = fr(1000);
    payload[tx_detail_idx::TOKEN_ID4] = fr(1);
    payload[tx_detail_idx::ORDER2_ID] = fr(2);
    payload[tx_detail_idx::ORDER2_AMOUNT_SELL] = fr(1000);
    payload[tx_detail_idx::ORDER2_AMOUNT_BUY] = fr(500);
    assert_eq!(w.payload, payload);
    // the sellers' paths lead from the balances before to the balance roots before
    assert_eq!(recover_root(&h, fr(1000), &w.balance_path0, 0), acc1.balance_root);
    assert_eq!(recover_root(&h, fr(5000), &w.balance_path2, 1), acc2.balance_root);
    // the maker's path of the token it buys was taken after the maker had sent
    let mut t1 = Tree::new(&h, 2, z);
    t1.set_value(&h, 0, fr(700));
    t1.set_value(&h, 1, fr(11));
    assert_eq!(w.balance_path3, t1.get_proof(1).path_elements);
    // with the balance after the trade it leads to the maker's balance root after the trade
    assert_eq!(recover_root(&h, fr(611), &w.balance_path3, 1), state.get_account(0).balance_root);
    // the taker's path of the token it buys was taken after the taker had sent
    let mut t2 = Tree::new(&h, 2, z);
    t2.set_value(&h, 0, fr(7));
    t2.set_value(&h, 1, fr(4400));
    assert_eq!(w.balance_path1, t2.get_proof(0).path_elements);
    assert_eq!(recover_root(&h, fr(307), &w.balance_path1, 0), state.get_account(1).balance_root);
    // the order paths lead from the orders before to the order roots before, and from the
    // orders after to the order roots after
    assert_eq!(recover_root(&h, order1.hash(&h), &w.order_path0, 1), acc1.order_root);
    assert_eq!(recover_root(&h, order2.hash(&h), &w.order_path1, 1), acc2.order_root);
    let new1 = state.get_account_order_by_id(0, 1).unwrap();
    let new2 = state.get_account_order_by_id(1, 2).unwrap();
    assert_eq!(recover_root(&h, new1.hash(&h), &w.order_path0, 1), state.get_account(0).order_root);
    assert_eq!(recover_root(&h, new2.hash(&h), &w.order_path1, 1), state.get_account(1).order_root);
    // the maker's account path leads from its state before to the root before
    assert_eq!(recover_root(&h, acc1.hash(&h), &w.account_path0, 0), w.root_before);
    // the taker's account path was taken when the maker was done: with the taker's state
    // after the trade it leads to the root after
    assert_eq!(recover_root(&h, state.get_account(1).hash(&h), &w.account_path1, 1), w.root_after);
    assert_ne!(w.account_path1, state.state_proof(0, 0).account_path);
}

#[test]
fn witnesses_are_linked_by_their_roots() {
    let mut state = trade_setup();
    place(&mut state, 0, 1, 0, 1, 500, 1000);
    place(&mut state, 1, 2, 1, 0, 1000, 500);
    state.spot_trade(a_trade());
    state.nop();
    state.create_new_account(1);
    deposit(&mut state, 3, 0, 1);
    let txs = state.get_buffered_txs();
    assert_eq!(txs.len(), 9);
    for i in 0..txs.len() - 1 {
        assert_eq!(txs[i].root_after, txs[i + 1].root_before);
    }
    assert_eq!(txs[txs.len() - 1].root_after, state.root());
    assert_eq!(txs[0].root_before, GlobalState::new(2, 3, 2, 2, false).root());
}

#[test]
fn nop_changes_nothing() {
    let mut state = trade_setup();
    let root = state.root();
    let proof = state.state_proof(0, 0);
    state.nop();
    assert_eq!(state.root(), root);
    let txs = state.get_buffered_txs();
    let w = &txs[txs.len() - 1];
    assert_eq!(w.tx_type, TxType::Nop);
    assert_eq!(w.root_before, root);
    assert_eq!(w.root_after, root);
    assert_eq!(w.payload, vec![Fr::zero(); TX_LENGTH]);
    assert_eq!(w.balance_path0, proof.balance_path);
    assert_eq!(w.balance_path1, proof.balance_path);
    assert_eq!(w.balance_path2, proof.balance_path);
    assert_eq!(w.balance_path3, proof.balance_path);
    assert_eq!(w.account_path0, proof.account_path);
    assert_eq!(w.account_path1, proof.account_path);
    assert_eq!(w.order_root0, proof.order_root);
    assert_eq!(w.order_root1, proof.order_root);
    assert_eq!(w.order_path0, state.trivial_order_path_elements());
}

#[test]
fn trivial_order_path_is_that_of_a_tree_of_zeros() {
    let h = Hasher::new();
    let state = GlobalState::new(1, 3, 1, 2, false);
    let z = Fr::zero();
    let l1 = h.hash_pair(z, z);
    let l2 = h.hash_pair(l1, l1);
    assert_eq!(state.trivial_order_path_elements(), vec![[z], [l1], [l2]]);
}

#[test]
fn a_single_deposit_is_padded_to_a_block() {
    let mut state = GlobalState::new(2, 7, 2, 2, false);
    state.create_new_account(1);
    let root0 = state.root();
    deposit(&mut state, 0, 0, 1_000_000);
    let root1 = state.root();
    assert_eq!(state.get_buffered_blocks().len(), 0);
    state.flush_with_nop();
    assert_eq!(state.buffered_tx_count(), 2);
    assert_eq!(state.buffered_tx_count() % state.n_tx(), 0);
    let blocks = state.get_buffered_blocks();
    assert_eq!(blocks.len(), 1);
    let b = &blocks[0];
    assert_eq!(b.txs_type, vec![TxType::DepositToOld, TxType::Nop]);
    assert_eq!(b.old_account_roots, vec![root0, root1]);
    assert_eq!(b.new_account_roots, vec![root1, root1]);
    assert_eq!(b.encoded_txs.len(), 2);
    assert_eq!(b.encoded_txs[1], vec![Fr::zero(); TX_LENGTH]);
    assert_eq!(b.balance_path_elements.len(), 2);
    assert_eq!(b.order_path_elements.len(), 2);
    assert_eq!(b.account_path_elements.len(), 2);
    assert_eq!(b.order_roots.len(), 2);
    // flushing a full buffer adds nothing
    state.flush_with_nop();
    assert_eq!(state.buffered_tx_count(), 2);
    assert_eq!(state.get_buffered_blocks().len(), 1);
}

#[test]
fn flushing_an_empty_buffer_needs_no_account() {
    let mut state = GlobalState::new(1, 1, 1, 3, false);
    state.flush_with_nop();
    assert_eq!(state.buffered_tx_count(), 0);
    assert_eq!(state.take_blocks().len(), 0);
}

#[test]
fn a_block_is_the_transposition_of_its_witnesses() {
    let mut state = GlobalState::new(2, 2, 2, 3, false);
    state.create_new_account(1);
    state.create_new_account(1);
    deposit(&mut state, 0, 0, 10);
    deposit(&mut state, 1, 1, 20);
    assert_eq!(state.get_buffered_blocks().len(), 0);
    place(&mut state, 0, 1, 0, 1, 5, 6);
    assert_eq!(state.get_buffered_blocks().len(), 1);
    deposit(&mut state, 0, 0, 1);
    assert_eq!(state.get_buffered_blocks().len(), 1);
    let copies = state.forge_all_l2_blocks();
    assert_eq!(copies.len(), 1);
    let txs = state.get_buffered_txs();
    let b = &state.get_buffered_blocks()[0];
    for i in 0..3 {
        let t = &txs[i];
        assert_eq!(b.txs_type[i], t.tx_type);
        assert_eq!(b.encoded_txs[i], t.payload);
        assert_eq!(b.balance_path_elements[i][0], t.balance_path0);
        assert_eq!(b.balance_path_elements[i][1], t.balance_path1);
        assert_eq!(b.balance_path_elements[i][2], t.balance_path2);
        assert_eq!(b.balance_path_elements[i][3], t.balance_path3);
        assert_eq!(b.order_path_elements[i][0], t.order_path0);
        assert_eq!(b.order_path_elements[i][1], t.order_path1);
        assert_eq!(b.account_path_elements[i][0], t.account_path0);
        assert_eq!(b.account_path_elements[i][1], t.account_path1);
        assert_eq!(b.order_roots[i], [t.order_root0, t.order_root1]);
        assert_eq!(b.old_account_roots[i], t.root_before);
        assert_eq!(b.new_account_roots[i], t.root_after);
        assert_eq!(copies[0].encoded_txs[i], t.payload);
        assert_eq!(copies[0].txs_type[i], t.tx_type);
        assert_eq!(copies[0].balance_path_elements[i], b.balance_path_elements[i]);
        assert_eq!(copies[0].order_roots[i], b.order_roots[i]);
    }
    let forged = state.forge_with_txs(&txs[1..4]);
    assert_eq!(forged.txs_type, vec![TxType::DepositToOld, TxType::PlaceOrder, TxType::DepositToOld]);
    assert_eq!(forged.old_account_roots[0], txs[1].root_before);
    state.flush_with_nop();
    assert_eq!(state.buffered_tx_count(), 6);
    let blocks = state.take_blocks();
    assert_eq!(blocks.len(), 2);
    assert_eq!(blocks[1].txs_type, vec![TxType::DepositToOld, TxType::Nop, TxType::Nop]);
    // the last root of a block is the first root of the next
    assert_eq!(blocks[0].new_account_roots[2], blocks[1].old_account_roots[0]);
}

#[test]
fn forge_pads_and_returns_the_block() {
    let mut state = GlobalState::new(2, 2, 2, 4, false);
    state.create_new_account(1);
    deposit(&mut state, 0, 0, 10);
    let root = state.root();
    let block = state.forge();
    assert_eq!(block.txs_type, vec![TxType::DepositToOld, TxType::Nop, TxType::Nop, TxType::Nop]);
    assert_eq!(block.new_account_roots, vec![root; 4]);
    assert_eq!(state.buffered_tx_count(), 4);
    assert_eq!(state.get_buffered_blocks().len(), 1);
    assert_eq!(state.get_buffered_blocks()[0].txs_type, block.txs_type);
}

#[test]
fn recalculation_copies_the_roots_into_the_state() {
    let h = Hasher::new();
    let mut state = GlobalState::new(1, 1, 1, 2, false);
    state.create_new_account(1);
    deposit(&mut state, 0, 1, 5);
    let acc = state.get_account(0);
    let root = state.root();
    // the state of the account agrees with its trees: recalculating changes nothing
    state.recalculate_from_account_state(0);
    state.recalculate_from_balance_tree(0);
    state.recalculate_from_order_tree(0);
    assert_eq!(state.get_account(0), acc);
    assert_eq!(state.root(), root);
    // an order root set by hand is replaced by the root of the order tree
    state.set_account_order_root(0, fr(1));
    assert_ne!(state.root(), root);
    state.recalculate_from_order_tree(0);
    assert_eq!(state.get_account(0), acc);
    assert_eq!(state.root(), root);
    check_leaf_consistency(&state, &h);
}

#[test]
fn orders_placed_and_filled_by_trades_reuse_their_slots() {
    let order_levels = 2;
    let slots = 1u32 << order_levels;
    let mut state = GlobalState::new(1, order_levels, 1, 2, false);
    state.create_new_account(1);
    state.create_new_account(1);
    deposit(&mut state, 0, 0, 1000);
    deposit(&mut state, 1, 1, 1000);
    for i in 0..=slots {
        let expected = (1 + i) % slots;
        // from the second round on the next slot holds a filled order
        assert_eq!(state.find_order_slot(0), Some((expected, i >= slots)));
        let id = expected;
        assert_eq!(place(&mut state, 0, id, 0, 1, 10, 20), expected);
        assert_eq!(place(&mut state, 1, id, 1, 0, 20, 10), expected);
        state.spot_trade(SpotTradeTx {
            order1_account_id: 0,
            order2_account_id: 1,
            token_id_1to2: 0,
            token_id_2to1: 1,
            amount_1to2: fr(10),
            amount_2to1: fr(20),
            order1_id: id,
            order2_id: id,
        });
        assert!(state.get_account_order_by_id(0, id).unwrap().is_filled());
        assert!(state.get_account_order_by_id(1, id).unwrap().is_filled());
    }
    assert_eq!(state.get_token_balance(0, 0), fr(950));
    assert_eq!(state.get_token_balance(0, 1), fr(100));
    assert_eq!(state.get_token_balance(1, 1), fr(900));
    assert_eq!(state.get_token_balance(1, 0), fr(50));
    assert_eq!(state.buffered_tx_count(), 2 + 3 * (slots as usize + 1));
    assert_eq!(state.find_order_slot(0), Some((2, true)));
    for id in 0..slots {
        assert_eq!(state.get_order_pos_by_id(0, id), id);
        assert_eq!(state.get_order_pos_by_id(1, id), id);
    }
}
