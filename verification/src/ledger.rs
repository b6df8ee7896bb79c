//! The mathematical model of the ledger.
//!
//! A [`Ledger`] holds what the state engine knows, as sequences and maps. Every operation of
//! the engine is a function from ledgers to ledgers here, and the witness of each transaction is
//! a function of the ledgers it passes through. The engine's contracts are stated over them.

use crate::codec::zero_payload;
use crate::codec::PlaceOrderTxData;
use crate::common::AccountState;
use crate::common::DepositToOldTx;
use crate::common::Order;
use crate::common::PlaceOrderTx;
use crate::common::RawTxView;
use crate::common::SpotTradeTx;
use crate::common::TxType;
use crate::field::fr_add;
use crate::field::fr_of;
use crate::field::fr_of_u32;
use crate::field::fr_sub;
use crate::field::Fr;
use crate::merkle::merkle_root;
use crate::merkle::path_of;
use crate::merkle::lemma_pow2_fits;
use crate::merkle::lemma_uniform_nodes;
use crate::merkle::uniform_leaves;
use crate::merkle::uniform_node;
use crate::tx_detail_idx;
use vstd::arithmetic::power2::pow2;
use vstd::prelude::*;

verus! {

/// The state of the ledger. Accounts are numbered from zero in the order of their creation.
pub struct Ledger {
    /// The number of transactions in a block.
    pub n_tx: nat,
    /// The height of each account's balance tree.
    pub balance_levels: nat,
    /// The height of each account's order tree.
    pub order_levels: nat,
    /// The height of the account tree.
    pub account_levels: nat,
    /// Whether the program around the engine is to report what is done.
    pub verbose: bool,
    /// The state of each account.
    pub accounts: Seq<AccountState>,
    /// The balances of each account, by token.
    pub balances: Seq<Seq<Fr>>,
    /// The orders of each account, by their position in the account's order tree.
    pub orders: Seq<Map<u32, Order>>,
    /// The position of each order, by account and order id.
    pub order_pos: Map<(u32, u32), u32>,
    /// Where the search for a free order slot starts, by account.
    pub next_order_idx: Seq<u32>,
    /// The witnesses of all transactions so far.
    pub txs: Seq<RawTxView>,
    /// The blocks forged so far.
    pub blocks: Seq<Seq<RawTxView>>,
}

/// What a state proof holds, as mathematical sequences.
pub struct StateProofView {
    pub leaf: Fr,
    pub root: Fr,
    pub balance_root: Fr,
    pub order_root: Fr,
    pub balance_path: Seq<Fr>,
    pub account_path: Seq<Fr>,
}

/// The order that a transaction places.
pub open spec fn placed_order(tx: PlaceOrderTx) -> Order {
    Order {
        order_id: fr_of_u32(tx.order_id),
        tokenbuy: fr_of_u32(tx.token_id_buy),
        tokensell: fr_of_u32(tx.token_id_sell),
        filled_sell: fr_of(0),
        filled_buy: fr_of(0),
        total_sell: tx.amount_sell,
        total_buy: tx.amount_buy,
    }
}

/// An order after a trade in which it sold `sold` of `token_sell` and bought `bought` of
/// `token_buy`.
pub open spec fn traded_order(
    order: Order,
    token_sell: u32,
    token_buy: u32,
    sold: Fr,
    bought: Fr,
) -> Order {
    Order {
        order_id: order.order_id,
        tokenbuy: fr_of_u32(token_buy),
        tokensell: fr_of_u32(token_sell),
        filled_sell: fr_add(order.filled_sell, sold),
        filled_buy: fr_add(order.filled_buy, bought),
        total_sell: order.total_sell,
        total_buy: order.total_buy,
    }
}

/// Whether the blocks are the full groups of `n_tx` transactions, in order.
pub open spec fn blocks_ok(txs: Seq<RawTxView>, blocks: Seq<Seq<RawTxView>>, n_tx: nat) -> bool {
    &&& n_tx > 0
    &&& blocks.len() * n_tx <= txs.len() < (blocks.len() + 1) * n_tx
    &&& forall|k: int|
        0 <= k < blocks.len() ==> #[trigger] blocks[k] == txs.subrange(k * n_tx, (k + 1) * n_tx)
}

/// Before the first transaction there are no blocks.
pub proof fn lemma_blocks_ok_empty(n_tx: nat)
    requires
        n_tx > 0,
    ensures
        blocks_ok(Seq::empty(), Seq::empty(), n_tx),
{
    assert(0 * n_tx == 0) by (nonlinear_arith);
    assert((0 + 1) * n_tx == n_tx) by (nonlinear_arith);
}

/// Whether the orders and the index of their positions agree: each order lies inside the order
/// tree, has an id that is a `u32`, and is found under its account and id at its position, and
/// the index holds nothing else.
pub open spec fn orders_ok(
    orders: Seq<Map<u32, Order>>,
    order_pos: Map<(u32, u32), u32>,
    order_levels: nat,
) -> bool {
    &&& forall|a: int, p: u32|
        0 <= a < orders.len() && #[trigger] orders[a].contains_key(p) ==> {
            &&& p < pow2(order_levels)
            &&& orders[a][p].order_id@ <= u32::MAX
            &&& order_pos.contains_key((a as u32, orders[a][p].order_id@ as u32))
            &&& order_pos[(a as u32, orders[a][p].order_id@ as u32)] == p
        }
    &&& forall|k: (u32, u32)| #[trigger]
        order_pos.contains_key(k) ==> {
            &&& k.0 < orders.len()
            &&& orders[k.0 as int].contains_key(order_pos[k])
            &&& orders[k.0 as int][order_pos[k]].order_id@ == k.1
        }
}

/// The root of a balance tree without balances.
pub open spec fn default_balance_root_of(balance_levels: nat) -> Fr {
    uniform_node(fr_of(0), balance_levels)
}

/// The leaf of an order slot never written.
pub open spec fn default_order_leaf() -> Fr {
    Order::zero_spec().hash_spec()
}

/// The root of an order tree without orders.
pub open spec fn default_order_root_of(order_levels: nat) -> Fr {
    uniform_node(default_order_leaf(), order_levels)
}

/// The leaf of an account never created.
pub open spec fn default_account_leaf_of(balance_levels: nat, order_levels: nat) -> Fr {
    AccountState::empty_spec(
        default_balance_root_of(balance_levels),
        default_order_root_of(order_levels),
    ).hash_spec()
}

/// The leaves of an order tree that holds the given orders.
pub open spec fn order_leaves_of(orders: Map<u32, Order>, order_levels: nat) -> Seq<Fr> {
    Seq::new(
        pow2(order_levels),
        |p: int|
            if orders.contains_key(p as u32) {
                orders[p as u32].hash_spec()
            } else {
                default_order_leaf()
            },
    )
}

/// The leaves of an account tree that holds the given accounts.
pub open spec fn account_leaves_of(
    accounts: Seq<AccountState>,
    account_levels: nat,
    balance_levels: nat,
    order_levels: nat,
) -> Seq<Fr> {
    Seq::new(
        pow2(account_levels),
        |a: int|
            if a < accounts.len() {
                accounts[a].hash_spec()
            } else {
                default_account_leaf_of(balance_levels, order_levels)
            },
    )
}

impl Ledger {
    /// The number of accounts.
    pub open spec fn count(self) -> nat {
        self.accounts.len()
    }

    /// The number of order slots of an account.
    pub open spec fn max_orders(self) -> nat {
        pow2(self.order_levels)
    }

    /// The root of a balance tree without balances.
    pub open spec fn default_balance_root(self) -> Fr {
        default_balance_root_of(self.balance_levels)
    }

    /// The leaf of an order slot never written.
    pub open spec fn default_order_leaf(self) -> Fr {
        default_order_leaf()
    }

    /// The root of an order tree without orders.
    pub open spec fn default_order_root(self) -> Fr {
        default_order_root_of(self.order_levels)
    }

    /// The leaf of an account never created.
    pub open spec fn default_account_leaf(self) -> Fr {
        default_account_leaf_of(self.balance_levels, self.order_levels)
    }

    /// The leaves of the order tree of account `a`.
    pub open spec fn order_leaves(self, a: int) -> Seq<Fr> {
        order_leaves_of(self.orders[a], self.order_levels)
    }

    /// The leaves of the account tree.
    pub open spec fn account_leaves(self) -> Seq<Fr> {
        account_leaves_of(self.accounts, self.account_levels, self.balance_levels, self.order_levels)
    }

    /// The root of the account tree: the one number that stands for the whole ledger.
    pub open spec fn root(self) -> Fr {
        merkle_root(self.account_leaves(), self.account_levels)
    }

    /// The root of the balance tree of account `a`.
    pub open spec fn balance_root(self, a: int) -> Fr {
        merkle_root(self.balances[a], self.balance_levels)
    }

    /// The root of the order tree of account `a`.
    pub open spec fn order_root(self, a: int) -> Fr {
        merkle_root(self.order_leaves(a), self.order_levels)
    }

    /// The empty ledger.
    pub open spec fn genesis(
        balance_levels: nat,
        order_levels: nat,
        account_levels: nat,
        n_tx: nat,
        verbose: bool,
    ) -> Ledger {
        Ledger {
            n_tx,
            balance_levels,
            order_levels,
            account_levels,
            verbose,
            accounts: Seq::empty(),
            balances: Seq::empty(),
            orders: Seq::empty(),
            order_pos: Map::empty(),
            next_order_idx: Seq::empty(),
            txs: Seq::empty(),
            blocks: Seq::empty(),
        }
    }

    /// The invariants that hold at every step, also inside a transaction: the tables have one
    /// entry per account, every tree has its size, orders and their index agree, and the blocks
    /// are the full groups of transactions.
    pub open spec fn wf_base(self) -> bool {
        &&& self.balance_levels < 32
        &&& self.order_levels < 32
        &&& self.account_levels < 32
        &&& self.accounts.len() <= pow2(self.account_levels)
        &&& self.balances.len() == self.accounts.len()
        &&& self.orders.len() == self.accounts.len()
        &&& self.next_order_idx.len() == self.accounts.len()
        &&& forall|a: int|
            0 <= a < self.balances.len() ==> (#[trigger] self.balances[a]).len() == pow2(
                self.balance_levels,
            )
        &&& orders_ok(self.orders, self.order_pos, self.order_levels)
        &&& blocks_ok(self.txs, self.blocks, self.n_tx)
    }

    /// Whether the state of account `a` holds the root of its balance tree.
    pub open spec fn balance_root_ok(self, a: int) -> bool {
        self.accounts[a].balance_root == self.balance_root(a)
    }

    /// Whether the state of account `a` holds the root of its order tree.
    pub open spec fn order_root_ok(self, a: int) -> bool {
        self.accounts[a].order_root == self.order_root(a)
    }

    /// The invariants that hold between transactions: those of every step, and every
    /// account's state holds the roots of its two trees.
    pub open spec fn wf(self) -> bool {
        &&& self.wf_base()
        &&& forall|a: int| 0 <= a < self.count() ==> #[trigger] self.balance_root_ok(a)
        &&& forall|a: int| 0 <= a < self.count() ==> #[trigger] self.order_root_ok(a)
    }

    /// Whether `a` is an account and `t` a token.
    pub open spec fn has_slot(self, a: int, t: int) -> bool {
        0 <= a < self.count() && 0 <= t < pow2(self.balance_levels)
    }

    // ----- single steps -----
    /// A new account: no balances, no orders, the search for order slots starting at
    /// `next_order_id`.
    pub open spec fn create_new_account(self, next_order_id: u32) -> Ledger {
        Ledger {
            accounts: self.accounts.push(
                AccountState::empty_spec(self.default_balance_root(), self.default_order_root()),
            ),
            balances: self.balances.push(uniform_leaves(self.balance_levels, fr_of(0))),
            orders: self.orders.push(Map::empty()),
            next_order_idx: self.next_order_idx.push(next_order_id),
            ..self
        }
    }

    /// Writes the state of account `a`.
    pub open spec fn with_account(self, a: int, state: AccountState) -> Ledger {
        Ledger { accounts: self.accounts.update(a, state), ..self }
    }

    /// Writes one leaf of a balance tree and leaves the account's state as it is.
    pub open spec fn with_balance_leaf(self, a: int, t: int, balance: Fr) -> Ledger {
        Ledger { balances: self.balances.update(a, self.balances[a].update(t, balance)), ..self }
    }

    /// Copies the root of the balance tree into the account's state.
    pub open spec fn refresh_balance_root(self, a: int) -> Ledger {
        self.with_account(
            a,
            AccountState { balance_root: self.balance_root(a), ..self.accounts[a] },
        )
    }

    /// Copies the root of the order tree into the account's state.
    pub open spec fn refresh_order_root(self, a: int) -> Ledger {
        self.with_account(a, AccountState { order_root: self.order_root(a), ..self.accounts[a] })
    }

    /// Sets a balance and copies the new root of the balance tree into the account's state.
    pub open spec fn set_token_balance(self, a: int, t: int, balance: Fr) -> Ledger {
        self.with_balance_leaf(a, t, balance).refresh_balance_root(a)
    }

    /// The index of order positions after `order` has been written at `pos` of account `a`:
    /// the order that stood there is no longer found, the new one is.
    pub open spec fn index_after(self, a: int, pos: u32, order: Order) -> Map<(u32, u32), u32> {
        let cleared = if self.orders[a].contains_key(pos) {
            self.order_pos.remove((a as u32, self.orders[a][pos].order_id@ as u32))
        } else {
            self.order_pos
        };
        cleared.insert((a as u32, order.order_id@ as u32), pos)
    }

    /// Writes an order at a position of an account's order tree, and copies the new root of
    /// the order tree into the account's state.
    pub open spec fn set_account_order(self, a: int, pos: u32, order: Order) -> Ledger {
        (Ledger {
            orders: self.orders.update(a, self.orders[a].insert(pos, order)),
            order_pos: self.index_after(a, pos, order),
            ..self
        }).refresh_order_root(a)
    }

    /// Whether `order` may be written at `pos` of account `a`: the position and the id are in
    /// range, and the id is not that of an order at another position.
    pub open spec fn can_set_order(self, a: int, pos: u32, order: Order) -> bool {
        &&& 0 <= a < self.count()
        &&& pos < pow2(self.order_levels)
        &&& order.order_id@ <= u32::MAX
        &&& self.order_pos.contains_key((a as u32, order.order_id@ as u32)) ==> self.order_pos[(
            a as u32,
            order.order_id@ as u32,
        )] == pos
    }

    /// Writes the nonce of account `a`.
    pub open spec fn set_account_nonce(self, a: int, nonce: Fr) -> Ledger {
        self.with_account(a, AccountState { nonce, ..self.accounts[a] })
    }

    /// Writes the order root in the state of account `a`, whatever its order tree holds.
    pub open spec fn set_account_order_root(self, a: int, order_root: Fr) -> Ledger {
        self.with_account(a, AccountState { order_root, ..self.accounts[a] })
    }

    // ----- order slots -----
    /// Whether a slot can take a new order: it is empty, or its order is filled.
    pub open spec fn slot_free(self, a: int, pos: u32) -> bool {
        !self.orders[a].contains_key(pos) || self.orders[a][pos].is_filled_spec()
    }

    /// The slot at `offset` from where the search starts, the slots taken as a ring.
    pub open spec fn slot_at(self, a: int, offset: nat) -> u32 {
        ((self.next_order_idx[a] as nat + offset) % self.max_orders()) as u32
    }

    /// The first free slot at `offset` or later in the ring, if there is one before the ring
    /// closes.
    pub open spec fn scan_from(self, a: int, offset: nat) -> Option<u32>
        decreases self.max_orders() - offset,
    {
        if offset >= self.max_orders() {
            None
        } else if self.slot_free(a, self.slot_at(a, offset)) {
            Some(self.slot_at(a, offset))
        } else {
            self.scan_from(a, offset + 1)
        }
    }

    /// The slot that the next order of account `a` goes to, if one is free.
    pub open spec fn next_slot(self, a: int) -> Option<u32> {
        self.scan_from(a, 0)
    }

    /// Places the order at `pos` and moves the start of the search behind it.
    pub open spec fn create_order_at(self, tx: PlaceOrderTx, pos: u32) -> Ledger {
        let a = tx.account_id as int;
        let l = self.set_account_order(a, pos, placed_order(tx));
        Ledger {
            next_order_idx: l.next_order_idx.update(
                a,
                ((pos + 1) % (self.max_orders() as int)) as u32,
            ),
            ..l
        }
    }

    // ----- blocks -----
    /// Appends a witness, and forges a block when the buffer holds a full group.
    pub open spec fn push_tx(self, raw: RawTxView) -> Ledger {
        let txs = self.txs.push(raw);
        Ledger {
            txs,
            blocks: if txs.len() % self.n_tx == 0 {
                self.blocks.push(txs.subrange(txs.len() - self.n_tx, txs.len() as int))
            } else {
                self.blocks
            },
            ..self
        }
    }

    // ----- witnesses -----
    /// The proof of one balance: the leaf and its path in the balance tree, the path of the
    /// account in the account tree, and the roots.
    pub open spec fn state_proof(self, a: int, t: int) -> StateProofView {
        StateProofView {
            leaf: self.balances[a][t],
            root: self.root(),
            balance_root: self.balance_root(a),
            order_root: self.order_root(a),
            balance_path: path_of(self.balances[a], self.balance_levels, t),
            account_path: path_of(self.account_leaves(), self.account_levels, a),
        }
    }

    /// The path of the first leaf of an order tree of zeros.
    pub open spec fn trivial_order_path(self) -> Seq<Fr> {
        path_of(uniform_leaves(self.order_levels, fr_of(0)), self.order_levels, 0)
    }

    /// The path of slot `pos` in the order tree of account `a`.
    pub open spec fn order_path(self, a: int, pos: u32) -> Seq<Fr> {
        path_of(self.order_leaves(a), self.order_levels, pos as int)
    }

    // ----- deposit -----
    /// Whether a deposit can be applied: its account exists and its token has a leaf.
    pub open spec fn can_deposit(self, tx: DepositToOldTx) -> bool {
        self.has_slot(tx.account_id as int, tx.token_id as int)
    }

    /// The payload of a deposit: the token, the amount, the account, and the account's balance,
    /// nonce and identity before the deposit, each at its position; zeros elsewhere.
    pub open spec fn deposit_payload(self, tx: DepositToOldTx) -> Seq<Fr> {
        let acc = self.accounts[tx.account_id as int];
        zero_payload().update(tx_detail_idx::TOKEN_ID as int, fr_of_u32(tx.token_id)).update(
            tx_detail_idx::AMOUNT as int,
            tx.amount,
        ).update(tx_detail_idx::ACCOUNT_ID2 as int, fr_of_u32(tx.account_id)).update(
            tx_detail_idx::BALANCE2 as int,
            self.balances[tx.account_id as int][tx.token_id as int],
        ).update(tx_detail_idx::NONCE2 as int, acc.nonce).update(
            tx_detail_idx::ETH_ADDR2 as int,
            acc.eth_addr,
        ).update(tx_detail_idx::SIGN2 as int, acc.sign).update(tx_detail_idx::AY2 as int, acc.ay)
    }

    /// The ledger after the deposit's balance has been written, before its witness is
    /// appended.
    pub open spec fn deposit_applied(self, tx: DepositToOldTx) -> Ledger {
        let a = tx.account_id as int;
        let t = tx.token_id as int;
        self.set_token_balance(a, t, fr_add(self.balances[a][t], tx.amount))
    }

    /// The witness of a deposit: every path is taken before the balance is written.
    pub open spec fn deposit_witness(self, tx: DepositToOldTx) -> RawTxView {
        let proof = self.state_proof(tx.account_id as int, tx.token_id as int);
        let acc = self.accounts[tx.account_id as int];
        RawTxView {
            tx_type: TxType::DepositToOld,
            payload: self.deposit_payload(tx),
            balance_path0: proof.balance_path,
            balance_path1: proof.balance_path,
            balance_path2: proof.balance_path,
            balance_path3: proof.balance_path,
            order_path0: self.trivial_order_path(),
            order_path1: self.trivial_order_path(),
            order_root0: acc.order_root,
            order_root1: acc.order_root,
            account_path0: proof.account_path,
            account_path1: proof.account_path,
            root_before: proof.root,
            root_after: self.deposit_applied(tx).root(),
        }
    }

    /// The ledger after a deposit.
    pub open spec fn deposit_to_old(self, tx: DepositToOldTx) -> Ledger {
        self.deposit_applied(tx).push_tx(self.deposit_witness(tx))
    }

    // ----- place order -----
    /// Whether an order can be placed: its account exists, the token it sells has a leaf, a
    /// slot is free, and its id is not that of an order in another slot.
    pub open spec fn can_place_order(self, tx: PlaceOrderTx) -> bool {
        &&& self.has_slot(tx.account_id as int, tx.token_id_sell as int)
        &&& self.next_slot(tx.account_id as int) is Some
        &&& self.can_set_order(
            tx.account_id as int,
            self.next_slot(tx.account_id as int).unwrap(),
            placed_order(tx),
        )
    }

    /// The order that stands in a slot, or the order of zeros where the slot is empty.
    pub open spec fn order_or_zero(self, a: int, pos: u32) -> Order {
        if self.orders[a].contains_key(pos) {
            self.orders[a][pos]
        } else {
            Order::zero_spec()
        }
    }

    /// What the payload of a placed order is encoded from: the slot, the order that stood in
    /// it, the new order, and the account's balance of the token sold, its nonce and its
    /// identity.
    pub open spec fn place_order_data(self, tx: PlaceOrderTx, pos: u32) -> PlaceOrderTxData {
        let a = tx.account_id as int;
        let account = self.accounts[a];
        let old_order = self.order_or_zero(a, pos);
        PlaceOrderTxData {
            order_pos: fr_of_u32(pos),
            old_order_id: old_order.order_id,
            new_order_id: fr_of_u32(tx.order_id),
            old_order_tokensell: old_order.tokensell,
            old_order_filledsell: old_order.filled_sell,
            old_order_amountsell: old_order.total_sell,
            old_order_tokenbuy: old_order.tokenbuy,
            old_order_filledbuy: old_order.filled_buy,
            old_order_amountbuy: old_order.total_buy,
            new_order_tokensell: fr_of_u32(tx.token_id_sell),
            new_order_amountsell: tx.amount_sell,
            new_order_tokenbuy: fr_of_u32(tx.token_id_buy),
            new_order_amountbuy: tx.amount_buy,
            account_id: fr_of_u32(tx.account_id),
            balance: self.balances[a][tx.token_id_sell as int],
            nonce: account.nonce,
            sign: account.sign,
            ay: account.ay,
            eth_addr: account.eth_addr,
        }
    }

    /// The ledger after the order has been placed, before its witness is appended.
    pub open spec fn place_order_applied(self, tx: PlaceOrderTx) -> Ledger {
        self.create_order_at(tx, self.next_slot(tx.account_id as int).unwrap())
    }

    /// The witness of a placed order. The balance and account paths are taken before the
    /// order is written. The one order path is that of the slot after the order is written: it
    /// is also the slot's path before, since a path does not depend on its own leaf.
    pub open spec fn place_order_witness(self, tx: PlaceOrderTx) -> RawTxView {
        let a = tx.account_id as int;
        let pos = self.next_slot(a).unwrap();
        let proof = self.state_proof(a, tx.token_id_sell as int);
        let after = self.place_order_applied(tx);
        RawTxView {
            tx_type: TxType::PlaceOrder,
            payload: self.place_order_data(tx, pos).encode_spec(),
            balance_path0: proof.balance_path,
            balance_path1: proof.balance_path,
            balance_path2: proof.balance_path,
            balance_path3: proof.balance_path,
            order_path0: after.order_path(a, pos),
            order_path1: self.trivial_order_path(),
            order_root0: self.accounts[a].order_root,
            order_root1: after.order_root(a),
            account_path0: proof.account_path,
            account_path1: proof.account_path,
            root_before: self.root(),
            root_after: after.root(),
        }
    }

    /// The ledger after an order has been placed.
    pub open spec fn place_order(self, tx: PlaceOrderTx) -> Ledger {
        self.place_order_applied(tx).push_tx(self.place_order_witness(tx))
    }

    // ----- spot trade -----
    /// Whether a trade can be applied: both order ids are below the number of order slots, both
    /// accounts exist, both tokens have leaves, both orders are recorded, and each seller holds
    /// more than it sends. A seller that holds exactly what it sends cannot trade.
    pub open spec fn can_spot_trade(self, tx: SpotTradeTx) -> bool {
        let a1 = tx.order1_account_id as int;
        let a2 = tx.order2_account_id as int;
        &&& tx.order1_id < pow2(self.order_levels)
        &&& tx.order2_id < pow2(self.order_levels)
        &&& self.has_slot(a1, tx.token_id_1to2 as int)
        &&& self.has_slot(a1, tx.token_id_2to1 as int)
        &&& self.has_slot(a2, tx.token_id_1to2 as int)
        &&& self.has_slot(a2, tx.token_id_2to1 as int)
        &&& self.order_pos.contains_key((tx.order1_account_id, tx.order1_id))
        &&& self.order_pos.contains_key((tx.order2_account_id, tx.order2_id))
        &&& self.balances[a1][tx.token_id_1to2 as int]@ > tx.amount_1to2@
        &&& self.balances[a2][tx.token_id_2to1 as int]@ > tx.amount_2to1@
    }

    /// The position of the maker's order.
    pub open spec fn trade_pos1(self, tx: SpotTradeTx) -> u32 {
        self.order_pos[(tx.order1_account_id, tx.order1_id)]
    }

    /// The position of the taker's order.
    pub open spec fn trade_pos2(self, tx: SpotTradeTx) -> u32 {
        self.order_pos[(tx.order2_account_id, tx.order2_id)]
    }

    /// The maker's order before the trade.
    pub open spec fn trade_order1(self, tx: SpotTradeTx) -> Order {
        self.orders[tx.order1_account_id as int][self.trade_pos1(tx)]
    }

    /// The taker's order before the trade.
    pub open spec fn trade_order2(self, tx: SpotTradeTx) -> Order {
        self.orders[tx.order2_account_id as int][self.trade_pos2(tx)]
    }

    /// After the maker has sent: its balance of the token it sells is reduced in the balance
    /// tree; its account state is not yet touched.
    pub open spec fn trade_step1(self, tx: SpotTradeTx) -> Ledger {
        let a1 = tx.order1_account_id as int;
        let t = tx.token_id_1to2 as int;
        self.with_balance_leaf(a1, t, fr_sub(self.balances[a1][t], tx.amount_1to2))
    }

    /// After the taker has sent as well. What it sends is taken from its balance before the
    /// trade.
    pub open spec fn trade_step2(self, tx: SpotTradeTx) -> Ledger {
        let a2 = tx.order2_account_id as int;
        let t = tx.token_id_2to1 as int;
        self.trade_step1(tx).with_balance_leaf(a2, t, fr_sub(self.balances[a2][t], tx.amount_2to1))
    }

    /// After the maker's order has been updated.
    pub open spec fn trade_step3(self, tx: SpotTradeTx) -> Ledger {
        self.trade_step2(tx).set_account_order(
            tx.order1_account_id as int,
            self.trade_pos1(tx),
            traded_order(
                self.trade_order1(tx),
                tx.token_id_1to2,
                tx.token_id_2to1,
                tx.amount_1to2,
                tx.amount_2to1,
            ),
        )
    }

    /// After the maker has received. What it receives is added to its balance before the
    /// trade.
    pub open spec fn trade_step4(self, tx: SpotTradeTx) -> Ledger {
        let a1 = tx.order1_account_id as int;
        let t = tx.token_id_2to1 as int;
        self.trade_step3(tx).set_token_balance(a1, t, fr_add(self.balances[a1][t], tx.amount_2to1))
    }

    /// After the taker's order has been updated.
    pub open spec fn trade_step5(self, tx: SpotTradeTx) -> Ledger {
        self.trade_step4(tx).set_account_order(
            tx.order2_account_id as int,
            self.trade_pos2(tx),
            traded_order(
                self.trade_order2(tx),
                tx.token_id_2to1,
                tx.token_id_1to2,
                tx.amount_2to1,
                tx.amount_1to2,
            ),
        )
    }

    /// After the taker has received: the ledger after the trade, before its witness is
    /// appended.
    pub open spec fn spot_trade_applied(self, tx: SpotTradeTx) -> Ledger {
        let a2 = tx.order2_account_id as int;
        let t = tx.token_id_1to2 as int;
        self.trade_step5(tx).set_token_balance(a2, t, fr_add(self.balances[a2][t], tx.amount_1to2))
    }

    /// The payload of a trade: the two accounts with their identities and nonces, the two
    /// tokens and amounts, the four balances before the trade, and the two orders with their
    /// slots, each at its position; zeros elsewhere, also where a signature would stand.
    pub open spec fn spot_trade_payload(self, tx: SpotTradeTx) -> Seq<Fr> {
        let a1 = tx.order1_account_id as int;
        let a2 = tx.order2_account_id as int;
        let account1 = self.accounts[a1];
        let account2 = self.accounts[a2];
        let order1 = self.trade_order1(tx);
        let order2 = self.trade_order2(tx);
        zero_payload().update(tx_detail_idx::ACCOUNT_ID1 as int, fr_of_u32(tx.order1_account_id)).update(
            tx_detail_idx::ACCOUNT_ID2 as int,
            fr_of_u32(tx.order2_account_id),
        ).update(tx_detail_idx::ETH_ADDR1 as int, account1.eth_addr).update(
            tx_detail_idx::ETH_ADDR2 as int,
            account2.eth_addr,
        ).update(tx_detail_idx::SIGN1 as int, account1.sign).update(
            tx_detail_idx::SIGN2 as int,
            account2.sign,
        ).update(tx_detail_idx::AY1 as int, account1.ay).update(
            tx_detail_idx::AY2 as int,
            account2.ay,
        ).update(tx_detail_idx::NONCE1 as int, account1.nonce).update(
            tx_detail_idx::NONCE2 as int,
            account2.nonce,
        ).update(tx_detail_idx::TOKEN_ID as int, fr_of_u32(tx.token_id_1to2)).update(
            tx_detail_idx::AMOUNT as int,
            tx.amount_1to2,
        ).update(tx_detail_idx::BALANCE1 as int, self.balances[a1][tx.token_id_1to2 as int]).update(
            tx_detail_idx::BALANCE2 as int,
            self.balances[a2][tx.token_id_1to2 as int],
        ).update(tx_detail_idx::BALANCE3 as int, self.balances[a2][tx.token_id_2to1 as int]).update(
            tx_detail_idx::BALANCE4 as int,
            self.balances[a1][tx.token_id_2to1 as int],
        ).update(tx_detail_idx::TOKEN_ID2 as int, fr_of_u32(tx.token_id_2to1)).update(
            tx_detail_idx::AMOUNT2 as int,
            tx.amount_2to1,
        ).update(tx_detail_idx::TOKEN_ID3 as int, fr_of_u32(self.trade_pos1(tx))).update(
            tx_detail_idx::ORDER1_ID as int,
            fr_of_u32(tx.order1_id),
        ).update(tx_detail_idx::ORDER1_AMOUNT_SELL as int, order1.total_sell).update(
            tx_detail_idx::ORDER1_AMOUNT_BUY as int,
            order1.total_buy,
        ).update(tx_detail_idx::ORDER1_FILLED_SELL as int, order1.filled_sell).update(
            tx_detail_idx::ORDER1_FILLED_BUY as int,
            order1.filled_buy,
        ).update(tx_detail_idx::TOKEN_ID4 as int, fr_of_u32(self.trade_pos2(tx))).update(
            tx_detail_idx::ORDER2_ID as int,
            fr_of_u32(tx.order2_id),
        ).update(tx_detail_idx::ORDER2_AMOUNT_SELL as int, order2.total_sell).update(
            tx_detail_idx::ORDER2_AMOUNT_BUY as int,
            order2.total_buy,
        ).update(tx_detail_idx::ORDER2_FILLED_SELL as int, order2.filled_sell).update(
            tx_detail_idx::ORDER2_FILLED_BUY as int,
            order2.filled_buy,
        )
    }

    /// The witness of a trade. Each path is taken at its own moment:
    /// the sellers' balance paths, the order paths and the maker's account path before anything
    /// is written; the maker's path of the token it buys after the maker has sent; the taker's
    /// path of the token it buys after the taker has sent; the taker's account path after the
    /// maker is done and the taker has only sent.
    pub open spec fn spot_trade_witness(self, tx: SpotTradeTx) -> RawTxView {
        let a1 = tx.order1_account_id as int;
        let a2 = tx.order2_account_id as int;
        let proof1 = self.state_proof(a1, tx.token_id_1to2 as int);
        let proof2 = self.state_proof(a2, tx.token_id_2to1 as int);
        RawTxView {
            tx_type: TxType::SpotTrade,
            payload: self.spot_trade_payload(tx),
            balance_path0: proof1.balance_path,
            balance_path1: path_of(
                self.trade_step2(tx).balances[a2],
                self.balance_levels,
                tx.token_id_1to2 as int,
            ),
            balance_path2: proof2.balance_path,
            balance_path3: path_of(
                self.trade_step1(tx).balances[a1],
                self.balance_levels,
                tx.token_id_2to1 as int,
            ),
            order_path0: self.order_path(a1, self.trade_pos1(tx)),
            order_path1: self.order_path(a2, self.trade_pos2(tx)),
            order_root0: self.accounts[a1].order_root,
            order_root1: self.accounts[a2].order_root,
            account_path0: proof1.account_path,
            account_path1: path_of(
                self.trade_step4(tx).account_leaves(),
                self.account_levels,
                a2,
            ),
            root_before: self.root(),
            root_after: self.spot_trade_applied(tx).root(),
        }
    }

    /// The ledger after a trade.
    pub open spec fn spot_trade(self, tx: SpotTradeTx) -> Ledger {
        self.spot_trade_applied(tx).push_tx(self.spot_trade_witness(tx))
    }

    // ----- nop -----
    /// The witness of a transaction that changes nothing.
    pub open spec fn nop_witness(self) -> RawTxView {
        let proof = self.state_proof(0, 0);
        RawTxView {
            tx_type: TxType::Nop,
            payload: zero_payload(),
            balance_path0: proof.balance_path,
            balance_path1: proof.balance_path,
            balance_path2: proof.balance_path,
            balance_path3: proof.balance_path,
            order_path0: self.trivial_order_path(),
            order_path1: self.trivial_order_path(),
            order_root0: proof.order_root,
            order_root1: proof.order_root,
            account_path0: proof.account_path,
            account_path1: proof.account_path,
            root_before: self.root(),
            root_after: self.root(),
        }
    }

    /// The ledger after a transaction that changes nothing.
    pub open spec fn nop(self) -> Ledger {
        self.push_tx(self.nop_witness())
    }

    /// The number of transactions missing to the next full block.
    pub open spec fn missing(self) -> nat {
        ((self.n_tx - self.txs.len() % self.n_tx) % (self.n_tx as int)) as nat
    }

    /// The ledger after `k` transactions that change nothing.
    pub open spec fn nops(self, k: nat) -> Ledger
        decreases k,
    {
        if k == 0 {
            self
        } else {
            self.nop().nops((k - 1) as nat)
        }
    }

    /// The ledger after the buffer has been filled up to a full block.
    pub open spec fn flush_with_nop(self) -> Ledger {
        self.nops(self.missing())
    }
}

/// A block is added exactly when the buffer reaches a full group.
pub proof fn lemma_push_tx(l: Ledger, raw: RawTxView)
    requires
        l.wf_base(),
    ensures
        l.push_tx(raw).wf_base(),
        l.wf() ==> l.push_tx(raw).wf(),
{
    let n = l.n_tx as int;
    let b = l.blocks.len() as int;
    let t = l.txs.len() as int;
    let txs = l.txs.push(raw);
    let after = l.push_tx(raw);
    assert((b + 1) * n == b * n + n) by (nonlinear_arith);
    assert((b + 2) * n == b * n + 2 * n) by (nonlinear_arith);
    if (t + 1) % n == 0 {
        assert(t + 1 == (b + 1) * n) by {
            let q = (t + 1) / n;
            vstd::arithmetic::div_mod::lemma_fundamental_div_mod(t + 1, n);
            assert(t + 1 == n * q);
            assert((b + 1) * n == n * (b + 1)) by (nonlinear_arith);
            assert(q == b + 1) by (nonlinear_arith)
                requires
                    t + 1 == n * q,
                    b * n < t + 1,
                    t + 1 <= b * n + n,
                    n > 0,
            ;
        }
        assert forall|k: int| 0 <= k < after.blocks.len() implies #[trigger] after.blocks[k]
            == after.txs.subrange(k * n, (k + 1) * n) by {
            if k < b {
                assert((k + 1) * n <= b * n) by (nonlinear_arith)
                    requires
                        k + 1 <= b,
                        n > 0,
                ;
                assert(0 <= k * n) by (nonlinear_arith)
                    requires
                        0 <= k,
                        n > 0,
                ;
                assert(k * n <= (k + 1) * n) by (nonlinear_arith)
                    requires
                        n > 0,
                ;
                assert(l.txs.subrange(k * n, (k + 1) * n) =~= txs.subrange(k * n, (k + 1) * n));
            }
        }
    } else {
        assert(t + 1 != (b + 1) * n) by {
            if t + 1 == (b + 1) * n {
                vstd::arithmetic::div_mod::lemma_mod_multiples_basic(b + 1, n);
            }
        }
        assert forall|k: int| 0 <= k < after.blocks.len() implies #[trigger] after.blocks[k]
            == after.txs.subrange(k * n, (k + 1) * n) by {
            assert((k + 1) * n <= b * n) by (nonlinear_arith)
                requires
                    k + 1 <= b,
                    n > 0,
            ;
            assert(0 <= k * n) by (nonlinear_arith)
                requires
                    0 <= k,
                    n > 0,
            ;
            assert(k * n <= (k + 1) * n) by (nonlinear_arith)
                requires
                    n > 0,
            ;
            assert(l.txs.subrange(k * n, (k + 1) * n) =~= txs.subrange(k * n, (k + 1) * n));
        }
    }
    if l.wf() {
        assert forall|a: int| 0 <= a < after.count() implies #[trigger] after.balance_root_ok(a) by {
            assert(l.balance_root_ok(a));
        }
        assert forall|a: int| 0 <= a < after.count() implies #[trigger] after.order_root_ok(a) by {
            assert(l.order_root_ok(a));
        }
    }
}

/// A new account keeps the invariants: its state holds the roots of its empty trees.
pub proof fn lemma_create_new_account(l: Ledger, next_order_id: u32)
    requires
        l.wf_base(),
        l.count() < pow2(l.account_levels),
    ensures
        l.create_new_account(next_order_id).wf_base(),
        l.wf() ==> l.create_new_account(next_order_id).wf(),
{
    let after = l.create_new_account(next_order_id);
    let n = l.count() as int;
    lemma_pow2_fits(l.account_levels);
    assert forall|a: int| 0 <= a < after.balances.len() implies (#[trigger] after.balances[a]).len()
        == pow2(after.balance_levels) by {
        if a < n {
            assert(after.balances[a] == l.balances[a]);
        }
    }
    assert forall|a: int, p: u32|
        0 <= a < after.orders.len() && #[trigger] after.orders[a].contains_key(p) implies {
        &&& p < pow2(after.order_levels)
        &&& after.orders[a][p].order_id@ <= u32::MAX
        &&& after.order_pos.contains_key((a as u32, after.orders[a][p].order_id@ as u32))
        &&& after.order_pos[(a as u32, after.orders[a][p].order_id@ as u32)] == p
    } by {
        assert(a < n);
        assert(after.orders[a] == l.orders[a]);
    }
    assert forall|k: (u32, u32)| #[trigger] after.order_pos.contains_key(k) implies {
        &&& k.0 < after.orders.len()
        &&& after.orders[k.0 as int].contains_key(after.order_pos[k])
        &&& after.orders[k.0 as int][after.order_pos[k]].order_id@ == k.1
    } by {
        assert(l.order_pos.contains_key(k));
        assert(after.orders[k.0 as int] == l.orders[k.0 as int]);
    }
    if l.wf() {
        assert forall|a: int| 0 <= a < after.count() implies #[trigger] after.balance_root_ok(a) by {
            if a < n {
                assert(l.balance_root_ok(a));
                assert(after.balances[a] == l.balances[a]);
                assert(after.accounts[a] == l.accounts[a]);
            } else {
                vstd::arithmetic::power2::lemma_pow2_pos(0);
                lemma_uniform_nodes(l.balance_levels, fr_of(0), l.balance_levels, 0);
            }
        }
        assert forall|a: int| 0 <= a < after.count() implies #[trigger] after.order_root_ok(a) by {
            if a < n {
                assert(l.order_root_ok(a));
                assert(after.orders[a] == l.orders[a]);
                assert(after.accounts[a] == l.accounts[a]);
            } else {
                vstd::arithmetic::power2::lemma_pow2_pos(0);
                lemma_uniform_nodes(l.order_levels, default_order_leaf(), l.order_levels, 0);
                assert(after.order_leaves(a) =~= uniform_leaves(l.order_levels, default_order_leaf()));
            }
        }
    }
}

/// Writing an account's state keeps the invariants of every step, and those between
/// transactions where the two roots stay as they are.
pub proof fn lemma_with_account(l: Ledger, a: int, state: AccountState)
    requires
        l.wf_base(),
        0 <= a < l.count(),
    ensures
        l.with_account(a, state).wf_base(),
        l.wf() && state.balance_root == l.accounts[a].balance_root && state.order_root
            == l.accounts[a].order_root ==> l.with_account(a, state).wf(),
{
    let after = l.with_account(a, state);
    if l.wf() && state.balance_root == l.accounts[a].balance_root && state.order_root
        == l.accounts[a].order_root {
        assert forall|b: int| 0 <= b < after.count() implies #[trigger] after.balance_root_ok(b) by {
            assert(l.balance_root_ok(b));
        }
        assert forall|b: int| 0 <= b < after.count() implies #[trigger] after.order_root_ok(b) by {
            assert(l.order_root_ok(b));
        }
    }
}

/// Writing a balance leaf keeps the invariants of every step.
pub proof fn lemma_with_balance_leaf(l: Ledger, a: int, t: int, balance: Fr)
    requires
        l.wf_base(),
        l.has_slot(a, t),
    ensures
        l.with_balance_leaf(a, t, balance).wf_base(),
        forall|b: int|
            0 <= b < l.count() && b != a && l.balance_root_ok(b) ==> #[trigger] l.with_balance_leaf(
                a,
                t,
                balance,
            ).balance_root_ok(b),
        forall|b: int|
            0 <= b < l.count() && l.order_root_ok(b) ==> #[trigger] l.with_balance_leaf(
                a,
                t,
                balance,
            ).order_root_ok(b),
{
    let after = l.with_balance_leaf(a, t, balance);
    assert forall|b: int| 0 <= b < after.balances.len() implies (#[trigger] after.balances[b]).len()
        == pow2(after.balance_levels) by {
        assert(l.balances[b].len() == pow2(l.balance_levels));
    }
    assert forall|b: int|
        0 <= b < l.count() && b != a && l.balance_root_ok(
            b,
        ) implies #[trigger] after.balance_root_ok(b) by {
        assert(after.balances[b] == l.balances[b]);
    }
    assert forall|b: int|
        0 <= b < l.count() && l.order_root_ok(b) implies #[trigger] after.order_root_ok(b) by {
        assert(after.orders[b] == l.orders[b]);
    }
}

/// Setting a balance keeps the invariants of every step, makes the account's balance root
/// right, and keeps every other root as right as it was.
pub proof fn lemma_set_token_balance(l: Ledger, a: int, t: int, balance: Fr)
    requires
        l.wf_base(),
        l.has_slot(a, t),
    ensures
        l.set_token_balance(a, t, balance).wf_base(),
        l.set_token_balance(a, t, balance).balance_root_ok(a),
        forall|b: int|
            0 <= b < l.count() && b != a && l.balance_root_ok(b) ==> #[trigger] l.set_token_balance(
                a,
                t,
                balance,
            ).balance_root_ok(b),
        forall|b: int|
            0 <= b < l.count() && l.order_root_ok(b) ==> #[trigger] l.set_token_balance(
                a,
                t,
                balance,
            ).order_root_ok(b),
        l.wf() ==> l.set_token_balance(a, t, balance).wf(),
{
    let mid = l.with_balance_leaf(a, t, balance);
    lemma_with_balance_leaf(l, a, t, balance);
    let after = l.set_token_balance(a, t, balance);
    lemma_with_account(mid, a, AccountState { balance_root: mid.balance_root(a), ..mid.accounts[a] });
    assert(after.balances[a] == mid.balances[a]);
    assert forall|b: int|
        0 <= b < l.count() && b != a && l.balance_root_ok(
            b,
        ) implies #[trigger] after.balance_root_ok(b) by {
        assert(after.balances[b] == l.balances[b]);
    }
    assert forall|b: int|
        0 <= b < l.count() && l.order_root_ok(b) implies #[trigger] after.order_root_ok(b) by {
        assert(after.orders[b] == l.orders[b]);
    }
    if l.wf() {
        assert forall|b: int| 0 <= b < after.count() implies #[trigger] after.balance_root_ok(b) by {
            assert(l.balance_root_ok(b));
        }
        assert forall|b: int| 0 <= b < after.count() implies #[trigger] after.order_root_ok(b) by {
            assert(l.order_root_ok(b));
        }
    }
}

/// Writing an order keeps the invariants of every step, makes the account's order root right,
/// and keeps every other root as right as it was.
pub proof fn lemma_set_account_order(l: Ledger, a: int, pos: u32, order: Order)
    requires
        l.wf_base(),
        l.can_set_order(a, pos, order),
    ensures
        l.set_account_order(a, pos, order).wf_base(),
        l.set_account_order(a, pos, order).order_root_ok(a),
        forall|b: int|
            0 <= b < l.count() && b != a && l.order_root_ok(b) ==> #[trigger] l.set_account_order(
                a,
                pos,
                order,
            ).order_root_ok(b),
        forall|b: int|
            0 <= b < l.count() && l.balance_root_ok(b) ==> #[trigger] l.set_account_order(
                a,
                pos,
                order,
            ).balance_root_ok(b),
        l.wf() ==> l.set_account_order(a, pos, order).wf(),
{
    let mid = Ledger {
        orders: l.orders.update(a, l.orders[a].insert(pos, order)),
        order_pos: l.index_after(a, pos, order),
        ..l
    };
    let after = l.set_account_order(a, pos, order);
    let id = order.order_id@ as u32;
    lemma_pow2_fits(l.account_levels);
    assert(after.orders == mid.orders);
    assert(after.order_pos == mid.order_pos);
    assert forall|b: int, p: u32|
        0 <= b < mid.orders.len() && #[trigger] mid.orders[b].contains_key(p) implies {
        &&& p < pow2(mid.order_levels)
        &&& mid.orders[b][p].order_id@ <= u32::MAX
        &&& mid.order_pos.contains_key((b as u32, mid.orders[b][p].order_id@ as u32))
        &&& mid.order_pos[(b as u32, mid.orders[b][p].order_id@ as u32)] == p
    } by {
        if b == a && p == pos {
        } else {
            assert(l.orders[b].contains_key(p));
            let k = (b as u32, l.orders[b][p].order_id@ as u32);
            assert(l.order_pos.contains_key(k));
            if l.orders[a].contains_key(pos) {
                let gone = (a as u32, l.orders[a][pos].order_id@ as u32);
                assert(l.order_pos[gone] == pos);
                assert(k != gone);
            }
            assert(k != (a as u32, id));
        }
    }
    assert forall|k: (u32, u32)| #[trigger] mid.order_pos.contains_key(k) implies {
        &&& k.0 < mid.orders.len()
        &&& mid.orders[k.0 as int].contains_key(mid.order_pos[k])
        &&& mid.orders[k.0 as int][mid.order_pos[k]].order_id@ == k.1
    } by {
        if k == (a as u32, id) {
        } else {
            assert(l.order_pos.contains_key(k));
            if k.0 == a {
                if l.order_pos[k] == pos {
                    assert(l.orders[a].contains_key(pos));
                    assert(l.orders[a][pos].order_id@ == k.1);
                    assert(false);
                }
            }
        }
    }
    assert(mid.wf_base());
    lemma_with_account(mid, a, AccountState { order_root: mid.order_root(a), ..mid.accounts[a] });
    assert(after.orders[a] == mid.orders[a]);
    assert forall|b: int|
        0 <= b < l.count() && b != a && l.order_root_ok(
            b,
        ) implies #[trigger] after.order_root_ok(b) by {
        assert(after.orders[b] == l.orders[b]);
    }
    assert forall|b: int|
        0 <= b < l.count() && l.balance_root_ok(b) implies #[trigger] after.balance_root_ok(
            b,
        ) by {
        assert(after.balances[b] == l.balances[b]);
    }
    if l.wf() {
        assert forall|b: int| 0 <= b < after.count() implies #[trigger] after.balance_root_ok(b) by {
            assert(l.balance_root_ok(b));
        }
        assert forall|b: int| 0 <= b < after.count() implies #[trigger] after.order_root_ok(b) by {
            assert(l.order_root_ok(b));
        }
    }
}


/// Placing an order keeps the invariants.
pub proof fn lemma_create_order_at(l: Ledger, tx: PlaceOrderTx, pos: u32)
    requires
        l.wf_base(),
        l.can_set_order(tx.account_id as int, pos, placed_order(tx)),
    ensures
        l.create_order_at(tx, pos).wf_base(),
        l.wf() ==> l.create_order_at(tx, pos).wf(),
{
    let a = tx.account_id as int;
    let mid = l.set_account_order(a, pos, placed_order(tx));
    let after = l.create_order_at(tx, pos);
    lemma_set_account_order(l, a, pos, placed_order(tx));
    if l.wf() {
        assert forall|b: int| 0 <= b < after.count() implies #[trigger] after.balance_root_ok(b) by {
            assert(mid.balance_root_ok(b));
        }
        assert forall|b: int| 0 <= b < after.count() implies #[trigger] after.order_root_ok(b) by {
            assert(mid.order_root_ok(b));
        }
    }
}

/// A full buffer needs no padding.
pub proof fn lemma_flush_aligned(l: Ledger)
    requires
        l.n_tx > 0,
        l.txs.len() % l.n_tx == 0,
    ensures
        l.missing() == 0,
        l.flush_with_nop() == l,
{
    let n = l.n_tx as int;
    vstd::arithmetic::div_mod::lemma_mod_self_0(n);
}

/// One more transaction brings the buffer one step closer to a full block.
pub proof fn lemma_flush_step(l: Ledger)
    requires
        l.n_tx > 0,
        l.txs.len() % l.n_tx != 0,
    ensures
        l.missing() >= 1,
        l.nop().missing() == l.missing() - 1,
        l.nop().flush_with_nop() == l.flush_with_nop(),
{
    let n = l.n_tx as int;
    let len = l.txs.len() as int;
    let r = len % n;
    let q = len / n;
    vstd::arithmetic::div_mod::lemma_fundamental_div_mod(len, n);
    vstd::arithmetic::div_mod::lemma_mod_bound(len, n);
    vstd::arithmetic::div_mod::lemma_small_mod((n - r) as nat, n as nat);
    assert(l.missing() == n - r);
    assert(l.nop().txs.len() == len + 1);
    if r + 1 < n {
        assert(len + 1 == q * n + (r + 1)) by (nonlinear_arith)
            requires
                len == n * q + r,
        ;
        vstd::arithmetic::div_mod::lemma_fundamental_div_mod_converse(len + 1, n, q, r + 1);
        vstd::arithmetic::div_mod::lemma_small_mod((n - r - 1) as nat, n as nat);
    } else {
        assert(len + 1 == (q + 1) * n + 0) by (nonlinear_arith)
            requires
                len == n * q + r,
                r + 1 == n,
        ;
        vstd::arithmetic::div_mod::lemma_fundamental_div_mod_converse(len + 1, n, q + 1, 0);
        vstd::arithmetic::div_mod::lemma_mod_self_0(n);
    }
    assert(l.nop().missing() == n - r - 1);
    assert(l.nops(l.missing()) == l.nop().nops((l.missing() - 1) as nat));
}

/// After the buffer has been filled up, it holds full blocks only: its length is a multiple
/// of the block size.
pub proof fn lemma_flush_aligns(l: Ledger)
    requires
        l.n_tx > 0,
    ensures
        l.flush_with_nop().txs.len() % l.n_tx == 0,
        l.flush_with_nop().n_tx == l.n_tx,
    decreases l.missing(),
{
    if l.txs.len() % l.n_tx == 0 {
        lemma_flush_aligned(l);
    } else {
        lemma_flush_step(l);
        lemma_flush_aligns(l.nop());
    }
}

/// Filling up adds the missing transactions and no more.
pub proof fn lemma_flush_length(l: Ledger)
    requires
        l.n_tx > 0,
    ensures
        l.flush_with_nop().txs.len() == l.txs.len() + l.missing(),
        0 < l.txs.len() <= l.n_tx ==> l.flush_with_nop().txs.len() == l.n_tx,
    decreases l.missing(),
{
    let n = l.n_tx as int;
    let len = l.txs.len() as int;
    if l.txs.len() % l.n_tx == 0 {
        lemma_flush_aligned(l);
        if 0 < len <= n {
            if len < n {
                vstd::arithmetic::div_mod::lemma_small_mod(len as nat, n as nat);
            }
        }
    } else {
        lemma_flush_step(l);
        lemma_flush_length(l.nop());
        if 0 < len <= n {
            if len == n {
                vstd::arithmetic::div_mod::lemma_mod_self_0(n);
            } else {
                vstd::arithmetic::div_mod::lemma_small_mod(len as nat, n as nat);
                vstd::arithmetic::div_mod::lemma_small_mod((n - len) as nat, n as nat);
            }
        }
    }
}

/// A placed order keeps the invariants.
pub proof fn lemma_place_order(l: Ledger, tx: PlaceOrderTx)
    requires
        l.wf(),
        l.can_place_order(tx),
    ensures
        l.place_order_applied(tx).wf(),
        l.place_order(tx).wf(),
{
    let pos = l.next_slot(tx.account_id as int).unwrap();
    lemma_create_order_at(l, tx, pos);
    lemma_push_tx(l.place_order_applied(tx), l.place_order_witness(tx));
}

/// A deposit keeps the invariants.
pub proof fn lemma_deposit(l: Ledger, tx: DepositToOldTx)
    requires
        l.wf(),
        l.can_deposit(tx),
    ensures
        l.deposit_applied(tx).wf(),
        l.deposit_to_old(tx).wf(),
{
    let a = tx.account_id as int;
    let t = tx.token_id as int;
    lemma_set_token_balance(l, a, t, fr_add(l.balances[a][t], tx.amount));
    lemma_push_tx(l.deposit_applied(tx), l.deposit_witness(tx));
}

/// The steps of a trade can be taken one after the other, each keeps the invariants of every
/// step, and the last restores those that hold between transactions.
pub proof fn lemma_spot_trade(l: Ledger, tx: SpotTradeTx)
    requires
        l.wf(),
        l.can_spot_trade(tx),
    ensures
        l.orders[tx.order1_account_id as int].contains_key(l.trade_pos1(tx)),
        l.orders[tx.order2_account_id as int].contains_key(l.trade_pos2(tx)),
        l.trade_pos1(tx) < pow2(l.order_levels),
        l.trade_pos2(tx) < pow2(l.order_levels),
        l.trade_order1(tx).order_id == fr_of_u32(tx.order1_id),
        l.trade_order2(tx).order_id == fr_of_u32(tx.order2_id),
        l.trade_step1(tx).wf_base(),
        l.trade_step1(tx).count() == l.count(),
        l.trade_step1(tx).balance_levels == l.balance_levels,
        l.trade_step2(tx).wf_base(),
        l.trade_step2(tx).count() == l.count(),
        l.trade_step2(tx).balance_levels == l.balance_levels,
        l.trade_step2(tx).order_levels == l.order_levels,
        l.trade_step2(tx).can_set_order(
            tx.order1_account_id as int,
            l.trade_pos1(tx),
            traded_order(
                l.trade_order1(tx),
                tx.token_id_1to2,
                tx.token_id_2to1,
                tx.amount_1to2,
                tx.amount_2to1,
            ),
        ),
        l.trade_step3(tx).wf_base(),
        l.trade_step3(tx).has_slot(tx.order1_account_id as int, tx.token_id_2to1 as int),
        l.trade_step4(tx).wf_base(),
        l.trade_step4(tx).count() == l.count(),
        l.trade_step4(tx).account_levels == l.account_levels,
        l.trade_step4(tx).can_set_order(
            tx.order2_account_id as int,
            l.trade_pos2(tx),
            traded_order(
                l.trade_order2(tx),
                tx.token_id_2to1,
                tx.token_id_1to2,
                tx.amount_2to1,
                tx.amount_1to2,
            ),
        ),
        l.trade_step5(tx).wf_base(),
        l.trade_step5(tx).has_slot(tx.order2_account_id as int, tx.token_id_1to2 as int),
        l.spot_trade_applied(tx).wf(),
        l.spot_trade(tx).wf(),
{
    let a1 = tx.order1_account_id as int;
    let a2 = tx.order2_account_id as int;
    let t12 = tx.token_id_1to2 as int;
    let t21 = tx.token_id_2to1 as int;
    let k1 = (tx.order1_account_id, tx.order1_id);
    let k2 = (tx.order2_account_id, tx.order2_id);
    let pos1 = l.trade_pos1(tx);
    let pos2 = l.trade_pos2(tx);
    let order1 = l.trade_order1(tx);
    let order2 = l.trade_order2(tx);
    let new1 = traded_order(order1, tx.token_id_1to2, tx.token_id_2to1, tx.amount_1to2, tx.amount_2to1);
    let new2 = traded_order(order2, tx.token_id_2to1, tx.token_id_1to2, tx.amount_2to1, tx.amount_1to2);
    lemma_pow2_fits(l.account_levels);
    assert(l.order_pos.contains_key(k1));
    assert(l.order_pos.contains_key(k2));
    assert(l.orders[a1].contains_key(pos1));
    assert(l.orders[a2].contains_key(pos2));
    assert(order1.order_id@ == tx.order1_id);
    assert(order2.order_id@ == tx.order2_id);
    crate::field::lemma_fr_of_view(order1.order_id);
    crate::field::lemma_fr_of_view(order2.order_id);
    let s1 = l.trade_step1(tx);
    lemma_with_balance_leaf(l, a1, t12, fr_sub(l.balances[a1][t12], tx.amount_1to2));
    let s2 = l.trade_step2(tx);
    lemma_with_balance_leaf(s1, a2, t21, fr_sub(l.balances[a2][t21], tx.amount_2to1));
    assert(s2.order_pos == l.order_pos);
    assert(s2.orders == l.orders);
    let s3 = l.trade_step3(tx);
    lemma_set_account_order(s2, a1, pos1, new1);
    assert(s3.order_pos =~= l.order_pos);
    let s4 = l.trade_step4(tx);
    lemma_set_token_balance(s3, a1, t21, fr_add(l.balances[a1][t21], tx.amount_2to1));
    assert(s4.order_pos == l.order_pos);
    let s5 = l.trade_step5(tx);
    lemma_set_account_order(s4, a2, pos2, new2);
    let s6 = l.spot_trade_applied(tx);
    lemma_set_token_balance(s5, a2, t12, fr_add(l.balances[a2][t12], tx.amount_1to2));
    assert forall|b: int| 0 <= b < s6.count() implies #[trigger] s6.order_root_ok(b) by {
        assert(l.order_root_ok(b));
        assert(s1.order_root_ok(b));
        assert(s2.order_root_ok(b));
        assert(s3.order_root_ok(b));
        assert(s4.order_root_ok(b));
        assert(s5.order_root_ok(b));
    }
    assert forall|b: int| 0 <= b < s6.count() implies #[trigger] s6.balance_root_ok(b) by {
        if b == a2 {
        } else if b == a1 {
            assert(s4.balance_root_ok(b));
            assert(s5.balance_root_ok(b));
        } else {
            assert(l.balance_root_ok(b));
            assert(s1.balance_root_ok(b));
            assert(s2.balance_root_ok(b));
            assert(s3.balance_root_ok(b));
            assert(s4.balance_root_ok(b));
            assert(s5.balance_root_ok(b));
        }
    }
    lemma_push_tx(s6, l.spot_trade_witness(tx));
}

/// The slot found for the next order lies inside the order tree and is free, and every slot
/// that the search passed before it holds an order that is not filled.
pub proof fn lemma_scan_from(l: Ledger, a: int, offset: nat)
    requires
        l.order_levels < 32,
        l.scan_from(a, offset) is Some,
    ensures
        l.scan_from(a, offset).unwrap() < pow2(l.order_levels),
        l.slot_free(a, l.scan_from(a, offset).unwrap()),
        exists|k: nat|
            offset <= k < l.max_orders() && l.scan_from(a, offset) == Some(#[trigger] l.slot_at(a, k))
                && forall|j: nat| offset <= j < k ==> !l.slot_free(a, #[trigger] l.slot_at(a, j)),
    decreases l.max_orders() - offset,
{
    lemma_pow2_fits(l.order_levels);
    if offset < l.max_orders() {
        if l.slot_free(a, l.slot_at(a, offset)) {
            vstd::arithmetic::div_mod::lemma_mod_bound(
                l.next_order_idx[a] as int + offset as int,
                l.max_orders() as int,
            );
            assert(l.scan_from(a, offset) == Some(l.slot_at(a, offset)));
        } else {
            lemma_scan_from(l, a, offset + 1);
            let k = choose|k: nat|
                offset + 1 <= k < l.max_orders() && l.scan_from(a, offset + 1) == Some(
                    #[trigger] l.slot_at(a, k),
                ) && forall|j: nat|
                    offset + 1 <= j < k ==> !l.slot_free(a, #[trigger] l.slot_at(a, j));
            assert(l.scan_from(a, offset) == Some(l.slot_at(a, k)));
            assert forall|j: nat| offset <= j < k implies !l.slot_free(
                a,
                #[trigger] l.slot_at(a, j),
            ) by {}
        }
    }
}

} // verus!
