//! What holds of every ledger, whatever is done to it.

use crate::common::AccountState;
use crate::common::DepositToOldTx;
use crate::common::L2Block;
use crate::common::Order;
use crate::common::PlaceOrderTx;
use crate::common::RawTxView;
use crate::common::SpotTradeTx;
use crate::field::field_sum;
use crate::field::lemma_fr_of_value;
use crate::field::modulus;
use crate::field::Fr;
use crate::ledger::lemma_create_new_account;
use crate::ledger::lemma_create_order_at;
use crate::ledger::lemma_deposit;
use crate::ledger::lemma_flush_aligns;
use crate::ledger::lemma_place_order;
use crate::ledger::lemma_push_tx;
use crate::ledger::lemma_set_account_order;
use crate::ledger::lemma_set_token_balance;
use crate::ledger::lemma_spot_trade;
use crate::ledger::lemma_with_account;
use crate::ledger::placed_order;
use crate::ledger::traded_order;
use crate::ledger::Ledger;
use crate::merkle::lemma_path_of_update;
use crate::merkle::lemma_path_root;
use crate::merkle::lemma_pow2_fits;
use crate::merkle::path_root;
use vstd::arithmetic::power2::pow2;
use vstd::prelude::*;

verus! {

// ----- the invariants under any sequence of operations -----
/// One operation on the ledger.
pub enum Step {
    CreateAccount { next_order_id: u32 },
    SetNonce { account_id: u32, nonce: Fr },
    SetBalance { account_id: u32, token_id: u32, balance: Fr },
    SetOrder { account_id: u32, order_pos: u32, written: Order },
    CreateOrder { placed: PlaceOrderTx },
    AddRawTx { witness: RawTxView },
    Deposit { deposit: DepositToOldTx },
    PlaceOrder { order: PlaceOrderTx },
    SpotTrade { trade: SpotTradeTx },
    Nop,
    Flush,
}

impl Ledger {
    /// Whether the operation can be applied: what its executor requires.
    pub open spec fn allows(self, step: Step) -> bool {
        match step {
            Step::CreateAccount { next_order_id } => self.count() < pow2(self.account_levels),
            Step::SetNonce { account_id, nonce } => account_id < self.count(),
            Step::SetBalance { account_id, token_id, balance } => self.has_slot(
                account_id as int,
                token_id as int,
            ),
            Step::SetOrder { account_id, order_pos, written } => self.can_set_order(
                account_id as int,
                order_pos,
                written,
            ),
            Step::CreateOrder { placed } => placed.account_id < self.count() && self.next_slot(
                placed.account_id as int,
            ) is Some && self.can_set_order(
                placed.account_id as int,
                self.next_slot(placed.account_id as int).unwrap(),
                placed_order(placed),
            ),
            Step::AddRawTx { witness } => true,
            Step::Deposit { deposit } => self.can_deposit(deposit),
            Step::PlaceOrder { order } => self.can_place_order(order),
            Step::SpotTrade { trade } => self.can_spot_trade(trade),
            Step::Nop => self.count() > 0,
            Step::Flush => self.count() > 0 || self.txs.len() % self.n_tx == 0,
        }
    }

    /// The ledger after the operation.
    pub open spec fn step(self, step: Step) -> Ledger {
        match step {
            Step::CreateAccount { next_order_id } => self.create_new_account(next_order_id),
            Step::SetNonce { account_id, nonce } => self.set_account_nonce(account_id as int, nonce),
            Step::SetBalance { account_id, token_id, balance } => self.set_token_balance(
                account_id as int,
                token_id as int,
                balance,
            ),
            Step::SetOrder { account_id, order_pos, written } => self.set_account_order(
                account_id as int,
                order_pos,
                written,
            ),
            Step::CreateOrder { placed } => self.create_order_at(
                placed,
                self.next_slot(placed.account_id as int).unwrap(),
            ),
            Step::AddRawTx { witness } => self.push_tx(witness),
            Step::Deposit { deposit } => self.deposit_to_old(deposit),
            Step::PlaceOrder { order } => self.place_order(order),
            Step::SpotTrade { trade } => self.spot_trade(trade),
            Step::Nop => self.nop(),
            Step::Flush => self.flush_with_nop(),
        }
    }

    /// Whether the operations can be applied one after the other.
    pub open spec fn allows_all(self, steps: Seq<Step>) -> bool
        decreases steps.len(),
    {
        steps.len() == 0 || (self.allows(steps[0]) && self.step(steps[0]).allows_all(
            steps.drop_first(),
        ))
    }

    /// The ledger after the operations, applied one after the other.
    pub open spec fn run(self, steps: Seq<Step>) -> Ledger
        decreases steps.len(),
    {
        if steps.len() == 0 {
            self
        } else {
            self.step(steps[0]).run(steps.drop_first())
        }
    }

    /// Whether each witness starts from the root that the one before it ended with, and the
    /// last one ended with the root of the ledger.
    pub open spec fn linked(self) -> bool {
        &&& forall|i: int|
            0 <= i < self.txs.len() - 1 ==> (#[trigger] self.txs[i]).root_after == self.txs[i
                + 1].root_before
        &&& self.txs.len() > 0 ==> self.txs.last().root_after == self.root()
    }
}

/// Filling up keeps the invariants.
pub proof fn lemma_flush_keeps_wf(l: Ledger)
    requires
        l.wf(),
    ensures
        l.flush_with_nop().wf(),
    decreases l.missing(),
{
    if l.txs.len() % l.n_tx == 0 {
        crate::ledger::lemma_flush_aligned(l);
    } else {
        crate::ledger::lemma_flush_step(l);
        lemma_push_tx(l, l.nop_witness());
        lemma_flush_keeps_wf(l.nop());
    }
}

/// Every operation keeps the invariants.
pub proof fn lemma_step_keeps_wf(l: Ledger, step: Step)
    requires
        l.wf(),
        l.allows(step),
    ensures
        l.step(step).wf(),
{
    match step {
        Step::CreateAccount { next_order_id } => {
            lemma_create_new_account(l, next_order_id);
        },
        Step::SetNonce { account_id, nonce } => {
            lemma_with_account(
                l,
                account_id as int,
                AccountState { nonce, ..l.accounts[account_id as int] },
            );
        },
        Step::SetBalance { account_id, token_id, balance } => {
            lemma_set_token_balance(l, account_id as int, token_id as int, balance);
        },
        Step::SetOrder { account_id, order_pos, written } => {
            lemma_set_account_order(l, account_id as int, order_pos, written);
        },
        Step::CreateOrder { placed } => {
            lemma_create_order_at(l, placed, l.next_slot(placed.account_id as int).unwrap());
        },
        Step::AddRawTx { witness } => {
            lemma_push_tx(l, witness);
        },
        Step::Deposit { deposit } => {
            lemma_deposit(l, deposit);
        },
        Step::PlaceOrder { order } => {
            lemma_place_order(l, order);
        },
        Step::SpotTrade { trade } => {
            lemma_spot_trade(l, trade);
        },
        Step::Nop => {
            lemma_push_tx(l, l.nop_witness());
        },
        Step::Flush => {
            lemma_flush_keeps_wf(l);
        },
    }
}

/// The invariants hold after any sequence of operations.
pub proof fn lemma_run_keeps_wf(l: Ledger, steps: Seq<Step>)
    requires
        l.wf(),
        l.allows_all(steps),
    ensures
        l.run(steps).wf(),
    decreases steps.len(),
{
    if steps.len() > 0 {
        lemma_step_keeps_wf(l, steps[0]);
        lemma_run_keeps_wf(l.step(steps[0]), steps.drop_first());
    }
}

/// Leaf consistency: in a ledger that has the invariants, the leaf of every account in the
/// account tree is the hash of the account's state, the state holds the roots of the
/// account's balance tree and order tree, and the leaf of every order is the order's hash and
/// is found again under the order's id.
pub proof fn lemma_leaf_consistency(l: Ledger, a: int)
    requires
        l.wf(),
        0 <= a < l.count(),
    ensures
        l.account_leaves()[a] == l.accounts[a].hash_spec(),
        l.accounts[a].balance_root == l.balance_root(a),
        l.accounts[a].order_root == l.order_root(a),
        forall|p: u32| #[trigger]
            l.orders[a].contains_key(p) ==> l.order_leaves(a)[p as int] == l.orders[a][p].hash_spec()
                && l.order_pos[(a as u32, l.orders[a][p].order_id@ as u32)] == p,
{
    assert(l.balance_root_ok(a));
    assert(l.order_root_ok(a));
    lemma_pow2_fits(l.order_levels);
}

// ----- order ids -----
/// Order-id injectivity: two different ids of one account never lead to the same position.
pub proof fn lemma_order_pos_injective(l: Ledger, account_id: u32, id1: u32, id2: u32)
    requires
        l.wf_base(),
        l.order_pos.contains_key((account_id, id1)),
        l.order_pos.contains_key((account_id, id2)),
        id1 != id2,
    ensures
        l.order_pos[(account_id, id1)] != l.order_pos[(account_id, id2)],
{
}

// ----- blocks -----
/// Block alignment: after the buffer has been filled up, its length is a multiple of the
/// block size, and every group of that size is a block.
pub proof fn lemma_block_alignment(l: Ledger)
    requires
        l.wf(),
    ensures
        l.flush_with_nop().txs.len() % l.n_tx == 0,
        l.flush_with_nop().blocks.len() * l.n_tx == l.flush_with_nop().txs.len(),
{
    lemma_flush_aligns(l);
    lemma_flush_keeps_wf(l);
    let f = l.flush_with_nop();
    let n = f.n_tx as int;
    let len = f.txs.len() as int;
    let b = f.blocks.len() as int;
    vstd::arithmetic::div_mod::lemma_fundamental_div_mod(len, n);
    let q = len / n;
    assert(len == n * q);
    assert((b + 1) * n == b * n + n) by (nonlinear_arith);
    assert(q == b) by (nonlinear_arith)
        requires
            len == n * q,
            b * n <= len,
            len < b * n + n,
            n > 0,
    ;
    assert(b * n == n * b) by (nonlinear_arith);
}

/// A block holds `n_tx` witnesses, and they are those of the buffer at the block's place.
pub proof fn lemma_block_of_txs(l: Ledger, k: int, i: int)
    requires
        l.wf_base(),
        0 <= k < l.blocks.len(),
        0 <= i < l.n_tx,
    ensures
        l.blocks[k].len() == l.n_tx,
        0 <= k * l.n_tx + i < l.txs.len(),
        l.blocks[k][i] == l.txs[k * l.n_tx + i],
{
    let n = l.n_tx as int;
    let b = l.blocks.len() as int;
    assert((k + 1) * n <= b * n) by (nonlinear_arith)
        requires
            k + 1 <= b,
            n > 0,
    ;
    assert(0 <= k * n) by (nonlinear_arith)
        requires
            0 <= k,
            n > 0,
    ;
    assert((k + 1) * n == k * n + n) by (nonlinear_arith);
    assert(l.blocks[k] == l.txs.subrange(k * n, (k + 1) * n));
}

/// Where the witnesses are linked, so are the blocks: the last witness of a block ends with the
/// root that the first witness of the next block starts from.
pub proof fn lemma_blocks_linked(l: Ledger, k: int)
    requires
        l.wf_base(),
        l.linked(),
        0 <= k,
        k + 1 < l.blocks.len(),
    ensures
        l.blocks[k].len() == l.n_tx,
        l.blocks[k + 1].len() == l.n_tx,
        l.blocks[k].last().root_after == l.blocks[k + 1][0].root_before,
{
    let n = l.n_tx as int;
    lemma_block_of_txs(l, k, n - 1);
    lemma_block_of_txs(l, k + 1, 0);
    assert((k + 1) * n == k * n + n) by (nonlinear_arith);
    let i = k * n + n - 1;
    assert(l.txs[i].root_after == l.txs[i + 1].root_before);
}

/// The roots that a block lists are those of its witnesses: the first root listed is the
/// root before the block's first transaction.
pub proof fn lemma_block_roots(block: L2Block, i: int)
    requires
        block.wf(),
        0 <= i < block@.len(),
    ensures
        block@[i].root_before == block.old_account_roots@[i],
        block@[i].root_after == block.new_account_roots@[i],
{
}

/// Witness linkage: the witness of a deposit starts from the root before the deposit and ends
/// with the root after it, and it is the last one in the buffer.
pub proof fn lemma_deposit_linkage(l: Ledger, tx: DepositToOldTx)
    requires
        l.wf(),
        l.can_deposit(tx),
    ensures
        l.deposit_to_old(tx).txs == l.txs.push(l.deposit_witness(tx)),
        l.deposit_witness(tx).root_before == l.root(),
        l.deposit_witness(tx).root_after == l.deposit_to_old(tx).root(),
        l.linked() ==> l.deposit_to_old(tx).linked(),
{
}

/// Witness linkage: the witness of a placed order starts from the root before and ends with
/// the root after, and it is the last one in the buffer.
pub proof fn lemma_place_order_linkage(l: Ledger, tx: PlaceOrderTx)
    requires
        l.wf(),
        l.can_place_order(tx),
    ensures
        l.place_order(tx).txs == l.txs.push(l.place_order_witness(tx)),
        l.place_order_witness(tx).root_before == l.root(),
        l.place_order_witness(tx).root_after == l.place_order(tx).root(),
        l.linked() ==> l.place_order(tx).linked(),
{
}

/// Witness linkage: the witness of a trade starts from the root before and ends with the root
/// after, and it is the last one in the buffer.
pub proof fn lemma_spot_trade_linkage(l: Ledger, tx: SpotTradeTx)
    requires
        l.wf(),
        l.can_spot_trade(tx),
    ensures
        l.spot_trade(tx).txs == l.txs.push(l.spot_trade_witness(tx)),
        l.spot_trade_witness(tx).root_before == l.root(),
        l.spot_trade_witness(tx).root_after == l.spot_trade(tx).root(),
        l.linked() ==> l.spot_trade(tx).linked(),
{
}

/// Witness linkage: a transaction that changes nothing starts from and ends with the root of
/// the ledger, which stays as it is.
pub proof fn lemma_nop_linkage(l: Ledger)
    requires
        l.wf(),
    ensures
        l.nop().txs == l.txs.push(l.nop_witness()),
        l.nop_witness().root_before == l.root(),
        l.nop_witness().root_after == l.root(),
        l.nop().root() == l.root(),
        l.linked() ==> l.nop().linked(),
{
}

/// A new account does not change the root, so the witnesses stay linked.
pub proof fn lemma_create_new_account_root(l: Ledger, next_order_id: u32)
    requires
        l.wf(),
        l.count() < pow2(l.account_levels),
    ensures
        l.create_new_account(next_order_id).root() == l.root(),
        l.linked() ==> l.create_new_account(next_order_id).linked(),
{
    let after = l.create_new_account(next_order_id);
    assert(after.account_leaves() =~= l.account_leaves());
}

// ----- proofs -----
/// Proof soundness: in a ledger that has the invariants, the leaf and the balance path of a
/// state proof recombine to the balance root that the account's state holds, and the hash of
/// the account's state and the account path recombine to the root.
pub proof fn lemma_state_proof_sound(l: Ledger, a: int, t: int)
    requires
        l.wf(),
        l.has_slot(a, t),
    ensures
        path_root(l.state_proof(a, t).leaf, l.state_proof(a, t).balance_path, t)
            == l.accounts[a].balance_root,
        l.state_proof(a, t).balance_root == l.accounts[a].balance_root,
        l.state_proof(a, t).order_root == l.accounts[a].order_root,
        path_root(l.accounts[a].hash_spec(), l.state_proof(a, t).account_path, a)
            == l.state_proof(a, t).root,
{
    assert(l.balance_root_ok(a));
    assert(l.order_root_ok(a));
    lemma_path_root(l.balances[a], l.balance_levels, t);
    lemma_path_root(l.account_leaves(), l.account_levels, a);
}

/// Proof soundness of a deposit's witness: its balance path recombines with the balance
/// before to the balance root before, and with the balance after to the balance root after;
/// its account path recombines with the account's hash before to the root before, and with
/// the account's hash after to the root after.
pub proof fn lemma_deposit_witness_sound(l: Ledger, tx: DepositToOldTx)
    requires
        l.wf(),
        l.can_deposit(tx),
    ensures
        ({
            let a = tx.account_id as int;
            let t = tx.token_id as int;
            let w = l.deposit_witness(tx);
            let after = l.deposit_to_old(tx);
            &&& path_root(l.balances[a][t], w.balance_path0, t) == l.accounts[a].balance_root
            &&& path_root(after.balances[a][t], w.balance_path0, t)
                == after.accounts[a].balance_root
            &&& path_root(l.accounts[a].hash_spec(), w.account_path0, a) == w.root_before
            &&& path_root(after.accounts[a].hash_spec(), w.account_path0, a) == w.root_after
        }),
{
    let a = tx.account_id as int;
    let t = tx.token_id as int;
    let after = l.deposit_to_old(tx);
    lemma_state_proof_sound(l, a, t);
    lemma_deposit(l, tx);
    lemma_state_proof_sound(after, a, t);
    lemma_path_of_update(l.balances[a], l.balance_levels, t, after.balances[a][t]);
    assert(after.balances[a] == l.balances[a].update(t, after.balances[a][t]));
    lemma_pow2_fits(l.account_levels);
    assert(l.account_leaves().len() == pow2(l.account_levels));
    lemma_path_of_update(l.account_leaves(), l.account_levels, a, after.accounts[a].hash_spec());
    assert(after.account_leaves() =~= l.account_leaves().update(a, after.accounts[a].hash_spec()));
}

/// Proof soundness of a placed order's witness: its one order path recombines with the leaf
/// that stood in the slot to the order root before, and with the hash of the new order to the
/// order root after.
pub proof fn lemma_place_order_witness_sound(l: Ledger, tx: PlaceOrderTx)
    requires
        l.wf(),
        l.can_place_order(tx),
    ensures
        ({
            let a = tx.account_id as int;
            let pos = l.next_slot(a).unwrap();
            let w = l.place_order_witness(tx);
            &&& path_root(l.order_leaves(a)[pos as int], w.order_path0, pos as int)
                == w.order_root0
            &&& path_root(placed_order(tx).hash_spec(), w.order_path0, pos as int)
                == w.order_root1
            &&& w.order_root1 == l.place_order(tx).accounts[a].order_root
        }),
{
    let a = tx.account_id as int;
    let pos = l.next_slot(a).unwrap();
    let applied = l.place_order_applied(tx);
    let h = placed_order(tx).hash_spec();
    lemma_pow2_fits(l.order_levels);
    lemma_place_order(l, tx);
    assert(l.order_root_ok(a));
    assert(applied.order_root_ok(a));
    assert(applied.order_leaves(a) =~= l.order_leaves(a).update(pos as int, h));
    lemma_path_of_update(l.order_leaves(a), l.order_levels, pos as int, h);
    lemma_path_root(l.order_leaves(a), l.order_levels, pos as int);
    lemma_path_root(applied.order_leaves(a), l.order_levels, pos as int);
}

/// Proof soundness of a trade's witness: each path recombines, with the leaf that stood at
/// its place when the path was taken, to the root of its tree at that moment.
pub proof fn lemma_spot_trade_witness_sound(l: Ledger, tx: SpotTradeTx)
    requires
        l.wf(),
        l.can_spot_trade(tx),
    ensures
        ({
            let a1 = tx.order1_account_id as int;
            let a2 = tx.order2_account_id as int;
            let t12 = tx.token_id_1to2 as int;
            let t21 = tx.token_id_2to1 as int;
            let w = l.spot_trade_witness(tx);
            let s1 = l.trade_step1(tx);
            let s2 = l.trade_step2(tx);
            let s4 = l.trade_step4(tx);
            &&& path_root(l.balances[a1][t12], w.balance_path0, t12) == l.accounts[a1].balance_root
            &&& path_root(l.balances[a2][t21], w.balance_path2, t21) == l.accounts[a2].balance_root
            &&& path_root(s1.balances[a1][t21], w.balance_path3, t21) == s1.balance_root(a1)
            &&& path_root(s2.balances[a2][t12], w.balance_path1, t12) == s2.balance_root(a2)
            &&& path_root(l.trade_order1(tx).hash_spec(), w.order_path0, l.trade_pos1(tx) as int)
                == w.order_root0
            &&& path_root(l.trade_order2(tx).hash_spec(), w.order_path1, l.trade_pos2(tx) as int)
                == w.order_root1
            &&& path_root(l.accounts[a1].hash_spec(), w.account_path0, a1) == w.root_before
            &&& path_root(s4.accounts[a2].hash_spec(), w.account_path1, a2) == s4.root()
        }),
{
    let a1 = tx.order1_account_id as int;
    let a2 = tx.order2_account_id as int;
    let t12 = tx.token_id_1to2 as int;
    let t21 = tx.token_id_2to1 as int;
    let s1 = l.trade_step1(tx);
    let s2 = l.trade_step2(tx);
    let s4 = l.trade_step4(tx);
    lemma_spot_trade(l, tx);
    lemma_pow2_fits(l.order_levels);
    lemma_pow2_fits(l.account_levels);
    lemma_state_proof_sound(l, a1, t12);
    lemma_state_proof_sound(l, a2, t21);
    lemma_path_root(s1.balances[a1], l.balance_levels, t21);
    lemma_path_root(s2.balances[a2], l.balance_levels, t12);
    assert(l.order_root_ok(a1));
    assert(l.order_root_ok(a2));
    lemma_path_root(l.order_leaves(a1), l.order_levels, l.trade_pos1(tx) as int);
    lemma_path_root(l.order_leaves(a2), l.order_levels, l.trade_pos2(tx) as int);
    lemma_path_root(s4.account_leaves(), l.account_levels, a2);
}

// ----- conservation -----
/// Deposit conservation: after a deposit the balance is the sum, in the field, of the balance
/// before and the amount, and the plain sum where that is below the modulus. No other balance
/// changes, no order, no other account's state, and of the account's own state nothing but
/// the balance root.
pub proof fn lemma_deposit_conservation(l: Ledger, tx: DepositToOldTx)
    requires
        l.wf(),
        l.can_deposit(tx),
    ensures
        ({
            let a = tx.account_id as int;
            let t = tx.token_id as int;
            let after = l.deposit_to_old(tx);
            &&& after.balances[a][t]@ == field_sum(l.balances[a][t]@, tx.amount@)
            &&& l.balances[a][t]@ + tx.amount@ < modulus() ==> after.balances[a][t]@
                == l.balances[a][t]@ + tx.amount@
            &&& forall|b: int, u: int|
                l.has_slot(b, u) && (b != a || u != t) ==> #[trigger] after.balances[b][u]
                    == l.balances[b][u]
            &&& forall|b: int|
                0 <= b < l.count() && b != a ==> #[trigger] after.accounts[b] == l.accounts[b]
            &&& after.accounts[a] == (AccountState {
                balance_root: after.balance_root(a),
                ..l.accounts[a]
            })
            &&& after.accounts[a].nonce == l.accounts[a].nonce
            &&& after.orders == l.orders
            &&& after.order_pos == l.order_pos
            &&& after.count() == l.count()
        }),
{
    let a = tx.account_id as int;
    let t = tx.token_id as int;
    let sum = field_sum(l.balances[a][t]@, tx.amount@);
    lemma_fr_of_value(sum);
    if l.balances[a][t]@ + tx.amount@ < modulus() {
        vstd::arithmetic::div_mod::lemma_small_mod(
            l.balances[a][t]@ + tx.amount@,
            modulus(),
        );
    }
}

/// Spot-trade conservation: where the two accounts differ and the two tokens differ, the trade
/// moves each token from one account to the other, so the sum of the two balances of each
/// token is, in the field, what it was; each seller's balance falls by exactly what it sends;
/// and what each order has sold and bought grows by the amounts traded, in the field.
pub proof fn lemma_spot_trade_conservation(l: Ledger, tx: SpotTradeTx)
    requires
        l.wf(),
        l.can_spot_trade(tx),
        tx.order1_account_id != tx.order2_account_id,
        tx.token_id_1to2 != tx.token_id_2to1,
        l.balances[tx.order1_account_id as int][tx.token_id_1to2 as int].reduced(),
        l.balances[tx.order2_account_id as int][tx.token_id_2to1 as int].reduced(),
    ensures
        ({
            let a1 = tx.order1_account_id as int;
            let a2 = tx.order2_account_id as int;
            let t12 = tx.token_id_1to2 as int;
            let t21 = tx.token_id_2to1 as int;
            let after = l.spot_trade(tx);
            let order1 = after.orders[a1][l.trade_pos1(tx)];
            let order2 = after.orders[a2][l.trade_pos2(tx)];
            &&& after.balances[a1][t12]@ == l.balances[a1][t12]@ - tx.amount_1to2@
            &&& after.balances[a2][t21]@ == l.balances[a2][t21]@ - tx.amount_2to1@
            &&& after.balances[a2][t12]@ == field_sum(l.balances[a2][t12]@, tx.amount_1to2@)
            &&& after.balances[a1][t21]@ == field_sum(l.balances[a1][t21]@, tx.amount_2to1@)
            &&& (after.balances[a1][t12]@ + after.balances[a2][t12]@) % modulus() == (
            l.balances[a1][t12]@ + l.balances[a2][t12]@) % modulus()
            &&& (after.balances[a1][t21]@ + after.balances[a2][t21]@) % modulus() == (
            l.balances[a1][t21]@ + l.balances[a2][t21]@) % modulus()
            &&& order1 == traded_order(
                l.trade_order1(tx),
                tx.token_id_1to2,
                tx.token_id_2to1,
                tx.amount_1to2,
                tx.amount_2to1,
            )
            &&& order2 == traded_order(
                l.trade_order2(tx),
                tx.token_id_2to1,
                tx.token_id_1to2,
                tx.amount_2to1,
                tx.amount_1to2,
            )
        }),
{
    let a1 = tx.order1_account_id as int;
    let a2 = tx.order2_account_id as int;
    let t12 = tx.token_id_1to2 as int;
    let t21 = tx.token_id_2to1 as int;
    let p = modulus() as int;
    let b1s = l.balances[a1][t12]@ as int;
    let b2b = l.balances[a2][t12]@ as int;
    let b2s = l.balances[a2][t21]@ as int;
    let b1b = l.balances[a1][t21]@ as int;
    let x12 = tx.amount_1to2@ as int;
    let x21 = tx.amount_2to1@ as int;
    lemma_spot_trade(l, tx);
    lemma_pow2_fits(l.account_levels);
    vstd::arithmetic::div_mod::lemma_fundamental_div_mod_converse(b1s + p - x12, p, 1, b1s - x12);
    vstd::arithmetic::div_mod::lemma_fundamental_div_mod_converse(b2s + p - x21, p, 1, b2s - x21);
    lemma_fr_of_value((b1s - x12) as nat);
    lemma_fr_of_value((b2s - x21) as nat);
    lemma_fr_of_value(field_sum(b2b as nat, x12 as nat));
    lemma_fr_of_value(field_sum(b1b as nat, x21 as nat));
    vstd::arithmetic::div_mod::lemma_add_mod_noop_right(b1s - x12, b2b + x12, p);
    vstd::arithmetic::div_mod::lemma_add_mod_noop_right(b2s - x21, b1b + x21, p);
}

/// What an order has sold and bought does not fall in a trade, unless the sum leaves the
/// field.
pub proof fn lemma_filled_grows(order: Order, token_sell: u32, token_buy: u32, sold: Fr, bought: Fr)
    requires
        order.filled_sell@ + sold@ < modulus(),
        order.filled_buy@ + bought@ < modulus(),
    ensures
        traded_order(order, token_sell, token_buy, sold, bought).filled_sell@ == order.filled_sell@
            + sold@,
        traded_order(order, token_sell, token_buy, sold, bought).filled_buy@ == order.filled_buy@
            + bought@,
        traded_order(order, token_sell, token_buy, sold, bought).filled_sell@
            >= order.filled_sell@,
        traded_order(order, token_sell, token_buy, sold, bought).filled_buy@ >= order.filled_buy@,
{
    vstd::arithmetic::div_mod::lemma_small_mod(order.filled_sell@ + sold@, modulus());
    vstd::arithmetic::div_mod::lemma_small_mod(order.filled_buy@ + bought@, modulus());
    lemma_fr_of_value(order.filled_sell@ + sold@);
    lemma_fr_of_value(order.filled_buy@ + bought@);
}

} // verus!
