//! The state engine: the forest of Merkle trees, the executors of transactions and the block
//! forger.
//!
//! A [`GlobalState`] stands for a [`Ledger`]; what each function does is stated over that
//! ledger, and every witness is the one that the ledger's model describes.

use crate::common::blocks_view;
use crate::common::copy_elements;
use crate::common::copy_path;
use crate::common::txs_view;
use crate::common::AccountState;
use crate::common::DepositToOldTx;
use crate::common::L2Block;
use crate::common::Order;
use crate::common::PlaceOrderTx;
use crate::common::RawTx;
use crate::common::SpotTradeTx;
use crate::common::TxType;
use crate::field::fr_of;
use crate::field::Fr;
use crate::field::Hasher;
use crate::field::fr_add;
use crate::ledger::default_order_leaf;
use crate::ledger::lemma_create_new_account;
use crate::ledger::lemma_set_account_order;
use crate::ledger::lemma_set_token_balance;
use crate::ledger::lemma_with_account;
use crate::ledger::lemma_with_balance_leaf;
use crate::ledger::lemma_create_order_at;
use crate::ledger::lemma_push_tx;
use crate::codec::zero_payload_vec;
use crate::ledger::lemma_flush_aligned;
use crate::ledger::lemma_flush_aligns;
use crate::ledger::lemma_flush_length;
use crate::ledger::lemma_flush_step;
use crate::codec::PlaceOrderTxData;
use crate::ledger::lemma_place_order;
use crate::ledger::lemma_spot_trade;
use crate::ledger::order_leaves_of;
use crate::merkle::path_of;
use crate::merkle::pow2_u32;
use crate::ledger::placed_order;
use crate::merkle::MerkleProof;
use crate::merkle::lemma_pow2_fits;
use crate::merkle::uniform_leaves;
use crate::ledger::Ledger;
use crate::ledger::StateProofView;
use crate::merkle::empty_tree_root;
use crate::merkle::lemma_uniform_nodes;
use crate::merkle::path_view;
use crate::merkle::Tree;
use crate::table::table_contains;
use crate::table::table_get;
use crate::table::table_get_mut;
use crate::table::table_insert;
use crate::table::table_len;
use crate::table::table_new;
use crate::table::table_remove;
use crate::tx_detail_idx;
use fnv::FnvHashMap;
use std::collections::BTreeMap;
use vstd::arithmetic::power2::lemma2_to64;
use vstd::arithmetic::power2::lemma_pow2_pos;
use vstd::arithmetic::power2::lemma_pow2_strictly_increases;
use vstd::arithmetic::power2::pow2;
use vstd::prelude::*;
use vstd::slice::slice_subrange;

verus! {

/// The proof of one balance: the leaf and its path in the account's balance tree, the path of
/// the account in the account tree, and the roots of the trees.
pub struct StateProof {
    pub leaf: Fr,
    pub root: Fr,
    pub balance_root: Fr,
    pub order_root: Fr,
    pub balance_path: Vec<[Fr; 1]>,
    pub account_path: Vec<[Fr; 1]>,
}

impl View for StateProof {
    type V = StateProofView;

    open spec fn view(&self) -> StateProofView {
        StateProofView {
            leaf: self.leaf,
            root: self.root,
            balance_root: self.balance_root,
            order_root: self.order_root,
            balance_path: path_view(self.balance_path@),
            account_path: path_view(self.account_path@),
        }
    }
}

/// The key under which the position of an order is kept: the account in the upper half, the
/// order id in the lower.
spec fn key64(a: u32, id: u32) -> u64 {
    (a as u64 * 0x1_0000_0000 + id as u64) as u64
}

/// The positions of the orders by account and order id, as the table of keys holds them.
spec fn pos_index(m: Map<u64, u32>) -> Map<(u32, u32), u32> {
    Map::new(|k: (u32, u32)| m.contains_key(key64(k.0, k.1)), |k: (u32, u32)| m[key64(k.0, k.1)])
}

/// The key under which the position of an order is kept.
fn pos_key(a: u32, id: u32) -> (k: u64)
    ensures
        k == key64(a, id),
{
    (a as u64) * 0x1_0000_0000 + (id as u64)
}

/// Whether a table has exactly the keys below `n`.
spec fn dense(dom: Set<u32>, n: nat) -> bool {
    &&& dom.finite()
    &&& dom.len() == n
    &&& forall|a: u32| dom.contains(a) <==> a < n
}

/// The states of the first `n` accounts.
spec fn accounts_seq(m: Map<u32, AccountState>, n: nat) -> Seq<AccountState> {
    Seq::new(n, |a: int| m[a as u32])
}

/// The balances of the first `n` accounts.
spec fn balances_seq(m: Map<u32, Tree>, n: nat) -> Seq<Seq<Fr>> {
    Seq::new(n, |a: int| m[a as u32]@)
}

/// The orders of the first `n` accounts.
spec fn orders_seq(m: Map<u32, BTreeMap<u32, Order>>, n: nat) -> Seq<Map<u32, Order>> {
    Seq::new(n, |a: int| m[a as u32]@)
}

/// The starts of the slot search of the first `n` accounts.
spec fn cursor_seq(m: Map<u32, u32>, n: nat) -> Seq<u32> {
    Seq::new(n, |a: int| m[a as u32])
}

/// Whether the balance tree of each of the first `n` accounts is sound and has the height.
spec fn balance_trees_ok(m: Map<u32, Tree>, n: nat, height: nat) -> bool {
    forall|a: u32| a < n ==> (#[trigger] m[a]).wf() && m[a].height_spec() == height
}

/// Whether the order tree of each account is sound, has the height, and holds the hashes of
/// the account's orders.
spec fn order_trees_ok(m: Map<u32, Tree>, orders: Seq<Map<u32, Order>>, order_levels: nat) -> bool {
    forall|a: u32|
        a < orders.len() ==> (#[trigger] m[a]).wf() && m[a].height_spec() == order_levels && m[a]@
            == order_leaves_of(orders[a as int], order_levels)
}

/// Whether every block holds one entry per transaction in each of its fields.
spec fn blocks_wf(blocks: Seq<L2Block>) -> bool {
    forall|i: int| 0 <= i < blocks.len() ==> (#[trigger] blocks[i]).wf()
}

/// A table without keys has the keys below zero.
proof fn lemma_dense_empty()
    ensures
        dense(Set::<u32>::empty(), 0),
{
}

/// A table with the keys below `n` has, with the key `n`, the keys below `n + 1`.
proof fn lemma_dense_insert(dom: Set<u32>, n: nat)
    requires
        dense(dom, n),
        n <= u32::MAX,
    ensures
        dense(dom.insert(n as u32), n + 1),
{
}

/// The state engine.
pub struct GlobalState {
    hasher: Hasher,
    n_tx: usize,
    balance_levels: usize,
    order_levels: usize,
    account_levels: usize,
    account_tree: Tree,
    balance_trees: FnvHashMap<u32, Tree>,
    order_trees: FnvHashMap<u32, Tree>,
    order_map: FnvHashMap<u32, BTreeMap<u32, Order>>,
    order_id_to_pos: FnvHashMap<u64, u32>,
    accounts: FnvHashMap<u32, AccountState>,
    buffered_txs: Vec<RawTx>,
    buffered_blocks: Vec<L2Block>,
    default_balance_root: Fr,
    default_order_leaf: Fr,
    default_order_root: Fr,
    default_account_leaf: Fr,
    next_order_idxs: FnvHashMap<u32, u32>,
    max_order_num_per_user: u32,
    verbose: bool,
}

impl View for GlobalState {
    type V = Ledger;

    closed spec fn view(&self) -> Ledger {
        let n = self.accounts@.dom().len();
        Ledger {
            n_tx: self.n_tx as nat,
            balance_levels: self.balance_levels as nat,
            order_levels: self.order_levels as nat,
            account_levels: self.account_levels as nat,
            verbose: self.verbose,
            accounts: accounts_seq(self.accounts@, n),
            balances: balances_seq(self.balance_trees@, n),
            orders: orders_seq(self.order_map@, n),
            order_pos: pos_index(self.order_id_to_pos@),
            next_order_idx: cursor_seq(self.next_order_idxs@, n),
            txs: txs_view(self.buffered_txs@),
            blocks: blocks_view(self.buffered_blocks@),
        }
    }
}

impl GlobalState {
    /// Whether the tables and the trees of the accounts hold what the ledger says, and the
    /// account tree is sound and has its height.
    closed spec fn rep_core(&self) -> bool {
        let l = self@;
        let n = l.count();
        &&& dense(self.accounts@.dom(), n)
        &&& dense(self.balance_trees@.dom(), n)
        &&& dense(self.order_trees@.dom(), n)
        &&& dense(self.order_map@.dom(), n)
        &&& dense(self.next_order_idxs@.dom(), n)
        &&& self.account_tree.wf()
        &&& self.account_tree.height_spec() == l.account_levels
        &&& self.account_tree@.len() == l.account_leaves().len()
        &&& balance_trees_ok(self.balance_trees@, n, l.balance_levels)
        &&& order_trees_ok(self.order_trees@, l.orders, l.order_levels)
        &&& self.default_balance_root == l.default_balance_root()
        &&& self.default_order_leaf == l.default_order_leaf()
        &&& self.default_order_root == l.default_order_root()
        &&& self.default_account_leaf == l.default_account_leaf()
        &&& self.max_order_num_per_user == pow2(l.order_levels)
        &&& blocks_wf(self.buffered_blocks@)
    }

    /// Whether the trees and tables hold what the ledger says.
    closed spec fn rep(&self) -> bool {
        &&& self.rep_core()
        &&& self.account_tree@ == self@.account_leaves()
    }

    /// The engine's invariant at every step: it stands for a ledger that has the invariants of
    /// every step.
    pub closed spec fn wf_base(&self) -> bool {
        self.rep() && self@.wf_base()
    }

    /// The engine's invariant between transactions.
    pub closed spec fn wf(&self) -> bool {
        self.rep() && self@.wf()
    }

    /// What the invariants say of the ledger.
    pub proof fn lemma_wf(&self)
        ensures
            self.wf() ==> self.wf_base() && self@.wf(),
            self.wf_base() ==> self@.wf_base(),
            self.wf_base() && self@.wf() ==> self.wf(),
            self.wf_base() ==> self.account_tree_leaves() == self@.account_leaves(),
            forall|account_id: u32| self.wf_base() ==> #[trigger] self.wf_stale(account_id),
    {
    }

    /// An engine without accounts. The trees have the given heights, and a block holds `n_tx`
    /// transactions.
    pub fn new(
        balance_levels: usize,
        order_levels: usize,
        account_levels: usize,
        n_tx: usize,
        verbose: bool,
    ) -> (s: Self)
        requires
            balance_levels < 32,
            order_levels < 32,
            account_levels < 32,
            n_tx > 0,
        ensures
            s.wf(),
            s@ == Ledger::genesis(
                balance_levels as nat,
                order_levels as nat,
                account_levels as nat,
                n_tx as nat,
                verbose,
            ),
    {
        let hasher = Hasher::new();
        let default_balance_root = empty_tree_root(&hasher, balance_levels, Fr::zero());
        let default_order_leaf = Order::default().hash(&hasher);
        let dummy_order_tree = Tree::new(&hasher, order_levels, default_order_leaf);
        let default_order_root = dummy_order_tree.get_root();
        let default_account_leaf = AccountState::empty(default_balance_root, default_order_root).hash(
            &hasher,
        );
        let max_order_num_per_user = dummy_order_tree.max_leaf_num();
        let account_tree = Tree::new(&hasher, account_levels, default_account_leaf);
        let s = Self {
            hasher,
            balance_levels,
            order_levels,
            account_levels,
            default_balance_root,
            default_order_leaf,
            default_order_root,
            default_account_leaf,
            account_tree,
            balance_trees: table_new(),
            order_trees: table_new(),
            order_map: table_new(),
            order_id_to_pos: table_new(),
            accounts: table_new(),
            buffered_txs: Vec::new(),
            buffered_blocks: Vec::new(),
            next_order_idxs: table_new(),
            max_order_num_per_user,
            n_tx,
            verbose,
        };
        proof {
            let g = Ledger::genesis(
                balance_levels as nat,
                order_levels as nat,
                account_levels as nat,
                n_tx as nat,
                verbose,
            );
            lemma_dense_empty();
            lemma_pow2_pos(order_levels as nat);
            lemma_pow2_pos(account_levels as nat);
            lemma_pow2_pos(0);
            crate::ledger::lemma_blocks_ok_empty(n_tx as nat);
            lemma_uniform_nodes(order_levels as nat, default_order_leaf, order_levels as nat, 0);
            assert(s@.accounts =~= g.accounts);
            assert(s@.balances =~= g.balances);
            assert(s@.orders =~= g.orders);
            assert(s@.order_pos =~= g.order_pos);
            assert(s@.next_order_idx =~= g.next_order_idx);
            assert(s@.txs =~= g.txs);
            assert(s@.blocks =~= g.blocks);
            assert(s@ == g);
            assert(s.account_tree@ =~= g.account_leaves());
        }
        s
    }

    /// The root of the account tree.
    pub fn root(&self) -> (r: Fr)
        requires
            self.wf_base(),
        ensures
            r == self@.root(),
    {
        self.account_tree.get_root()
    }

    /// The number of accounts.
    pub fn account_count(&self) -> (n: u32)
        requires
            self.wf_base(),
        ensures
            n == self@.count(),
    {
        proof {
            lemma2_to64();
            if self.account_levels < 31 {
                lemma_pow2_strictly_increases(self.account_levels as nat, 31);
            }
        }
        table_len(&self.accounts) as u32
    }

    /// The number of accounts that the account tree has room for.
    pub fn max_account_num(&self) -> (n: u32)
        requires
            self.wf_base(),
        ensures
            n == pow2(self@.account_levels),
    {
        self.account_tree.max_leaf_num()
    }
    /// The number of tokens that a balance tree has room for.
    pub fn max_token_num(&self) -> (n: u32)
        requires
            self.wf_base(),
        ensures
            n == pow2(self@.balance_levels),
    {
        pow2_u32(self.balance_levels)
    }

    /// The number of order slots of an account.
    pub fn max_order_num(&self) -> (n: u32)
        requires
            self.wf_base(),
        ensures
            n == pow2(self@.order_levels),
    {
        self.max_order_num_per_user
    }

    /// Whether an account with this number exists.
    pub fn has_account(&self, account_id: u32) -> (r: bool)
        requires
            self.wf_base(),
        ensures
            r == (account_id < self@.count()),
    {
        table_contains(&self.accounts, &account_id)
    }

    /// The state of an account.
    pub fn get_account(&self, account_id: u32) -> (r: AccountState)
        requires
            self.wf_base(),
            account_id < self@.count(),
        ensures
            r == self@.accounts[account_id as int],
    {
        *table_get(&self.accounts, &account_id).unwrap()
    }

    /// The address of an account on the first layer.
    pub fn get_l1_addr(&self, account_id: u32) -> (r: Fr)
        requires
            self.wf_base(),
            account_id < self@.count(),
        ensures
            r == self@.accounts[account_id as int].eth_addr,
    {
        table_get(&self.accounts, &account_id).unwrap().eth_addr
    }

    /// The balance of an account in a token.
    pub fn get_token_balance(&self, account_id: u32, token_id: u32) -> (r: Fr)
        requires
            self.wf_base(),
            self@.has_slot(account_id as int, token_id as int),
        ensures
            r == self@.balances[account_id as int][token_id as int],
    {
        table_get(&self.balance_trees, &account_id).unwrap().get_leaf(token_id)
    }

    /// The leaves of the account tree as the engine holds them.
    pub closed spec fn account_tree_leaves(&self) -> Seq<Fr> {
        self.account_tree@
    }

    /// The engine's invariant at every step, but that the leaf of one account in the account
    /// tree may be out of date: every other leaf is what the ledger says. This is the state
    /// between a change of the account's state and its stamping into the account tree.
    pub closed spec fn wf_stale(&self, account_id: u32) -> bool {
        &&& self.rep_core()
        &&& self@.wf_base()
        &&& forall|i: int|
            0 <= i < self.account_tree@.len() && i != account_id ==> self.account_tree@[i]
                == #[trigger] self@.account_leaves()[i]
    }

    /// Stamps the hash of the account's state into the account tree. It is the last step of
    /// every change of an account's state: the account's leaf may be out of date before it, and
    /// is the hash of the account's state after it. The ledger stays as it is.
    pub fn recalculate_from_account_state(&mut self, account_id: u32)
        requires
            old(self).wf_stale(account_id),
            account_id < old(self)@.count(),
        ensures
            final(self).wf_base(),
            final(self)@ == old(self)@,
            final(self).account_tree_leaves() == old(self).account_tree_leaves().update(
                account_id as int,
                old(self)@.accounts[account_id as int].hash_spec(),
            ),
            old(self)@.wf() ==> final(self).wf(),
            old(self).wf() ==> final(self).wf(),
    {
        proof {
            lemma_pow2_fits(self@.account_levels);
        }
        let h = table_get(&self.accounts, &account_id).unwrap().hash(&self.hasher);
        self.account_tree.set_value(&self.hasher, account_id, h);
        proof {
            assert(self.account_tree@ =~= self@.account_leaves());
        }
    }

    /// Writes the state of an account and its leaf in the account tree.
    fn write_account(&mut self, account_id: u32, state: AccountState)
        requires
            old(self).wf_base(),
            account_id < old(self)@.count(),
        ensures
            final(self).wf_base(),
            final(self)@ == old(self)@.with_account(account_id as int, state),
    {
        let ghost before = old(self)@;
        proof {
            lemma_pow2_fits(before.account_levels);
            lemma_with_account(before, account_id as int, state);
        }
        table_insert(&mut self.accounts, account_id, state);
        proof {
            let after = before.with_account(account_id as int, state);
            assert(self.accounts@.dom() =~= old(self).accounts@.dom());
            assert(self@.accounts =~= after.accounts);
            assert(self@ == after);
            assert(self.wf_stale(account_id));
        }
        self.recalculate_from_account_state(account_id);
    }

    /// Copies the root of the account's balance tree into its state, and stamps the state
    /// into the account tree.
    pub fn recalculate_from_balance_tree(&mut self, account_id: u32)
        requires
            old(self).wf_base(),
            account_id < old(self)@.count(),
        ensures
            final(self).wf_base(),
            final(self)@ == old(self)@.refresh_balance_root(account_id as int),
            old(self).wf() ==> final(self).wf() && final(self)@ == old(self)@,
    {
        let balance_root = table_get(&self.balance_trees, &account_id).unwrap().get_root();
        let mut state = self.get_account(account_id);
        state.balance_root = balance_root;
        proof {
            if self.wf() {
                assert(self@.balance_root_ok(account_id as int));
                assert(self@.accounts.update(account_id as int, state) =~= self@.accounts);
            }
        }
        self.write_account(account_id, state);
    }

    /// Copies the root of the account's order tree into its state, and stamps the state into
    /// the account tree.
    pub fn recalculate_from_order_tree(&mut self, account_id: u32)
        requires
            old(self).wf_base(),
            account_id < old(self)@.count(),
        ensures
            final(self).wf_base(),
            final(self)@ == old(self)@.refresh_order_root(account_id as int),
            old(self).wf() ==> final(self).wf() && final(self)@ == old(self)@,
    {
        let order_root = table_get(&self.order_trees, &account_id).unwrap().get_root();
        let mut state = self.get_account(account_id);
        state.update_order_root(order_root);
        proof {
            if self.wf() {
                assert(self@.order_root_ok(account_id as int));
                assert(self@.accounts.update(account_id as int, state) =~= self@.accounts);
            }
        }
        self.write_account(account_id, state);
    }

    /// Sets the nonce of an account.
    pub fn set_account_nonce(&mut self, account_id: u32, nonce: Fr)
        requires
            old(self).wf_base(),
            account_id < old(self)@.count(),
        ensures
            final(self).wf_base(),
            final(self)@ == old(self)@.set_account_nonce(account_id as int, nonce),
            old(self).wf() ==> final(self).wf(),
    {
        let mut state = self.get_account(account_id);
        state.update_nonce(nonce);
        proof {
            lemma_with_account(self@, account_id as int, state);
        }
        self.write_account(account_id, state);
    }

    /// Sets the order root in the state of an account, whatever its order tree holds. After
    /// this the account's state need not agree with its order tree any more.
    pub fn set_account_order_root(&mut self, account_id: u32, order_root: Fr)
        requires
            old(self).wf_base(),
            account_id < old(self)@.count(),
        ensures
            final(self).wf_base(),
            final(self)@ == old(self)@.set_account_order_root(account_id as int, order_root),
    {
        let mut state = self.get_account(account_id);
        state.update_order_root(order_root);
        self.write_account(account_id, state);
    }

    /// Adds one to the nonce of an account.
    pub fn increase_nonce(&mut self, account_id: u32)
        requires
            old(self).wf_base(),
            account_id < old(self)@.count(),
        ensures
            final(self).wf_base(),
            final(self)@ == old(self)@.set_account_nonce(
                account_id as int,
                fr_add(old(self)@.accounts[account_id as int].nonce, fr_of(1)),
            ),
            old(self).wf() ==> final(self).wf(),
    {
        let nonce = self.get_account(account_id).nonce.add(&Fr::one());
        self.set_account_nonce(account_id, nonce);
    }

    /// Creates an account without balances and orders, and returns its number. The search for
    /// its order slots starts at `next_order_id`.
    pub fn create_new_account(&mut self, next_order_id: u32) -> (account_id: u32)
        requires
            old(self).wf_base(),
            old(self)@.count() < pow2(old(self)@.account_levels),
        ensures
            final(self).wf_base(),
            final(self)@ == old(self)@.create_new_account(next_order_id),
            account_id == old(self)@.count(),
            old(self).wf() ==> final(self).wf(),
    {
        let ghost before = old(self)@;
        let ghost n = before.count();
        proof {
            lemma_pow2_fits(before.account_levels);
            lemma_pow2_fits(before.order_levels);
            lemma_pow2_fits(before.balance_levels);
        }
        let account_id = table_len(&self.balance_trees) as u32;
        let account_state = AccountState::empty(self.default_balance_root, self.default_order_root);
        table_insert(&mut self.accounts, account_id, account_state);
        table_insert(
            &mut self.balance_trees,
            account_id,
            Tree::new(&self.hasher, self.balance_levels, Fr::zero()),
        );
        table_insert(
            &mut self.order_trees,
            account_id,
            Tree::new(&self.hasher, self.order_levels, self.default_order_leaf),
        );
        table_insert(&mut self.order_map, account_id, BTreeMap::<u32, Order>::new());
        self.account_tree.set_value(&self.hasher, account_id, self.default_account_leaf);
        table_insert(&mut self.next_order_idxs, account_id, next_order_id);
        proof {
            let after = before.create_new_account(next_order_id);
            lemma_dense_insert(old(self).accounts@.dom(), n);
            lemma_dense_insert(old(self).balance_trees@.dom(), n);
            lemma_dense_insert(old(self).order_trees@.dom(), n);
            lemma_dense_insert(old(self).order_map@.dom(), n);
            lemma_dense_insert(old(self).next_order_idxs@.dom(), n);
            assert(self@.accounts =~= after.accounts);
            assert(self@.balances =~= after.balances);
            assert(self@.orders =~= after.orders);
            assert(self@.next_order_idx =~= after.next_order_idx);
            assert(self@ == after);
            assert(self.account_tree@ =~= after.account_leaves());
            assert(order_leaves_of(Map::<u32, Order>::empty(), before.order_levels)
                =~= uniform_leaves(before.order_levels, default_order_leaf()));
            lemma_create_new_account(before, next_order_id);
        }
        account_id
    }

    /// Writes one leaf of an account's balance tree and leaves the account's state as it is.
    fn write_balance_leaf(&mut self, account_id: u32, token_id: u32, balance: Fr)
        requires
            old(self).wf_base(),
            old(self)@.has_slot(account_id as int, token_id as int),
        ensures
            final(self).wf_base(),
            final(self)@ == old(self)@.with_balance_leaf(account_id as int, token_id as int, balance),
    {
        let ghost before = old(self)@;
        proof {
            lemma_pow2_fits(before.account_levels);
        }
        let tree = table_get_mut(&mut self.balance_trees, &account_id).unwrap();
        tree.set_value(&self.hasher, token_id, balance);
        proof {
            let after = before.with_balance_leaf(account_id as int, token_id as int, balance);
            assert(self.balance_trees@.dom() =~= old(self).balance_trees@.dom());
            assert(self@.balances =~= after.balances);
            assert(self@ == after);
            lemma_with_balance_leaf(before, account_id as int, token_id as int, balance);
        }
    }

    /// Sets the balance of an account in a token.
    pub fn set_token_balance(&mut self, account_id: u32, token_id: u32, balance: Fr)
        requires
            old(self).wf_base(),
            old(self)@.has_slot(account_id as int, token_id as int),
        ensures
            final(self).wf_base(),
            final(self)@ == old(self)@.set_token_balance(account_id as int, token_id as int, balance),
            old(self).wf() ==> final(self).wf(),
    {
        proof {
            lemma_set_token_balance(self@, account_id as int, token_id as int, balance);
        }
        self.write_balance_leaf(account_id, token_id, balance);
        self.recalculate_from_balance_tree(account_id);
    }
    /// Whether an order with this id is recorded for the account.
    pub fn has_order(&self, account_id: u32, order_id: u32) -> (r: bool)
        requires
            self.wf_base(),
        ensures
            r == self@.order_pos.contains_key((account_id, order_id)),
    {
        table_contains(&self.order_id_to_pos, &pos_key(account_id, order_id))
    }

    /// The position of an order in the account's order tree.
    pub fn get_order_pos_by_id(&self, account_id: u32, order_id: u32) -> (r: u32)
        requires
            self.wf_base(),
            self@.order_pos.contains_key((account_id, order_id)),
        ensures
            r == self@.order_pos[(account_id, order_id)],
    {
        *table_get(&self.order_id_to_pos, &pos_key(account_id, order_id)).unwrap()
    }

    /// The order at a position of the account's order tree, if there is one.
    pub fn get_account_order_by_pos(&self, account_id: u32, order_pos: u32) -> (r: Option<Order>)
        requires
            self.wf_base(),
            account_id < self@.count(),
        ensures
            r == if self@.orders[account_id as int].contains_key(order_pos) {
                Some(self@.orders[account_id as int][order_pos])
            } else {
                None
            },
    {
        match table_get(&self.order_map, &account_id).unwrap().get(&order_pos) {
            Some(order) => Some(*order),
            None => None,
        }
    }

    /// The order with the given id.
    pub fn get_account_order_by_id(&self, account_id: u32, order_id: u32) -> (r: Option<Order>)
        requires
            self.wf_base(),
            self@.order_pos.contains_key((account_id, order_id)),
        ensures
            r == Some(
                self@.orders[account_id as int][self@.order_pos[(account_id, order_id)]],
            ),
    {
        let order_pos = self.get_order_pos_by_id(account_id, order_id);
        self.get_account_order_by_pos(account_id, order_pos)
    }

    /// Writes an order at a position of the account's order tree. The order that stood there
    /// is no longer found under its id.
    pub fn set_account_order(&mut self, account_id: u32, order_pos: u32, order: Order)
        requires
            old(self).wf_base(),
            old(self)@.can_set_order(account_id as int, order_pos, order),
        ensures
            final(self).wf_base(),
            final(self)@ == old(self)@.set_account_order(account_id as int, order_pos, order),
            old(self).wf() ==> final(self).wf(),
    {
        let ghost before = old(self)@;
        let ghost a = account_id as int;
        proof {
            lemma_pow2_fits(before.account_levels);
            lemma_pow2_fits(before.order_levels);
            lemma_set_account_order(before, a, order_pos, order);
        }
        let h = order.hash(&self.hasher);
        let tree = table_get_mut(&mut self.order_trees, &account_id).unwrap();
        tree.set_value(&self.hasher, order_pos, h);
        let orders = table_get_mut(&mut self.order_map, &account_id).unwrap();
        let previous = orders.insert(order_pos, order);
        match previous {
            Some(replaced) => {
                let replaced_id = replaced.order_id.to_u32().unwrap();
                table_remove(&mut self.order_id_to_pos, &pos_key(account_id, replaced_id));
            },
            None => {},
        }
        let order_id = order.order_id.to_u32().unwrap();
        table_insert(&mut self.order_id_to_pos, pos_key(account_id, order_id), order_pos);
        proof {
            let mid = Ledger {
                orders: before.orders.update(a, before.orders[a].insert(order_pos, order)),
                order_pos: before.index_after(a, order_pos, order),
                ..before
            };
            assert(self.order_trees@.dom() =~= old(self).order_trees@.dom());
            assert(self.order_map@.dom() =~= old(self).order_map@.dom());
            assert(self@.orders =~= mid.orders);
            assert(self@.order_pos =~= mid.order_pos);
            assert(self@ == mid);
            assert(order_leaves_of(mid.orders[a], mid.order_levels) =~= order_leaves_of(
                before.orders[a],
                before.order_levels,
            ).update(order_pos as int, h));
            assert(mid.refresh_order_root(a) == before.set_account_order(a, order_pos, order));
            assert(mid.wf_base()) by {
                let done = before.set_account_order(a, order_pos, order);
                assert(done.orders == mid.orders);
                assert(done.order_pos == mid.order_pos);
            }
        }
        self.recalculate_from_order_tree(account_id);
    }

    /// The slot that the next order of the account goes to, and whether an order stands there
    /// already, or nothing if every slot holds an order that is not filled.
    pub fn find_order_slot(&self, account_id: u32) -> (r: Option<(u32, bool)>)
        requires
            self.wf_base(),
            account_id < self@.count(),
        ensures
            match r {
                Some((pos, overwrite)) => self@.next_slot(account_id as int) == Some(pos)
                    && overwrite == self@.orders[account_id as int].contains_key(pos),
                None => self@.next_slot(account_id as int) is None,
            },
    {
        let ghost l = self@;
        let ghost a = account_id as int;
        proof {
            lemma_pow2_fits(l.order_levels);
        }
        let cur_idx = *table_get(&self.next_order_idxs, &account_id).unwrap();
        let leaf_num = table_get(&self.order_trees, &account_id).unwrap().max_leaf_num();
        let mut offset: u32 = 0;
        while offset < leaf_num
            invariant
                self.wf_base(),
                l == self@,
                a == account_id as int,
                account_id < l.count(),
                leaf_num == l.max_orders(),
                0 < leaf_num <= 0x8000_0000,
                cur_idx == l.next_order_idx[a],
                offset <= leaf_num,
                l.scan_from(a, offset as nat) == l.next_slot(a),
            decreases leaf_num - offset,
        {
            let order_idx = ((cur_idx as u64 + offset as u64) % (leaf_num as u64)) as u32;
            assert(order_idx == l.slot_at(a, offset as nat));
            match self.get_account_order_by_pos(account_id, order_idx) {
                None => {
                    return Some((order_idx, false));
                },
                Some(order) => {
                    if order.is_filled() {
                        return Some((order_idx, true));
                    }
                },
            }
            offset = offset + 1;
        }
        None
    }

    /// The slot that the next order of the account goes to, and whether an order stands there
    /// already.
    fn get_next_order_idx_for_user(&self, account_id: u32) -> (r: (u32, bool))
        requires
            self.wf_base(),
            account_id < self@.count(),
            self@.next_slot(account_id as int) is Some,
        ensures
            self@.next_slot(account_id as int) == Some(r.0),
            r.1 == self@.orders[account_id as int].contains_key(r.0),
    {
        self.find_order_slot(account_id).unwrap()
    }

    /// Places the order of `tx` in the next free slot of its account. Returns the slot and the
    /// order that stood there, or the order of zeros where the slot was empty.
    pub fn create_new_order(&mut self, tx: &PlaceOrderTx) -> (r: (u32, Order))
        requires
            old(self).wf_base(),
            tx.account_id < old(self)@.count(),
            old(self)@.next_slot(tx.account_id as int) is Some,
            old(self)@.can_set_order(
                tx.account_id as int,
                old(self)@.next_slot(tx.account_id as int).unwrap(),
                placed_order(*tx),
            ),
        ensures
            final(self).wf_base(),
            old(self)@.next_slot(tx.account_id as int) == Some(r.0),
            r.1 == old(self)@.order_or_zero(tx.account_id as int, r.0),
            final(self)@ == old(self)@.create_order_at(*tx, r.0),
            old(self).wf() ==> final(self).wf(),
    {
        let ghost before = old(self)@;
        let ghost a = tx.account_id as int;
        proof {
            lemma_pow2_fits(before.order_levels);
            lemma_pow2_fits(before.account_levels);
        }
        let (order_pos, _is_overwrite) = self.get_next_order_idx_for_user(tx.account_id);
        let old_order = match self.get_account_order_by_pos(tx.account_id, order_pos) {
            Some(order) => order,
            None => Order::default(),
        };
        let order = Order {
            order_id: Fr::from_u32(tx.order_id),
            tokenbuy: Fr::from_u32(tx.token_id_buy),
            tokensell: Fr::from_u32(tx.token_id_sell),
            filled_sell: Fr::zero(),
            filled_buy: Fr::zero(),
            total_sell: tx.amount_sell,
            total_buy: tx.amount_buy,
        };
        assert(order == placed_order(*tx));
        self.set_account_order(tx.account_id, order_pos, order);
        let ghost mid = self@;
        let next_order_idx = (order_pos + 1) % self.max_order_num_per_user;
        table_insert(&mut self.next_order_idxs, tx.account_id, next_order_idx);
        proof {
            let after = before.create_order_at(*tx, order_pos);
            assert(self.next_order_idxs@.dom() =~= old(self).next_order_idxs@.dom());
            assert(self@.next_order_idx =~= after.next_order_idx);
            assert(self@ == after);
            lemma_create_order_at(before, *tx, order_pos);
        }
        (order_pos, old_order)
    }

    /// The path of the first leaf of an order tree of zeros.
    pub fn trivial_order_path_elements(&self) -> (r: Vec<[Fr; 1]>)
        requires
            self.wf_base(),
        ensures
            path_view(r@) == self@.trivial_order_path(),
    {
        proof {
            lemma_pow2_fits(self@.order_levels);
        }
        Tree::new(&self.hasher, self.order_levels, Fr::zero()).get_proof(0).path_elements
    }

    /// The proof of one balance: taken from the trees as they are now.
    pub fn state_proof(&self, account_id: u32, token_id: u32) -> (r: StateProof)
        requires
            self.wf_base(),
            self@.has_slot(account_id as int, token_id as int),
        ensures
            r@ == self@.state_proof(account_id as int, token_id as int),
    {
        proof {
            lemma_pow2_fits(self@.account_levels);
        }
        let balance_proof = table_get(&self.balance_trees, &account_id).unwrap().get_proof(token_id);
        let order_root = table_get(&self.order_trees, &account_id).unwrap().get_root();
        let account_proof = self.account_tree.get_proof(account_id);
        StateProof {
            leaf: balance_proof.leaf,
            root: account_proof.root,
            balance_root: balance_proof.root,
            order_root,
            balance_path: balance_proof.path_elements,
            account_path: account_proof.path_elements,
        }
    }

    /// The path of an order slot and the root of the account's order tree.
    fn order_proof(&self, account_id: u32, order_pos: u32) -> (r: MerkleProof)
        requires
            self.wf_base(),
            account_id < self@.count(),
            order_pos < pow2(self@.order_levels),
        ensures
            path_view(r.path_elements@) == self@.order_path(account_id as int, order_pos),
            r.root == self@.order_root(account_id as int),
    {
        table_get(&self.order_trees, &account_id).unwrap().get_proof(order_pos)
    }
    /// The number of transactions in a block.
    pub fn n_tx(&self) -> (n: usize)
        ensures
            n == self@.n_tx,
    {
        self.n_tx
    }

    /// Whether the program around the engine is to report what is done. The engine itself
    /// reports nothing.
    pub fn verbose(&self) -> (r: bool)
        ensures
            r == self@.verbose,
    {
        self.verbose
    }

    /// The number of transactions buffered so far.
    pub fn buffered_tx_count(&self) -> (n: usize)
        ensures
            n == self@.txs.len(),
    {
        self.buffered_txs.len()
    }

    /// The witnesses buffered so far.
    pub fn get_buffered_txs(&self) -> (r: &[RawTx])
        ensures
            txs_view(r@) == self@.txs,
    {
        self.buffered_txs.as_slice()
    }

    /// The block that holds the given witnesses, field by field.
    pub fn forge_with_txs(&self, buffered_txs: &[RawTx]) -> (block: L2Block)
        requires
            buffered_txs@.len() == self@.n_tx,
        ensures
            block.wf(),
            block@ == txs_view(buffered_txs@),
    {
        let n = buffered_txs.len();
        let mut block = L2Block {
            txs_type: Vec::new(),
            encoded_txs: Vec::new(),
            balance_path_elements: Vec::new(),
            order_path_elements: Vec::new(),
            account_path_elements: Vec::new(),
            order_roots: Vec::new(),
            old_account_roots: Vec::new(),
            new_account_roots: Vec::new(),
        };
        let mut i: usize = 0;
        while i < n
            invariant
                n == buffered_txs@.len(),
                i <= n,
                block.wf(),
                block.txs_type@.len() == i,
                forall|k: int| 0 <= k < i ==> #[trigger] block.tx_at(k) == buffered_txs@[k]@,
            decreases n - i,
        {
            let ghost prev = block;
            let tx = &buffered_txs[i];
            block.txs_type.push(tx.tx_type);
            block.encoded_txs.push(copy_elements(&tx.payload));
            block.balance_path_elements.push(
                [
                    copy_path(&tx.balance_path0),
                    copy_path(&tx.balance_path1),
                    copy_path(&tx.balance_path2),
                    copy_path(&tx.balance_path3),
                ],
            );
            block.order_path_elements.push([copy_path(&tx.order_path0), copy_path(&tx.order_path1)]);
            block.order_roots.push([tx.order_root0, tx.order_root1]);
            block.account_path_elements.push(
                [copy_path(&tx.account_path0), copy_path(&tx.account_path1)],
            );
            block.old_account_roots.push(tx.root_before);
            block.new_account_roots.push(tx.root_after);
            proof {
                assert forall|k: int| 0 <= k < i + 1 implies #[trigger] block.tx_at(k)
                    == buffered_txs@[k]@ by {
                    if k < i {
                        assert(prev.tx_at(k) == buffered_txs@[k]@);
                        assert(block.tx_at(k) == prev.tx_at(k));
                    }
                }
            }
            i = i + 1;
        }
        assert(block@ =~= txs_view(buffered_txs@));
        block
    }

    /// Appends a witness to the buffer, and forges a block from the last `n_tx` witnesses
    /// whenever the buffer holds a full group.
    pub fn add_raw_tx(&mut self, raw_tx: RawTx)
        requires
            old(self).wf_base(),
        ensures
            final(self).wf_base(),
            final(self)@ == old(self)@.push_tx(raw_tx@),
            old(self).wf() ==> final(self).wf(),
    {
        let ghost before = old(self)@;
        proof {
            lemma_push_tx(before, raw_tx@);
        }
        self.buffered_txs.push(raw_tx);
        assert(txs_view(self.buffered_txs@) =~= before.txs.push(raw_tx@));
        let len = self.buffered_txs.len();
        if len % self.n_tx == 0 {
            proof {
                if len < self.n_tx {
                    vstd::arithmetic::div_mod::lemma_small_mod(len as nat, self.n_tx as nat);
                }
            }
            let txs = slice_subrange(self.buffered_txs.as_slice(), len - self.n_tx, len);
            let block = self.forge_with_txs(txs);
            assert(block@ =~= before.txs.push(raw_tx@).subrange(len - self.n_tx, len as int));
            self.buffered_blocks.push(block);
            assert(blocks_view(self.buffered_blocks@) =~= before.blocks.push(block@));
        }
        assert(self@ == before.push_tx(raw_tx@));
    }

    /// The blocks forged so far.
    pub fn get_buffered_blocks(&self) -> (r: &[L2Block])
        requires
            self.wf_base(),
        ensures
            blocks_view(r@) == self@.blocks,
            forall|i: int| 0 <= i < r@.len() ==> (#[trigger] r@[i]).wf(),
    {
        self.buffered_blocks.as_slice()
    }

    /// Hands out the blocks forged so far.
    pub fn take_blocks(self) -> (r: Vec<L2Block>)
        requires
            self.wf_base(),
        ensures
            blocks_view(r@) == self@.blocks,
            forall|i: int| 0 <= i < r@.len() ==> (#[trigger] r@[i]).wf(),
    {
        self.buffered_blocks
    }

    /// Copies of the blocks forged so far.
    pub fn forge_all_l2_blocks(&mut self) -> (r: Vec<L2Block>)
        requires
            old(self).wf_base(),
        ensures
            *final(self) == *old(self),
            blocks_view(r@) == old(self)@.blocks,
            forall|i: int| 0 <= i < r@.len() ==> (#[trigger] r@[i]).wf(),
    {
        let mut r: Vec<L2Block> = Vec::new();
        let mut i: usize = 0;
        while i < self.buffered_blocks.len()
            invariant
                *self == *old(self),
                self.wf_base(),
                i <= self.buffered_blocks@.len(),
                r@.len() == i,
                forall|k: int| 0 <= k < i ==> (#[trigger] r@[k]).wf(),
                forall|k: int| 0 <= k < i ==> (#[trigger] r@[k])@ == self.buffered_blocks@[k]@,
            decreases self.buffered_blocks@.len() - i,
        {
            r.push(self.buffered_blocks[i].copy());
            i = i + 1;
        }
        assert(blocks_view(r@) =~= self@.blocks);
        r
    }
    /// Adds `tx.amount` to a balance of an account that exists, and buffers the witness.
    pub fn deposit_to_old(&mut self, tx: DepositToOldTx)
        requires
            old(self).wf(),
            old(self)@.can_deposit(tx),
        ensures
            final(self).wf(),
            final(self)@ == old(self)@.deposit_to_old(tx),
    {
        let ghost before = old(self)@;
        let proof = self.state_proof(tx.account_id, tx.token_id);
        let mut encoded_tx = zero_payload_vec();
        encoded_tx.set(tx_detail_idx::TOKEN_ID, Fr::from_u32(tx.token_id));
        encoded_tx.set(tx_detail_idx::AMOUNT, tx.amount);
        encoded_tx.set(tx_detail_idx::ACCOUNT_ID2, Fr::from_u32(tx.account_id));
        let old_balance = self.get_token_balance(tx.account_id, tx.token_id);
        encoded_tx.set(tx_detail_idx::BALANCE2, old_balance);
        let acc = self.get_account(tx.account_id);
        encoded_tx.set(tx_detail_idx::NONCE2, acc.nonce);
        encoded_tx.set(tx_detail_idx::ETH_ADDR2, acc.eth_addr);
        encoded_tx.set(tx_detail_idx::SIGN2, acc.sign);
        encoded_tx.set(tx_detail_idx::AY2, acc.ay);
        let mut raw_tx = RawTx {
            tx_type: TxType::DepositToOld,
            payload: encoded_tx,
            balance_path0: copy_path(&proof.balance_path),
            balance_path1: copy_path(&proof.balance_path),
            balance_path2: copy_path(&proof.balance_path),
            balance_path3: proof.balance_path,
            order_path0: self.trivial_order_path_elements(),
            order_path1: self.trivial_order_path_elements(),
            order_root0: acc.order_root,
            order_root1: acc.order_root,
            account_path0: copy_path(&proof.account_path),
            account_path1: proof.account_path,
            root_before: proof.root,
            root_after: Fr::zero(),
        };
        let balance = old_balance.add(&tx.amount);
        self.set_token_balance(tx.account_id, tx.token_id, balance);
        raw_tx.root_after = self.root();
        assert(raw_tx@ == before.deposit_witness(tx));
        self.add_raw_tx(raw_tx);
    }

    /// Buffers the witness of a transaction that changes nothing.
    pub fn nop(&mut self)
        requires
            old(self).wf(),
            old(self)@.count() > 0,
        ensures
            final(self).wf(),
            final(self)@ == old(self)@.nop(),
    {
        proof {
            lemma_pow2_pos(self@.balance_levels);
        }
        let trivial_proof = self.state_proof(0, 0);
        let raw_tx = RawTx {
            tx_type: TxType::Nop,
            payload: zero_payload_vec(),
            balance_path0: copy_path(&trivial_proof.balance_path),
            balance_path1: copy_path(&trivial_proof.balance_path),
            balance_path2: copy_path(&trivial_proof.balance_path),
            balance_path3: trivial_proof.balance_path,
            order_path0: self.trivial_order_path_elements(),
            order_path1: self.trivial_order_path_elements(),
            order_root0: trivial_proof.order_root,
            order_root1: trivial_proof.order_root,
            account_path0: copy_path(&trivial_proof.account_path),
            account_path1: trivial_proof.account_path,
            root_before: self.root(),
            root_after: self.root(),
        };
        assert(raw_tx@ == self@.nop_witness());
        self.add_raw_tx(raw_tx);
    }

    /// Buffers transactions that change nothing until the buffer holds full blocks only.
    pub fn flush_with_nop(&mut self)
        requires
            old(self).wf(),
            old(self)@.count() > 0 || old(self)@.txs.len() % old(self)@.n_tx == 0,
        ensures
            final(self).wf(),
            final(self)@ == old(self)@.flush_with_nop(),
            final(self)@.txs.len() % final(self)@.n_tx == 0,
    {
        while self.buffered_txs.len() % self.n_tx != 0
            invariant
                self.wf(),
                self@.n_tx > 0,
                self@.count() > 0 || self@.txs.len() % self@.n_tx == 0,
                self@.flush_with_nop() == old(self)@.flush_with_nop(),
            decreases self@.missing(),
        {
            proof {
                lemma_flush_step(self@);
            }
            self.nop();
        }
        proof {
            lemma_flush_aligned(self@);
        }
    }

    /// Fills the buffer up to a full block and returns the block that holds all of it. The
    /// buffer must hold at least one transaction, and at most `n_tx`.
    pub fn forge(&mut self) -> (block: L2Block)
        requires
            old(self).wf(),
            old(self)@.count() > 0 || old(self)@.txs.len() % old(self)@.n_tx == 0,
            0 < old(self)@.txs.len() <= old(self)@.n_tx,
        ensures
            final(self).wf(),
            final(self)@ == old(self)@.flush_with_nop(),
            block.wf(),
            block@ == final(self)@.txs,
    {
        proof {
            lemma_flush_length(self@);
            lemma_flush_aligns(self@);
        }
        self.flush_with_nop();
        self.forge_with_txs(self.buffered_txs.as_slice())
    }
    /// The path of a token in the account's balance tree, as the tree is now.
    fn balance_path(&self, account_id: u32, token_id: u32) -> (r: Vec<[Fr; 1]>)
        requires
            self.wf_base(),
            self@.has_slot(account_id as int, token_id as int),
        ensures
            path_view(r@) == path_of(
                self@.balances[account_id as int],
                self@.balance_levels,
                token_id as int,
            ),
    {
        table_get(&self.balance_trees, &account_id).unwrap().get_proof(token_id).path_elements
    }

    /// The path of an account in the account tree, as the tree is now.
    fn account_path(&self, account_id: u32) -> (r: Vec<[Fr; 1]>)
        requires
            self.wf_base(),
            account_id < self@.count(),
        ensures
            path_view(r@) == path_of(
                self@.account_leaves(),
                self@.account_levels,
                account_id as int,
            ),
    {
        proof {
            lemma_pow2_fits(self@.account_levels);
        }
        self.account_tree.get_proof(account_id).path_elements
    }

    /// Places an order in the next free slot of its account, buffers the witness and returns
    /// the slot.
    pub fn place_order(&mut self, tx: PlaceOrderTx) -> (order_pos: u32)
        requires
            old(self).wf(),
            old(self)@.can_place_order(tx),
        ensures
            final(self).wf(),
            old(self)@.next_slot(tx.account_id as int) == Some(order_pos),
            final(self)@ == old(self)@.place_order(tx),
    {
        let ghost before = old(self)@;
        proof {
            lemma_place_order(before, tx);
        }
        let account = self.get_account(tx.account_id);
        let proof = self.state_proof(tx.account_id, tx.token_id_sell);
        let mut raw_tx = RawTx {
            tx_type: TxType::PlaceOrder,
            payload: Vec::new(),
            balance_path0: copy_path(&proof.balance_path),
            balance_path1: copy_path(&proof.balance_path),
            balance_path2: copy_path(&proof.balance_path),
            balance_path3: proof.balance_path,
            order_path0: Vec::new(),
            order_path1: self.trivial_order_path_elements(),
            order_root0: account.order_root,
            order_root1: Fr::zero(),
            account_path0: copy_path(&proof.account_path),
            account_path1: proof.account_path,
            root_before: self.root(),
            root_after: Fr::zero(),
        };
        let (order_pos, old_order) = self.create_new_order(&tx);
        let tx_data = PlaceOrderTxData {
            order_pos: Fr::from_u32(order_pos),
            old_order_id: old_order.order_id,
            new_order_id: Fr::from_u32(tx.order_id),
            old_order_tokensell: old_order.tokensell,
            old_order_filledsell: old_order.filled_sell,
            old_order_amountsell: old_order.total_sell,
            old_order_tokenbuy: old_order.tokenbuy,
            old_order_filledbuy: old_order.filled_buy,
            old_order_amountbuy: old_order.total_buy,
            new_order_tokensell: Fr::from_u32(tx.token_id_sell),
            new_order_amountsell: tx.amount_sell,
            new_order_tokenbuy: Fr::from_u32(tx.token_id_buy),
            new_order_amountbuy: tx.amount_buy,
            account_id: Fr::from_u32(tx.account_id),
            balance: proof.leaf,
            nonce: account.nonce,
            sign: account.sign,
            ay: account.ay,
            eth_addr: account.eth_addr,
        };
        assert(tx_data == before.place_order_data(tx, order_pos));
        raw_tx.payload = tx_data.encode();
        let order_proof = self.order_proof(tx.account_id, order_pos);
        raw_tx.order_path0 = order_proof.path_elements;
        raw_tx.order_root1 = order_proof.root;
        raw_tx.root_after = self.root();
        assert(raw_tx@ == before.place_order_witness(tx));
        self.add_raw_tx(raw_tx);
        order_pos
    }

    /// Trades between two placed orders and buffers the witness. Each seller must hold more
    /// than it sends.
    pub fn spot_trade(&mut self, tx: SpotTradeTx)
        requires
            old(self).wf(),
            old(self)@.can_spot_trade(tx),
        ensures
            final(self).wf(),
            final(self)@ == old(self)@.spot_trade(tx),
    {
        let ghost before = old(self)@;
        proof {
            lemma_spot_trade(before, tx);
        }
        let account1 = self.get_account(tx.order1_account_id);
        let account2 = self.get_account(tx.order2_account_id);
        let proof_order1_seller = self.state_proof(tx.order1_account_id, tx.token_id_1to2);
        let proof_order2_seller = self.state_proof(tx.order2_account_id, tx.token_id_2to1);
        let order1_pos = self.get_order_pos_by_id(tx.order1_account_id, tx.order1_id);
        let order2_pos = self.get_order_pos_by_id(tx.order2_account_id, tx.order2_id);
        let order1 = self.get_account_order_by_pos(tx.order1_account_id, order1_pos).unwrap();
        let order2 = self.get_account_order_by_pos(tx.order2_account_id, order2_pos).unwrap();
        let mut encoded_tx = zero_payload_vec();
        encoded_tx.set(tx_detail_idx::ACCOUNT_ID1, Fr::from_u32(tx.order1_account_id));
        encoded_tx.set(tx_detail_idx::ACCOUNT_ID2, Fr::from_u32(tx.order2_account_id));
        encoded_tx.set(tx_detail_idx::ETH_ADDR1, account1.eth_addr);
        encoded_tx.set(tx_detail_idx::ETH_ADDR2, account2.eth_addr);
        encoded_tx.set(tx_detail_idx::SIGN1, account1.sign);
        encoded_tx.set(tx_detail_idx::SIGN2, account2.sign);
        encoded_tx.set(tx_detail_idx::AY1, account1.ay);
        encoded_tx.set(tx_detail_idx::AY2, account2.ay);
        encoded_tx.set(tx_detail_idx::NONCE1, account1.nonce);
        encoded_tx.set(tx_detail_idx::NONCE2, account2.nonce);
        let account1_balance_sell = self.get_token_balance(tx.order1_account_id, tx.token_id_1to2);
        let account2_balance_buy = self.get_token_balance(tx.order2_account_id, tx.token_id_1to2);
        let account2_balance_sell = self.get_token_balance(tx.order2_account_id, tx.token_id_2to1);
        let account1_balance_buy = self.get_token_balance(tx.order1_account_id, tx.token_id_2to1);
        encoded_tx.set(tx_detail_idx::TOKEN_ID, Fr::from_u32(tx.token_id_1to2));
        encoded_tx.set(tx_detail_idx::AMOUNT, tx.amount_1to2);
        encoded_tx.set(tx_detail_idx::BALANCE1, account1_balance_sell);
        encoded_tx.set(tx_detail_idx::BALANCE2, account2_balance_buy);
        encoded_tx.set(tx_detail_idx::BALANCE3, account2_balance_sell);
        encoded_tx.set(tx_detail_idx::BALANCE4, account1_balance_buy);
        encoded_tx.set(tx_detail_idx::TOKEN_ID2, Fr::from_u32(tx.token_id_2to1));
        encoded_tx.set(tx_detail_idx::AMOUNT2, tx.amount_2to1);
        encoded_tx.set(tx_detail_idx::TOKEN_ID3, Fr::from_u32(order1_pos));
        encoded_tx.set(tx_detail_idx::ORDER1_ID, Fr::from_u32(tx.order1_id));
        encoded_tx.set(tx_detail_idx::ORDER1_AMOUNT_SELL, order1.total_sell);
        encoded_tx.set(tx_detail_idx::ORDER1_AMOUNT_BUY, order1.total_buy);
        encoded_tx.set(tx_detail_idx::ORDER1_FILLED_SELL, order1.filled_sell);
        encoded_tx.set(tx_detail_idx::ORDER1_FILLED_BUY, order1.filled_buy);
        encoded_tx.set(tx_detail_idx::TOKEN_ID4, Fr::from_u32(order2_pos));
        encoded_tx.set(tx_detail_idx::ORDER2_ID, Fr::from_u32(tx.order2_id));
        encoded_tx.set(tx_detail_idx::ORDER2_AMOUNT_SELL, order2.total_sell);
        encoded_tx.set(tx_detail_idx::ORDER2_AMOUNT_BUY, order2.total_buy);
        encoded_tx.set(tx_detail_idx::ORDER2_FILLED_SELL, order2.filled_sell);
        encoded_tx.set(tx_detail_idx::ORDER2_FILLED_BUY, order2.filled_buy);
        assert(encoded_tx@ == before.spot_trade_payload(tx));
        let mut raw_tx = RawTx {
            tx_type: TxType::SpotTrade,
            payload: encoded_tx,
            balance_path0: proof_order1_seller.balance_path,
            balance_path1: Vec::new(),
            balance_path2: proof_order2_seller.balance_path,
            balance_path3: Vec::new(),
            order_path0: self.order_proof(tx.order1_account_id, order1_pos).path_elements,
            order_path1: self.order_proof(tx.order2_account_id, order2_pos).path_elements,
            order_root0: account1.order_root,
            order_root1: account2.order_root,
            account_path0: proof_order1_seller.account_path,
            account_path1: Vec::new(),
            root_before: self.root(),
            root_after: Fr::zero(),
        };
        // the maker sends
        let balance1 = account1_balance_sell.sub(&tx.amount_1to2);
        self.write_balance_leaf(tx.order1_account_id, tx.token_id_1to2, balance1);
        assert(self@ == before.trade_step1(tx));
        raw_tx.balance_path3 = self.balance_path(tx.order1_account_id, tx.token_id_2to1);
        // the taker sends
        let balance2 = account2_balance_sell.sub(&tx.amount_2to1);
        self.write_balance_leaf(tx.order2_account_id, tx.token_id_2to1, balance2);
        assert(self@ == before.trade_step2(tx));
        raw_tx.balance_path1 = self.balance_path(tx.order2_account_id, tx.token_id_1to2);
        // the maker's order is filled further, and the maker receives
        let new_order1 = Order {
            order_id: order1.order_id,
            tokenbuy: Fr::from_u32(tx.token_id_2to1),
            tokensell: Fr::from_u32(tx.token_id_1to2),
            filled_sell: order1.filled_sell.add(&tx.amount_1to2),
            filled_buy: order1.filled_buy.add(&tx.amount_2to1),
            total_sell: order1.total_sell,
            total_buy: order1.total_buy,
        };
        self.set_account_order(tx.order1_account_id, order1_pos, new_order1);
        assert(self@ == before.trade_step3(tx));
        let account1_balance_buy = account1_balance_buy.add(&tx.amount_2to1);
        self.set_token_balance(tx.order1_account_id, tx.token_id_2to1, account1_balance_buy);
        assert(self@ == before.trade_step4(tx));
        raw_tx.account_path1 = self.account_path(tx.order2_account_id);
        // the taker's order is filled further, and the taker receives
        let new_order2 = Order {
            order_id: order2.order_id,
            tokenbuy: Fr::from_u32(tx.token_id_1to2),
            tokensell: Fr::from_u32(tx.token_id_2to1),
            filled_sell: order2.filled_sell.add(&tx.amount_2to1),
            filled_buy: order2.filled_buy.add(&tx.amount_1to2),
            total_sell: order2.total_sell,
            total_buy: order2.total_buy,
        };
        self.set_account_order(tx.order2_account_id, order2_pos, new_order2);
        assert(self@ == before.trade_step5(tx));
        let account2_balance_buy = account2_balance_buy.add(&tx.amount_1to2);
        self.set_token_balance(tx.order2_account_id, tx.token_id_1to2, account2_balance_buy);
        assert(self@ == before.spot_trade_applied(tx));
        raw_tx.root_after = self.root();
        assert(raw_tx@ == before.spot_trade_witness(tx));
        self.add_raw_tx(raw_tx);
        proof {
            self.lemma_wf();
        }
    }
}

} // verus!
