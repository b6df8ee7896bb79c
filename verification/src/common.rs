//! The records of the ledger: orders, account states, transactions and their witnesses.

use crate::field::hash_spec;
use crate::field::Fr;
use crate::field::Hasher;
use crate::merkle::path_view;
use vstd::prelude::*;

verus! {

/// The length of a transaction's payload.
pub const TX_LENGTH: usize = 34;

/// The kinds of transaction that a block can hold.
#[derive(Clone, Copy, Debug, PartialEq, Eq, Structural)]
pub enum TxType {
    DepositToNew,
    DepositToOld,
    Transfer,
    Withdraw,
    PlaceOrder,
    SpotTrade,
    Nop,
}

impl TxType {
    /// The number by which the circuit knows the kind of transaction.
    pub open spec fn code_spec(self) -> u32 {
        match self {
            TxType::DepositToNew => 0,
            TxType::DepositToOld => 1,
            TxType::Transfer => 2,
            TxType::Withdraw => 3,
            TxType::PlaceOrder => 4,
            TxType::SpotTrade => 5,
            TxType::Nop => 6,
        }
    }

    /// The number by which the circuit knows the kind of transaction.
    pub fn code(self) -> (r: u32)
        ensures
            r == self.code_spec(),
    {
        match self {
            TxType::DepositToNew => 0,
            TxType::DepositToOld => 1,
            TxType::Transfer => 2,
            TxType::Withdraw => 3,
            TxType::PlaceOrder => 4,
            TxType::SpotTrade => 5,
            TxType::Nop => 6,
        }
    }
}

/// An order as it is stored in an account's order tree.
#[derive(Clone, Copy, Debug, PartialEq, Eq, Structural)]
pub struct Order {
    pub order_id: Fr,
    pub tokenbuy: Fr,
    pub tokensell: Fr,
    pub filled_sell: Fr,
    pub filled_buy: Fr,
    pub total_sell: Fr,
    pub total_buy: Fr,
}

impl Order {
    /// The order whose fields are all zero: the content of a slot never written.
    pub open spec fn zero_spec() -> Order {
        Order {
            order_id: crate::field::fr_of(0),
            tokenbuy: crate::field::fr_of(0),
            tokensell: crate::field::fr_of(0),
            filled_sell: crate::field::fr_of(0),
            filled_buy: crate::field::fr_of(0),
            total_sell: crate::field::fr_of(0),
            total_buy: crate::field::fr_of(0),
        }
    }

    /// The inputs of the order's hash: its seven fields in a fixed order.
    pub open spec fn hash_inputs(&self) -> Seq<Fr> {
        seq![
            self.order_id,
            self.tokenbuy,
            self.tokensell,
            self.total_sell,
            self.total_buy,
            self.filled_sell,
            self.filled_buy,
        ]
    }

    /// The leaf that stands for the order in the order tree.
    pub open spec fn hash_spec(&self) -> Fr {
        hash_spec(self.hash_inputs())
    }

    /// An order is filled once it has sold all it offered.
    pub open spec fn is_filled_spec(&self) -> bool {
        self.filled_sell@ >= self.total_sell@
    }

    /// The leaf that stands for the order in the order tree.
    pub fn hash(&self, hasher: &Hasher) -> (r: Fr)
        ensures
            r == self.hash_spec(),
    {
        let mut v: Vec<Fr> = Vec::new();
        v.push(self.order_id);
        v.push(self.tokenbuy);
        v.push(self.tokensell);
        v.push(self.total_sell);
        v.push(self.total_buy);
        v.push(self.filled_sell);
        v.push(self.filled_buy);
        assert(v@ =~= self.hash_inputs());
        hasher.hash(&v)
    }

    /// Whether the order's slot may be given to another order.
    pub fn is_filled(&self) -> (r: bool)
        ensures
            r == self.is_filled_spec(),
    {
        self.filled_sell.ge(&self.total_sell)
    }
}

impl Default for Order {
    fn default() -> (r: Order)
        ensures
            r == Order::zero_spec(),
    {
        let z = Fr::zero();
        proof {
            crate::field::lemma_fr_of_view(z);
        }
        Order {
            order_id: z,
            tokenbuy: z,
            tokensell: z,
            filled_sell: z,
            filled_buy: z,
            total_sell: z,
            total_buy: z,
        }
    }
}

/// The state of an account as it is hashed into the account tree.
#[derive(Clone, Copy, Debug, PartialEq, Eq, Structural)]
pub struct AccountState {
    pub nonce: Fr,
    pub sign: Fr,
    pub ay: Fr,
    pub eth_addr: Fr,
    pub balance_root: Fr,
    pub order_root: Fr,
}

impl AccountState {
    /// The state of an account that holds nothing but the two roots.
    pub open spec fn empty_spec(balance_root: Fr, order_root: Fr) -> AccountState {
        AccountState {
            nonce: crate::field::fr_of(0),
            sign: crate::field::fr_of(0),
            ay: crate::field::fr_of(0),
            eth_addr: crate::field::fr_of(0),
            balance_root,
            order_root,
        }
    }

    /// The inputs of the account's hash: its six fields in a fixed order.
    pub open spec fn hash_inputs(&self) -> Seq<Fr> {
        seq![self.nonce, self.sign, self.ay, self.eth_addr, self.balance_root, self.order_root]
    }

    /// The leaf that stands for the account in the account tree.
    pub open spec fn hash_spec(&self) -> Fr {
        hash_spec(self.hash_inputs())
    }

    /// The state of an account that holds nothing but the two roots.
    pub fn empty(balance_root: Fr, order_root: Fr) -> (r: AccountState)
        ensures
            r == AccountState::empty_spec(balance_root, order_root),
    {
        let z = Fr::zero();
        proof {
            crate::field::lemma_fr_of_view(z);
        }
        AccountState { nonce: z, sign: z, ay: z, eth_addr: z, balance_root, order_root }
    }

    /// The leaf that stands for the account in the account tree.
    pub fn hash(&self, hasher: &Hasher) -> (r: Fr)
        ensures
            r == self.hash_spec(),
    {
        let mut v: Vec<Fr> = Vec::new();
        v.push(self.nonce);
        v.push(self.sign);
        v.push(self.ay);
        v.push(self.eth_addr);
        v.push(self.balance_root);
        v.push(self.order_root);
        assert(v@ =~= self.hash_inputs());
        hasher.hash(&v)
    }

    /// Sets the nonce.
    pub fn update_nonce(&mut self, nonce: Fr)
        ensures
            *final(self) == (AccountState { nonce, ..*old(self) }),
    {
        self.nonce = nonce;
    }

    /// Sets the order root.
    pub fn update_order_root(&mut self, order_root: Fr)
        ensures
            *final(self) == (AccountState { order_root, ..*old(self) }),
    {
        self.order_root = order_root;
    }
}

/// A deposit to an account that exists.
#[derive(Clone, Copy, Debug, PartialEq, Eq, Structural)]
pub struct DepositToOldTx {
    pub account_id: u32,
    pub token_id: u32,
    pub amount: Fr,
}

/// The placing of an order.
#[derive(Clone, Copy, Debug, PartialEq, Eq, Structural)]
pub struct PlaceOrderTx {
    pub order_id: u32,
    pub account_id: u32,
    pub token_id_sell: u32,
    pub token_id_buy: u32,
    pub amount_sell: Fr,
    pub amount_buy: Fr,
}

/// A trade between two placed orders. Order 1 is the maker's.
#[derive(Clone, Copy, Debug, PartialEq, Eq, Structural)]
pub struct SpotTradeTx {
    pub order1_account_id: u32,
    pub order2_account_id: u32,
    pub token_id_1to2: u32,
    pub token_id_2to1: u32,
    pub amount_1to2: Fr,
    pub amount_2to1: Fr,
    pub order1_id: u32,
    pub order2_id: u32,
}

/// The witness of one state transition.
pub struct RawTx {
    pub tx_type: TxType,
    pub payload: Vec<Fr>,
    pub balance_path0: Vec<[Fr; 1]>,
    pub balance_path1: Vec<[Fr; 1]>,
    pub balance_path2: Vec<[Fr; 1]>,
    pub balance_path3: Vec<[Fr; 1]>,
    pub order_path0: Vec<[Fr; 1]>,
    pub order_path1: Vec<[Fr; 1]>,
    pub order_root0: Fr,
    pub order_root1: Fr,
    pub account_path0: Vec<[Fr; 1]>,
    pub account_path1: Vec<[Fr; 1]>,
    pub root_before: Fr,
    pub root_after: Fr,
}

/// What a witness holds, as mathematical sequences.
pub struct RawTxView {
    pub tx_type: TxType,
    pub payload: Seq<Fr>,
    pub balance_path0: Seq<Fr>,
    pub balance_path1: Seq<Fr>,
    pub balance_path2: Seq<Fr>,
    pub balance_path3: Seq<Fr>,
    pub order_path0: Seq<Fr>,
    pub order_path1: Seq<Fr>,
    pub order_root0: Fr,
    pub order_root1: Fr,
    pub account_path0: Seq<Fr>,
    pub account_path1: Seq<Fr>,
    pub root_before: Fr,
    pub root_after: Fr,
}

impl View for RawTx {
    type V = RawTxView;

    open spec fn view(&self) -> RawTxView {
        RawTxView {
            tx_type: self.tx_type,
            payload: self.payload@,
            balance_path0: path_view(self.balance_path0@),
            balance_path1: path_view(self.balance_path1@),
            balance_path2: path_view(self.balance_path2@),
            balance_path3: path_view(self.balance_path3@),
            order_path0: path_view(self.order_path0@),
            order_path1: path_view(self.order_path1@),
            order_root0: self.order_root0,
            order_root1: self.order_root1,
            account_path0: path_view(self.account_path0@),
            account_path1: path_view(self.account_path1@),
            root_before: self.root_before,
            root_after: self.root_after,
        }
    }
}

/// The views of a list of witnesses.
pub open spec fn txs_view(txs: Seq<RawTx>) -> Seq<RawTxView> {
    Seq::new(txs.len(), |i: int| txs[i]@)
}

/// A copy of a list of field elements.
pub fn copy_elements(v: &Vec<Fr>) -> (r: Vec<Fr>)
    ensures
        r@ == v@,
{
    let mut r: Vec<Fr> = Vec::new();
    let mut i: usize = 0;
    while i < v.len()
        invariant
            i <= v.len(),
            r@ == v@.take(i as int),
        decreases v.len() - i,
    {
        r.push(v[i]);
        assert(r@ =~= v@.take(i + 1));
        i = i + 1;
    }
    assert(v@.take(v.len() as int) =~= v@);
    r
}

/// A copy of an authentication path.
pub fn copy_path(v: &Vec<[Fr; 1]>) -> (r: Vec<[Fr; 1]>)
    ensures
        r@ == v@,
{
    let mut r: Vec<[Fr; 1]> = Vec::new();
    let mut i: usize = 0;
    while i < v.len()
        invariant
            i <= v.len(),
            r@ == v@.take(i as int),
        decreases v.len() - i,
    {
        r.push(v[i]);
        assert(r@ =~= v@.take(i + 1));
        i = i + 1;
    }
    assert(v@.take(v.len() as int) =~= v@);
    r
}

/// A block: the witnesses of a fixed number of transactions, stored field by field.
pub struct L2Block {
    pub txs_type: Vec<TxType>,
    pub encoded_txs: Vec<Vec<Fr>>,
    pub balance_path_elements: Vec<[Vec<[Fr; 1]>; 4]>,
    pub order_path_elements: Vec<[Vec<[Fr; 1]>; 2]>,
    pub account_path_elements: Vec<[Vec<[Fr; 1]>; 2]>,
    pub order_roots: Vec<[Fr; 2]>,
    pub old_account_roots: Vec<Fr>,
    pub new_account_roots: Vec<Fr>,
}

impl L2Block {
    /// All fields hold one entry per transaction.
    pub open spec fn wf(&self) -> bool {
        let n = self.txs_type@.len();
        &&& self.encoded_txs@.len() == n
        &&& self.balance_path_elements@.len() == n
        &&& self.order_path_elements@.len() == n
        &&& self.account_path_elements@.len() == n
        &&& self.order_roots@.len() == n
        &&& self.old_account_roots@.len() == n
        &&& self.new_account_roots@.len() == n
    }

    /// The witness of the block's transaction number `i`, put together from the fields.
    pub open spec fn tx_at(&self, i: int) -> RawTxView {
        RawTxView {
            tx_type: self.txs_type@[i],
            payload: self.encoded_txs@[i]@,
            balance_path0: path_view(self.balance_path_elements@[i][0]@),
            balance_path1: path_view(self.balance_path_elements@[i][1]@),
            balance_path2: path_view(self.balance_path_elements@[i][2]@),
            balance_path3: path_view(self.balance_path_elements@[i][3]@),
            order_path0: path_view(self.order_path_elements@[i][0]@),
            order_path1: path_view(self.order_path_elements@[i][1]@),
            order_root0: self.order_roots@[i][0],
            order_root1: self.order_roots@[i][1],
            account_path0: path_view(self.account_path_elements@[i][0]@),
            account_path1: path_view(self.account_path_elements@[i][1]@),
            root_before: self.old_account_roots@[i],
            root_after: self.new_account_roots@[i],
        }
    }
}

impl L2Block {
    /// A copy of the block.
    pub fn copy(&self) -> (r: L2Block)
        requires
            self.wf(),
        ensures
            r.wf(),
            r@ == self@,
    {
        let n = self.txs_type.len();
        let mut r = L2Block {
            txs_type: Vec::new(),
            encoded_txs: Vec::new(),
            balance_path_elements: Vec::new(),
            order_path_elements: Vec::new(),
            account_path_elements: Vec::new(),
            order_roots: Vec::new(),
            old_account_roots: Vec::new(),
            new_account_roots: Vec::new(),
        };
        let mut i: usize = 0;
        while i < n
            invariant
                self.wf(),
                n == self.txs_type@.len(),
                i <= n,
                r.wf(),
                r.txs_type@.len() == i,
                forall|k: int| 0 <= k < i ==> #[trigger] r.tx_at(k) == self.tx_at(k),
            decreases n - i,
        {
            let ghost prev = r;
            r.txs_type.push(self.txs_type[i]);
            r.encoded_txs.push(copy_elements(&self.encoded_txs[i]));
            let b = &self.balance_path_elements[i];
            r.balance_path_elements.push(
                [copy_path(&b[0]), copy_path(&b[1]), copy_path(&b[2]), copy_path(&b[3])],
            );
            let o = &self.order_path_elements[i];
            r.order_path_elements.push([copy_path(&o[0]), copy_path(&o[1])]);
            let a = &self.account_path_elements[i];
            r.account_path_elements.push([copy_path(&a[0]), copy_path(&a[1])]);
            r.order_roots.push(self.order_roots[i]);
            r.old_account_roots.push(self.old_account_roots[i]);
            r.new_account_roots.push(self.new_account_roots[i]);
            proof {
                assert forall|k: int| 0 <= k < i + 1 implies #[trigger] r.tx_at(k) == self.tx_at(
                    k,
                ) by {
                    if k < i {
                        assert(prev.tx_at(k) == self.tx_at(k));
                        assert(r.tx_at(k) == prev.tx_at(k));
                    }
                }
            }
            i = i + 1;
        }
        assert(r@ =~= self@);
        r
    }
}

impl View for L2Block {
    type V = Seq<RawTxView>;

    /// The witnesses that the block holds, in order.
    open spec fn view(&self) -> Seq<RawTxView> {
        Seq::new(self.txs_type@.len(), |i: int| self.tx_at(i))
    }
}

/// The views of a list of blocks.
pub open spec fn blocks_view(blocks: Seq<L2Block>) -> Seq<Seq<RawTxView>> {
    Seq::new(blocks.len(), |i: int| blocks[i]@)
}

} // verus!
