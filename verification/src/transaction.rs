//! The record that every file format is read into and written from.

use vstd::prelude::*;

verus! {

/// Kind of a transaction.
#[derive(Debug, Clone, Copy, PartialEq, Eq, Structural)]
pub enum TransactionType {
    /// Money paid in.
    DEPOSIT,
    /// Money moved between two users.
    TRANSFER,
    /// Money taken out.
    WITHDRAWAL,
}

/// Outcome of a transaction.
#[derive(Debug, Clone, Copy, PartialEq, Eq, Structural)]
pub enum StatusType {
    /// Completed.
    SUCCESS,
    /// Failed.
    FAILURE,
    /// Not yet completed.
    PENDING,
}

/// A transaction as every format is read into. Every field is optional, so that
/// one damaged record does not stop the reading of a whole source.
#[derive(Debug, Clone, PartialEq, Eq)]
pub struct Transaction {
    /// Unique identifier.
    pub tx_id: Option<u64>,
    /// Kind of transaction.
    pub tx_type: Option<TransactionType>,
    /// Sender.
    pub from_user_id: Option<u64>,
    /// Receiver.
    pub to_user_id: Option<u64>,
    /// Amount.
    pub amount: Option<u64>,
    /// Time stamp.
    pub timestamp: Option<u64>,
    /// Status.
    pub status: Option<StatusType>,
    /// Free text.
    pub description: Option<String>,
}

/// The mathematical value of a [`Transaction`]: the description is taken by its characters.
pub struct TxView {
    pub tx_id: Option<u64>,
    pub tx_type: Option<TransactionType>,
    pub from_user_id: Option<u64>,
    pub to_user_id: Option<u64>,
    pub amount: Option<u64>,
    pub timestamp: Option<u64>,
    pub status: Option<StatusType>,
    pub description: Option<Seq<char>>,
}

/// The characters of an optional string.
pub open spec fn opt_string_view(s: Option<String>) -> Option<Seq<char>> {
    match s {
        Some(d) => Some(d@),
        None => None,
    }
}

impl View for Transaction {
    type V = TxView;

    open spec fn view(&self) -> TxView {
        TxView {
            tx_id: self.tx_id,
            tx_type: self.tx_type,
            from_user_id: self.from_user_id,
            to_user_id: self.to_user_id,
            amount: self.amount,
            timestamp: self.timestamp,
            status: self.status,
            description: opt_string_view(self.description),
        }
    }
}

/// The transaction with no field set.
pub open spec fn empty_tx() -> TxView {
    TxView {
        tx_id: None,
        tx_type: None,
        from_user_id: None,
        to_user_id: None,
        amount: None,
        timestamp: None,
        status: None,
        description: None,
    }
}

/// Every field is set.
pub open spec fn is_complete_spec(t: TxView) -> bool {
    &&& t.tx_id is Some
    &&& t.tx_type is Some
    &&& t.from_user_id is Some
    &&& t.to_user_id is Some
    &&& t.amount is Some
    &&& t.timestamp is Some
    &&& t.status is Some
    &&& t.description is Some
}

/// The views of a sequence of transactions.
pub open spec fn txs_view(v: Seq<Transaction>) -> Seq<TxView> {
    v.map_values(|t: Transaction| t@)
}

impl Transaction {
    /// A transaction with no field set.
    pub fn new() -> (t: Self)
        ensures
            t@ == empty_tx(),
    {
        Transaction {
            tx_id: None,
            tx_type: None,
            from_user_id: None,
            to_user_id: None,
            amount: None,
            timestamp: None,
            status: None,
            description: None,
        }
    }

    /// Whether every field of the transaction is set.
    pub fn is_complete(&self) -> (b: bool)
        ensures
            b == is_complete_spec(self@),
    {
        self.tx_id.is_some() && self.tx_type.is_some() && self.from_user_id.is_some()
            && self.to_user_id.is_some() && self.amount.is_some() && self.timestamp.is_some()
            && self.status.is_some() && self.description.is_some()
    }
}

/// Two optional strings hold the same characters, or are both absent.
fn opt_string_eq(a: &Option<String>, b: &Option<String>) -> (r: bool)
    ensures
        r == (opt_string_view(*a) == opt_string_view(*b)),
{
    match (a, b) {
        (Some(x), Some(y)) => x.eq(y),
        (None, None) => true,
        _ => false,
    }
}

/// Two transactions are equal field by field.
pub fn transaction_eq(a: &Transaction, b: &Transaction) -> (r: bool)
    ensures
        r == (a@ == b@),
{
    a.tx_id == b.tx_id && a.tx_type == b.tx_type && a.from_user_id == b.from_user_id
        && a.to_user_id == b.to_user_id && a.amount == b.amount && a.timestamp == b.timestamp
        && a.status == b.status && opt_string_eq(&a.description, &b.description)
}

/// Two lists of transactions are equal: same length, and equal at every position.
pub fn transactions_eq(a: &Vec<Transaction>, b: &Vec<Transaction>) -> (r: bool)
    ensures
        r == (txs_view(a@) == txs_view(b@)),
{
    if a.len() != b.len() {
        assert(txs_view(a@).len() != txs_view(b@).len());
        return false;
    }
    let mut i: usize = 0;
    while i < a.len()
        invariant
            a.len() == b.len(),
            0 <= i <= a.len(),
            forall|j: int| 0 <= j < i ==> a@[j]@ == b@[j]@,
        decreases a.len() - i,
    {
        if !transaction_eq(&a[i], &b[i]) {
            assert(txs_view(a@)[i as int] != txs_view(b@)[i as int]);
            return false;
        }
        i = i + 1;
    }
    assert(txs_view(a@) =~= txs_view(b@));
    true
}

} // verus!
