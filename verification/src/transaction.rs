//! The value object moved between accounts: sender, receiver, amount.

use vstd::prelude::*;

verus! {

/// Currency units moved by a single transaction.
pub type CurrencyType = u64;

/// Mathematical content of a transaction: the two account ids as character
/// sequences, plus the amount moved.
#[verifier::ext_equal]
pub struct TransactionModel {
    pub sender: Seq<char>,
    pub receiver: Seq<char>,
    pub amount: CurrencyType,
}

/// One transfer of currency between two accounts.
///
/// Account ids are opaque stable strings (the identity provider's node ids).
/// A transaction is immutable once built.
#[derive(Debug)]
pub struct Transaction {
    pub sender: String,
    pub receiver: String,
    pub amount: CurrencyType,
}

impl View for Transaction {
    type V = TransactionModel;

    open spec fn view(&self) -> TransactionModel {
        TransactionModel {
            sender: self.sender@,
            receiver: self.receiver@,
            amount: self.amount,
        }
    }
}

impl Clone for Transaction {
    fn clone(&self) -> (r: Self)
        ensures
            r@ == self@,
    {
        Transaction {
            sender: self.sender.clone(),
            receiver: self.receiver.clone(),
            amount: self.amount,
        }
    }
}

impl Transaction {
    pub fn new(sender: String, receiver: String, amount: CurrencyType) -> (r: Self)
        ensures
            r@ == (TransactionModel { sender: sender@, receiver: receiver@, amount }),
    {
        Transaction { sender, receiver, amount }
    }

    pub fn sender(&self) -> (r: String)
        ensures
            r@ == self@.sender,
    {
        self.sender.clone()
    }

    pub fn receiver(&self) -> (r: String)
        ensures
            r@ == self@.receiver,
    {
        self.receiver.clone()
    }

    pub fn amount(&self) -> (r: CurrencyType)
        ensures
            r == self@.amount,
    {
        self.amount
    }
}

/// The null transaction carried by the genesis block: it moves nothing
/// between empty ids and affects no balance.
pub open spec fn null_transaction_model() -> TransactionModel {
    TransactionModel { sender: Seq::empty(), receiver: Seq::empty(), amount: 0 }
}

/// Builds the null transaction placed in the genesis block.
pub fn null_transaction() -> (r: Transaction)
    ensures
        r@ == null_transaction_model(),
{
    Transaction { sender: String::new(), receiver: String::new(), amount: 0 }
}

} // verus!
