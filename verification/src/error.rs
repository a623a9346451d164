use vstd::prelude::*;
use vstd::string::StringExecFns;

verus! {

/// Why an operation of the library did not go through.
#[derive(Clone, Copy, Debug, PartialEq, Eq, Structural)]
pub enum Error {
    /// A signature does not verify, a referenced earlier transaction is
    /// missing or has no id, or a referenced output does not exist.
    InvalidTransaction,
    /// The spendable outputs of the sender add up to less than the amount.
    InsufficientFunds { balance: i32 },
    /// No transaction, block or wallet goes by the given name.
    NotFound,
    /// A block fails its proof of work, its link to the previous block, or
    /// holds a transaction that does not verify.
    InvalidBlock,
    /// An unknown command, a frame that is too short, an address that does
    /// not decode, or a private key that is too short.
    Format,
    /// An amount left the range of a 32-bit signed integer.
    Overflow,
    /// No nonce of the 32-bit range gives a hash that meets the target.
    NonceExhausted,
    /// The system clock stands before the Unix epoch.
    Clock,
    /// The operating system gave no random bytes.
    Random,
}

impl Error {
    /// The text shown to a user for this error.
    pub fn message(&self) -> (text: String)
        ensures
            text@ == error_text(*self),
    {
        match self {
            Error::InvalidTransaction => String::from_str("ERROR: Invalid transaction."),
            Error::InsufficientFunds { .. } => String::from_str("ERROR: Not Enough balance."),
            Error::NotFound => String::from_str("Not found."),
            Error::InvalidBlock => String::from_str("ERROR: Invalid block."),
            Error::Format => String::from_str("Malformed input."),
            Error::Overflow => String::from_str("Amount out of range."),
            Error::NonceExhausted => String::from_str("No nonce meets the target."),
            Error::Clock => String::from_str("System clock is before the Unix epoch."),
            Error::Random => String::from_str("No random bytes are to be had."),
        }
    }
}

/// The user-visible text of each error.
pub open spec fn error_text(e: Error) -> Seq<char> {
    match e {
        Error::InvalidTransaction => "ERROR: Invalid transaction."@,
        Error::InsufficientFunds { .. } => "ERROR: Not Enough balance."@,
        Error::NotFound => "Not found."@,
        Error::InvalidBlock => "ERROR: Invalid block."@,
        Error::Format => "Malformed input."@,
        Error::Overflow => "Amount out of range."@,
        Error::NonceExhausted => "No nonce meets the target."@,
        Error::Clock => "System clock is before the Unix epoch."@,
        Error::Random => "No random bytes are to be had."@,
    }
}

} // verus!
