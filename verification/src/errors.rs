use vstd::prelude::*;

verus! {

/// Why a ledger operation did not complete.
#[derive(Debug, Clone, Copy, PartialEq, Eq, Structural)]
pub enum ChainError {
    /// The key-value store reported a fault.
    Storage,
    /// Bytes could not be encoded, or bytes read back do not decode.
    Serialization,
    /// A transaction is not acceptable: a bad signature, a reference that
    /// cannot be resolved, a key of the wrong size.
    Validation,
    /// A block, a transaction or the tip is not there.
    NotFound,
    /// The wall clock could not be read.
    Clock,
    /// No nonce of the 32-bit space seals the block.
    NonceExhausted,
    /// The message is too long for the digest function.
    Oversize,
    /// A running total left the range of its integer type.
    Overflow,
    /// The system gave no random bytes.
    Entropy,
}

impl ChainError {
    /// A short description of the error.
    pub fn describe(&self) -> (text: &'static str)
        ensures
            text@ == self.spec_describe(),
    {
        match self {
            ChainError::Storage => "storage fault",
            ChainError::Serialization => "serialization fault",
            ChainError::Validation => "validation fault",
            ChainError::NotFound => "not found",
            ChainError::Clock => "clock fault",
            ChainError::NonceExhausted => "nonce space exhausted",
            ChainError::Oversize => "message too long",
            ChainError::Overflow => "arithmetic overflow",
            ChainError::Entropy => "no random bytes",
        }
    }

    /// The description of the error, as mathematical text.
    pub open spec fn spec_describe(&self) -> Seq<char> {
        match self {
            ChainError::Storage => "storage fault"@,
            ChainError::Serialization => "serialization fault"@,
            ChainError::Validation => "validation fault"@,
            ChainError::NotFound => "not found"@,
            ChainError::Clock => "clock fault"@,
            ChainError::NonceExhausted => "nonce space exhausted"@,
            ChainError::Oversize => "message too long"@,
            ChainError::Overflow => "arithmetic overflow"@,
            ChainError::Entropy => "no random bytes"@,
        }
    }
}

} // verus!
