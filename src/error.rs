use vstd::prelude::*;

verus! {

/// The failure reasons that the vault and the farm report to a caller.
#[derive(Debug, Clone, Copy, PartialEq, Eq, Structural)]
pub enum ContractError {
    /// The caller is not the admin, not whitelisted, or not the position owner.
    Unauthorized,
    /// The asset or token sent is not the one the contract works with.
    WrongToken,
    /// The funds attached do not match the declared amount.
    WrongAmount { amount: u128 },
    /// Closing a position would leave part of its debt unpaid.
    InsufficientFunds,
    /// A settlement was attempted before full payment.
    Unpaid,
    /// A share/value conversion or a balance computation left the representable range.
    MathError,
    /// The result of an outside call lacks the expected marker.
    ExternalCallError,
    /// No record under the given id.
    NotFound,
    /// A record already stands under the id a new one would take.
    PositionExists,
}

} // verus!
