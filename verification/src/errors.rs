use vstd::prelude::*;

verus! {

/// Everything that can go wrong while building or decoding a token.
#[derive(Clone, Copy, Debug, PartialEq, Eq, Structural)]
pub enum TokenError {
    /// A registered claim cannot be rendered to JSON; the codec is never
    /// invoked in that case.
    ClaimSerialization,
    /// The encryption or decryption primitive reported a failure.
    Codec,
    /// A token handed to `decode` is not in the shape this library produces.
    InvalidToken,
    /// The decrypted frame carries a footer other than the one supplied.
    FooterMismatch,
}

} // verus!
