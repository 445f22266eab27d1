//! The tokens by which a running download is told to stop.

use tokio_util::sync::CancellationToken;
use vstd::prelude::*;

verus! {

/// The token of `tokio_util`, which is carried through and never looked into.
#[verifier::external_type_specification]
#[verifier::external_body]
pub struct ExCancellationToken(CancellationToken);

/// What `CancellationToken::cancel` makes of a token: the same token, and with
/// it all its clones and children, cancelled for good.
pub uninterp spec fn cancelled(token: CancellationToken) -> CancellationToken;

/// Calls `CancellationToken::cancel` and hands the token back. Of the token
/// that comes back it is claimed that it is the given one, cancelled.
#[verifier::external_body]
pub(crate) fn cancel(token: CancellationToken) -> (r: CancellationToken)
    ensures
        r == cancelled(token),
{
    token.cancel();
    token
}

} // verus!
