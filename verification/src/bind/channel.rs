//! The channel through which a binding tells the config about presses and releases.
use vstd::prelude::*;

use tokio::sync::mpsc::{UnboundedReceiver, UnboundedSender};

use super::Edge;

verus! {

#[verifier::external_type_specification]
#[verifier::external_body]
#[verifier::reject_recursive_types(T)]
pub struct ExUnboundedSender<T>(UnboundedSender<T>);

#[verifier::external_type_specification]
#[verifier::external_body]
#[verifier::reject_recursive_types(T)]
pub struct ExUnboundedReceiver<T>(UnboundedReceiver<T>);

/// Calls `tokio::sync::mpsc::unbounded_channel` for edges.
///
/// Nothing is claimed of the pair: it is a fresh channel, opaque here.
#[verifier::external_body]
pub(crate) fn edge_channel() -> (UnboundedSender<Edge>, UnboundedReceiver<Edge>) {
    tokio::sync::mpsc::unbounded_channel::<Edge>()
}

/// Calls `UnboundedSender::send` and reports whether the edge was accepted.
///
/// Nothing is claimed of the result: it is `false` exactly when the receiving
/// side of the channel has been closed or dropped, which the library cannot see.
#[verifier::external_body]
pub(crate) fn send_edge(sender: &UnboundedSender<Edge>, edge: Edge) -> (sent: bool) {
    sender.send(edge).is_ok()
}

} // verus!
