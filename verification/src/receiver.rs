//! The signal receiver: where a pushed message enters a peer.

use crate::error::ChatError;
use crate::identity::PeerIdentity;
use crate::message::Message;
use crate::network::{listened, Network};
use vstd::prelude::*;

verus! {

/// What the receiver answers, from whether the local listener took the
/// message: a message that was not taken is an error for the caller, and is
/// not tried again.
pub fn emit_outcome(heard: bool) -> (received: Result<(), ChatError>)
    ensures
        received == if heard {
            Ok::<(), ChatError>(())
        } else {
            Err::<(), ChatError>(ChatError::SignalEmit)
        },
{
    if heard {
        Ok(())
    } else {
        Err(ChatError::SignalEmit)
    }
}

/// Takes a pushed message at `me` and hands it on to the local live
/// listener, storing nothing. Without a listener the message is lost to the
/// live path, and the caller is told so; nothing is tried again.
pub fn receive_signal(net: &mut Network, me: &PeerIdentity, signal: Message) -> (received: Result<
    (),
    ChatError,
>)
    ensures
        received is Ok <==> listened(old(net)@.endpoints, me@),
        received matches Err(error) ==> error == ChatError::SignalEmit,
        final(net)@ == old(net)@.received(me@, signal@),
        old(net)@.valid() ==> final(net)@.valid(),
{
    let heard = net.emit_signal(me, &signal);
    emit_outcome(heard)
}

} // verus!
