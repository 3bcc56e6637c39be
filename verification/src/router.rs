use vstd::prelude::*;

use crate::message::{DecodeError, DecodeErrorKind, Message, Packet};
use crate::response::{Response, ResponseError};

verus! {

/// Routes request envelopes: those for this node go to the local handler,
/// the rest are answered with a routing error.
pub struct Router {
    local_route: &'static [u8],
}

impl Router {
    pub fn new(local_route: &'static [u8]) -> (r: Self)
        ensures
            r.spec_local_route() == local_route@,
    {
        Router { local_route }
    }

    /// The route token of this node.
    pub closed spec fn spec_local_route(&self) -> Seq<u8> {
        self.local_route@
    }

    pub fn local_route(&self) -> (r: &'static [u8])
        ensures
            r@ == self.spec_local_route(),
    {
        self.local_route
    }

    /// Hands an envelope for this node to `local`, body and identifier only;
    /// answers any other destination with `NO_ROUTE`.
    pub fn dispatch<'a, F: FnOnce(Packet<&'a [u8]>) -> Packet<Response<&'a [u8], &'a [u8]>>>(
        &self,
        envelope: Message<'a>,
        local: F,
    ) -> (res: Packet<Response<&'a [u8], &'a [u8]>>)
        requires
            envelope.route@ == self.spec_local_route() ==> call_requires(
                local,
                (Packet { id: envelope.id, body: envelope.body },),
            ),
        ensures
            envelope.route@ == self.spec_local_route() ==> call_ensures(
                local,
                (Packet { id: envelope.id, body: envelope.body },),
                res,
            ),
            envelope.route@ != self.spec_local_route() ==> res.id == envelope.id && res.body@ == Response::<
                Seq<u8>,
                Seq<u8>,
            >::Error(ResponseError::NoRoute { destination: envelope.route@ }),
    {
        if crate::ascii::bytes_eq(envelope.route, self.local_route) {
            return local(Packet { id: envelope.id, body: envelope.body });
        }
        Packet { id: envelope.id, body: Response::Error(ResponseError::NoRoute { destination: envelope.route }) }
    }
}

/// What a node answers to a request it could not decode: `UMM BAD_PACKET`
/// to a malformed one, `IDK` to an unknown command, and nothing when not
/// even the identifier could be read.
pub fn decode_error_response(error: DecodeError) -> (res: Option<Packet<Response<&'static [u8], &'static [u8]>>>)
    ensures
        res == match error.id {
            None => None,
            Some(id) => Some(
                Packet {
                    id,
                    body: match error.kind {
                        DecodeErrorKind::Malformed => Response::<&'static [u8], &'static [u8]>::Error(
                            ResponseError::BadPacket,
                        ),
                        DecodeErrorKind::UnknownCommand => Response::<&'static [u8], &'static [u8]>::Unknown,
                    },
                },
            ),
        },
{
    let id = match error.id {
        Some(id) => id,
        None => {
            return None;
        },
    };
    let body = match error.kind {
        DecodeErrorKind::Malformed => Response::Error(ResponseError::BadPacket),
        DecodeErrorKind::UnknownCommand => Response::Unknown,
    };
    Some(Packet { id, body })
}

} // verus!
