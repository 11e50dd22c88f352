//! The errors of a node.

use crate::channel::AdnlChannelError;
use crate::handshake::HandshakeError;
use crate::keystore::AdnlKeystoreError;
use crate::transfer::TransferError;
use vstd::prelude::*;

verus! {

/// Errors of the node as a whole.
#[derive(Debug, Copy, Clone, PartialEq, Eq, Structural)]
pub enum AdnlNodeError {
    /// The node is running already.
    AlreadyRunning,
    /// The packet cannot be decoded.
    InvalidPacket,
    /// No peers are kept for this local id.
    PeersNotFound,
    /// The message is of a kind that is not processed.
    UnknownMessage,
    /// An answer arrived for a query that does not wait.
    UnknownQueryAnswer,
    /// The peer is not known.
    UnknownPeer,
    /// A channel message came from a peer that is not known.
    UnknownPeerInChannel,
    /// No subscriber took the custom message.
    NoSubscribersForCustomMessage,
    /// No subscriber took the query.
    NoSubscribersForQuery,
    /// The message is of a kind that is not sent.
    UnexpectedMessageToSend,
    /// The packet could not be queued.
    FailedToSendPacket,
    /// The packet names a protocol version that is not supported.
    UnsupportedVersion,
}

/// Errors of the validation of a received packet.
#[derive(Debug, Copy, Clone, PartialEq, Eq, Structural)]
pub enum AdnlPacketError {
    /// A channel packet names its source.
    ExplicitSourceForChannel,
    /// The short id given does not belong to the key given.
    InvalidPeerId,
    /// The packet names no source.
    NoKeyDataInPacket,
    /// No channel is kept for the peer of a channel packet.
    UnknownChannel,
    /// The peer is not known.
    UnknownPeer,
    /// The packet expects a newer local reinit date than the node has.
    DstReinitDateTooNew,
    /// The packet expects an older local reinit date than the node has.
    DstReinitDateTooOld,
    /// The peer's reinit date lies too far in the future.
    SrcReinitDateTooNew,
    /// The peer's reinit date is older than the one known.
    SrcReinitDateTooOld,
    /// The packet confirms a sequence number that was not sent yet.
    ConfirmationSeqnoTooNew,
    /// A signature is required and missing, or it is not 64 bytes long.
    SignatureNotFound,
    /// The signature does not belong to the packet and the key.
    InvalidSignature,
    /// The address list names no address, is too new, or has expired.
    InvalidAddressList,
}

/// Any error that handling a datagram or sending a message can end in.
#[derive(Debug, Copy, Clone, PartialEq, Eq, Structural)]
pub enum AdnlError {
    Node(AdnlNodeError),
    Packet(AdnlPacketError),
    Handshake(HandshakeError),
    Channel(AdnlChannelError),
    Transfer(TransferError),
    Keystore(AdnlKeystoreError),
}

} // verus!
