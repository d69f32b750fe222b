use crate::character::Position;
use vstd::prelude::*;

verus! {

/// Where a teleport leads.
#[derive(Clone, Copy, Debug, PartialEq, Eq, Structural)]
pub enum TeleportationDistance {
    /// Within the current map.
    Near(Position),
    /// To another map.
    Far { map: u32, position: Position, area: u32 },
}

impl TeleportationDistance {
    pub open spec fn in_world(&self) -> bool {
        match self {
            TeleportationDistance::Near(p) => p.in_world(),
            TeleportationDistance::Far { position, .. } => position.in_world(),
        }
    }
}

/// What stepping into an area trigger does.
#[derive(Clone, Copy, Debug, PartialEq, Eq, Structural)]
pub enum AreaTriggerPurpose {
    /// Sends the character to another map.
    Teleport { map: u32, position: Position, area: u32 },
    /// An inn, where the character rests.
    RestedArea,
    /// Nothing the server acts on.
    Other,
}

/// What came of a character stepping into an area trigger.
#[derive(Clone, Copy, Debug, PartialEq, Eq, Structural)]
pub enum AreaTriggerOutcome {
    /// A far teleport is queued.
    TeleportQueued,
    /// The character entered an inn.
    EnteredRestedArea,
    Nothing,
}

/// Why an area trigger could not be acted on.
#[derive(Clone, Copy, Debug, PartialEq, Eq, Structural)]
pub enum AreaTriggerError {
    /// The server does not know the trigger.
    UnknownTrigger,
    /// The trigger leads outside the world.
    DestinationOutsideWorld,
}

/// What the server tells a client when its teleport starts.
#[derive(Clone, Copy, Debug, PartialEq, Eq, Structural)]
pub enum TeleportMessage {
    /// `MSG_MOVE_TELEPORT_ACK` from the server, for a near teleport.
    MoveTeleportAck { guid: u64, position: Position },
    /// `SMSG_TRANSFER_PENDING`, first of the two for a far teleport.
    TransferPending { map: u32 },
    /// `SMSG_NEW_WORLD`, second of the two for a far teleport.
    NewWorld { map: u32, position: Position },
}

pub open spec fn teleport_messages(guid: u64, d: TeleportationDistance) -> Seq<TeleportMessage> {
    match d {
        TeleportationDistance::Near(p) => seq![TeleportMessage::MoveTeleportAck { guid, position: p }],
        TeleportationDistance::Far { map, position, .. } => seq![
            TeleportMessage::TransferPending { map },
            TeleportMessage::NewWorld { map, position },
        ],
    }
}

/// The teleport a character is going through, if any.
#[derive(Clone, Copy, Debug, PartialEq, Eq, Structural)]
pub enum TeleportationState {
    Idle,
    Queued(TeleportationDistance),
    Executing(TeleportationDistance),
}

impl TeleportationState {
    /// Any destination lies in the world.
    pub open spec fn in_world(&self) -> bool {
        match self {
            TeleportationState::Idle => true,
            TeleportationState::Queued(d) => d.in_world(),
            TeleportationState::Executing(d) => d.in_world(),
        }
    }
}

} // verus!
