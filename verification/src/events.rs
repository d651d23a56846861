//! The event bridge: background reader and accept workers append inbound
//! payload and connection-state events to these queues, and the consumer
//! drains whatever has accumulated, in arrival order, on its own schedule.
//! The host wraps each queue in its cross-thread channel; the logic here is
//! what a drain returns and leaves behind.

use vstd::prelude::*;

use crate::DataPacket;
use crate::IntergressType;

verus! {

/// Client-role signal: the connection to the server came up or went down.
#[derive(Clone, Copy, Debug, PartialEq, Eq, Structural)]
pub enum ConnectionChange {
    Connected,
    Disconnected,
}

/// Event telling the client's consumer that the server connection changed.
#[derive(Clone, Copy, Debug, PartialEq, Eq, Structural)]
pub struct ServerConnectionChangeEvent {
    pub connection_change: ConnectionChange,
}

/// A payload the client read from the server.
#[derive(Clone, Debug, PartialEq)]
pub struct ClientDataReadEvent {
    pub data_packet: DataPacket,
}

/// A payload the server read, tagged with the connection it arrived on.
#[derive(Clone, Debug, PartialEq)]
pub struct ServerDataReadEvent {
    pub data_packet: DataPacket,
    pub id: u32,
}

/// Server-role signal: the peer on connection `id` joined or left.
#[derive(Clone, Copy, Debug, PartialEq, Eq, Structural)]
pub struct PlayerIntergressEvent {
    pub id: u32,
    pub intergress_type: IntergressType,
}

/// The events a client's background workers owe its consumer.
pub struct ClientEventQueue {
    pub data_events: Vec<ClientDataReadEvent>,
    pub connection_events: Vec<ServerConnectionChangeEvent>,
}

impl ClientEventQueue {
    pub fn new() -> (queue: Self)
        ensures
            queue.data_events@ == Seq::<ClientDataReadEvent>::empty(),
            queue.connection_events@ == Seq::<ServerConnectionChangeEvent>::empty(),
    {
        ClientEventQueue { data_events: Vec::new(), connection_events: Vec::new() }
    }

    /// Hands every accumulated payload event to the consumer, in arrival
    /// order, leaving the queue empty.
    pub fn drain_data_events(&mut self) -> (drained: Vec<ClientDataReadEvent>)
        ensures
            drained@ == old(self).data_events@,
            final(self).data_events@ == Seq::<ClientDataReadEvent>::empty(),
            final(self).connection_events@ == old(self).connection_events@,
    {
        let mut drained: Vec<ClientDataReadEvent> = Vec::new();
        core::mem::swap(&mut drained, &mut self.data_events);
        drained
    }

    /// Hands every accumulated connection-state event to the consumer, in
    /// arrival order, leaving the queue empty.
    pub fn drain_connection_events(&mut self) -> (drained: Vec<ServerConnectionChangeEvent>)
        ensures
            drained@ == old(self).connection_events@,
            final(self).connection_events@ == Seq::<ServerConnectionChangeEvent>::empty(),
            final(self).data_events@ == old(self).data_events@,
    {
        let mut drained: Vec<ServerConnectionChangeEvent> = Vec::new();
        core::mem::swap(&mut drained, &mut self.connection_events);
        drained
    }
}

/// The events a server's background workers owe its consumer.
pub struct ServerEventQueue {
    pub data_events: Vec<ServerDataReadEvent>,
    pub intergress_events: Vec<PlayerIntergressEvent>,
}

impl ServerEventQueue {
    pub fn new() -> (queue: Self)
        ensures
            queue.data_events@ == Seq::<ServerDataReadEvent>::empty(),
            queue.intergress_events@ == Seq::<PlayerIntergressEvent>::empty(),
    {
        ServerEventQueue { data_events: Vec::new(), intergress_events: Vec::new() }
    }

    /// Hands every accumulated payload event to the consumer, in arrival
    /// order, leaving the queue empty.
    pub fn drain_data_events(&mut self) -> (drained: Vec<ServerDataReadEvent>)
        ensures
            drained@ == old(self).data_events@,
            final(self).data_events@ == Seq::<ServerDataReadEvent>::empty(),
            final(self).intergress_events@ == old(self).intergress_events@,
    {
        let mut drained: Vec<ServerDataReadEvent> = Vec::new();
        core::mem::swap(&mut drained, &mut self.data_events);
        drained
    }

    /// Hands every accumulated membership event to the consumer, in arrival
    /// order, leaving the queue empty.
    pub fn drain_intergress_events(&mut self) -> (drained: Vec<PlayerIntergressEvent>)
        ensures
            drained@ == old(self).intergress_events@,
            final(self).intergress_events@ == Seq::<PlayerIntergressEvent>::empty(),
            final(self).data_events@ == old(self).data_events@,
    {
        let mut drained: Vec<PlayerIntergressEvent> = Vec::new();
        core::mem::swap(&mut drained, &mut self.intergress_events);
        drained
    }
}

} // verus!
