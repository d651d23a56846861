//! The Reader Loop's per-iteration decisions.  One background worker per
//! connection loops: check the cancellation flag (client only), read bytes,
//! classify any error, feed bytes to the frame decoder, and emit events.
//! The host owns the blocking read; each iteration it hands the outcome to
//! the functions here, which update the decoder, the registry or connection
//! slot, and the event queue, and say whether the loop goes on.  A transient
//! error changes nothing and the loop retries; only cancellation or a peer
//! reset ever ends a loop.

use vstd::prelude::*;

use crate::client::ClientReadStopFlag;
use crate::client::ClientStream;
use crate::codec::parse_frames;
use crate::codec::parse_rest;
use crate::codec::FrameDecoder;
use crate::events::ClientDataReadEvent;
use crate::events::ClientEventQueue;
use crate::events::ConnectionChange;
use crate::events::PlayerIntergressEvent;
use crate::events::ServerConnectionChangeEvent;
use crate::events::ServerDataReadEvent;
use crate::events::ServerEventQueue;
use crate::server::remove_id;
use crate::server::ServerStreams;
use crate::ConnectionError;
use crate::DataPacket;
use crate::IntergressType;

verus! {

/// What a socket read error amounts to, as the host saw it.  The peer
/// closing the connection is the one terminal kind; everything else is
/// transient and retried at the same read.
#[derive(Clone, Copy, Debug, PartialEq, Eq, Structural)]
pub enum StreamErrorKind {
    ConnectionReset,
    Other,
}

/// Whether the Reader Loop runs another iteration or ends for good.
#[derive(Clone, Copy, Debug, PartialEq, Eq, Structural)]
pub enum ReaderControl {
    Continue,
    Stop,
}

/// Classifies a read error on the client's connection and applies the
/// teardown it calls for: a reset clears the connection slot, announces
/// `Disconnected`, and is returned as terminal; anything else changes
/// nothing and is survivable.
pub fn handle_client_stream_error(
    kind: StreamErrorKind,
    client_stream: &mut ClientStream,
    events: &mut ClientEventQueue,
) -> (result: Result<(), ConnectionError>)
    ensures
        final(events).data_events@ == old(events).data_events@,
        match kind {
            StreamErrorKind::ConnectionReset => {
                &&& result == Result::<(), ConnectionError>::Err(ConnectionError::ConnectionReset)
                &&& final(client_stream).stream is None
                &&& final(events).connection_events@ == old(events).connection_events@.push(
                    ServerConnectionChangeEvent {
                        connection_change: ConnectionChange::Disconnected,
                    },
                )
            },
            StreamErrorKind::Other => {
                &&& result == Result::<(), ConnectionError>::Ok(())
                &&& *final(client_stream) == *old(client_stream)
                &&& final(events).connection_events@ == old(events).connection_events@
            },
        },
{
    match kind {
        StreamErrorKind::ConnectionReset => {
            client_stream.stream = Option::None;
            events.connection_events.push(
                ServerConnectionChangeEvent { connection_change: ConnectionChange::Disconnected },
            );
            Result::Err(ConnectionError::ConnectionReset)
        },
        StreamErrorKind::Other => Result::Ok(()),
    }
}

/// Classifies a read error on the server connection `id` and applies the
/// teardown it calls for: a reset removes `id` from the registry, announces
/// the peer as left, and is returned as terminal; anything else changes
/// nothing and is survivable.
pub fn handle_server_stream_error(
    kind: StreamErrorKind,
    id: u32,
    server_streams: &mut ServerStreams,
    events: &mut ServerEventQueue,
) -> (result: Result<(), ConnectionError>)
    requires
        old(server_streams).wf(),
    ensures
        final(server_streams).wf(),
        final(events).data_events@ == old(events).data_events@,
        match kind {
            StreamErrorKind::ConnectionReset => {
                &&& result == Result::<(), ConnectionError>::Err(ConnectionError::ConnectionReset)
                &&& final(server_streams).streams@ == remove_id(old(server_streams).streams@, id)
                &&& final(server_streams).next_id == old(server_streams).next_id
                &&& final(events).intergress_events@ == old(events).intergress_events@.push(
                    PlayerIntergressEvent { id, intergress_type: IntergressType::Left },
                )
            },
            StreamErrorKind::Other => {
                &&& result == Result::<(), ConnectionError>::Ok(())
                &&& *final(server_streams) == *old(server_streams)
                &&& final(events).intergress_events@ == old(events).intergress_events@
            },
        },
{
    match kind {
        StreamErrorKind::ConnectionReset => {
            let _removed = server_streams.remove_connection(id);
            events.intergress_events.push(
                PlayerIntergressEvent { id, intergress_type: IntergressType::Left },
            );
            Result::Err(ConnectionError::ConnectionReset)
        },
        StreamErrorKind::Other => Result::Ok(()),
    }
}

/// The client's iteration-boundary cancellation check: when the stop flag is
/// raised, the loop announces `Disconnected` and must terminate.
pub fn client_stop_check(stop_flag: &ClientReadStopFlag, events: &mut ClientEventQueue) -> (stop:
    bool)
    ensures
        stop == stop_flag.0,
        final(events).data_events@ == old(events).data_events@,
        final(events).connection_events@ == (if stop_flag.0 {
            old(events).connection_events@.push(
                ServerConnectionChangeEvent { connection_change: ConnectionChange::Disconnected },
            )
        } else {
            old(events).connection_events@
        }),
{
    if stop_flag.0 {
        events.connection_events.push(
            ServerConnectionChangeEvent { connection_change: ConnectionChange::Disconnected },
        );
        true
    } else {
        false
    }
}

/// One Reader Loop iteration for the client, given what the socket read came
/// back with: bytes are decoded and every completed payload is delivered in
/// stream order; a reset tears the connection down and ends the loop; any
/// other error leaves everything as it was and the loop retries.
pub fn client_read_iteration(
    read_result: Result<Vec<u8>, StreamErrorKind>,
    decoder: &mut FrameDecoder,
    client_stream: &mut ClientStream,
    events: &mut ClientEventQueue,
) -> (control: ReaderControl)
    requires
        old(decoder).wf(),
    ensures
        final(decoder).wf(),
        match read_result {
            Result::Ok(bytes) => {
                &&& control == ReaderControl::Continue
                &&& *final(client_stream) == *old(client_stream)
                &&& final(events).connection_events@ == old(events).connection_events@
                &&& forall|k: int|
                    0 <= k < old(events).data_events@.len() ==> #[trigger] final(
                        events
                    ).data_events@[k] == old(events).data_events@[k]
                &&& final(events).data_events@.map_values(
                    |event: ClientDataReadEvent| event.data_packet@,
                ) == old(events).data_events@.map_values(
                    |event: ClientDataReadEvent| event.data_packet@,
                ) + parse_frames(old(decoder).pending() + bytes@)
                &&& final(decoder).pending() == parse_rest(old(decoder).pending() + bytes@)
            },
            Result::Err(kind) => {
                &&& *final(decoder) == *old(decoder)
                &&& final(events).data_events@ == old(events).data_events@
                &&& match kind {
                    StreamErrorKind::ConnectionReset => {
                        &&& control == ReaderControl::Stop
                        &&& final(client_stream).stream is None
                        &&& final(events).connection_events@ == old(
                            events,
                        ).connection_events@.push(
                            ServerConnectionChangeEvent {
                                connection_change: ConnectionChange::Disconnected,
                            },
                        )
                    },
                    StreamErrorKind::Other => {
                        &&& control == ReaderControl::Continue
                        &&& *final(client_stream) == *old(client_stream)
                        &&& final(events).connection_events@ == old(events).connection_events@
                    },
                }
            },
        },
{
    match read_result {
        Result::Ok(bytes) => {
            let packets = decoder.push(&bytes);
            let ghost packets_view = packets@;
            let ghost data0 = events.data_events@;
            let mut k: usize = 0;
            proof {
                assert(data0.map_values(|event: ClientDataReadEvent| event.data_packet@)
                    + packets_view.take(0).map_values(|p: DataPacket| p@) =~= data0.map_values(
                    |event: ClientDataReadEvent| event.data_packet@,
                ));
            }
            while k < packets.len()
                invariant
                    k <= packets_view.len(),
                    packets@ == packets_view,
                    events.data_events@.len() == data0.len() + k,
                    forall|j: int|
                        0 <= j < data0.len() ==> #[trigger] events.data_events@[j] == data0[j],
                    events.data_events@.map_values(|event: ClientDataReadEvent| event.data_packet@)
                        == data0.map_values(|event: ClientDataReadEvent| event.data_packet@)
                        + packets_view.take(k as int).map_values(|p: DataPacket| p@),
                    events.connection_events@ == old(events).connection_events@,
                decreases packets_view.len() - k,
            {
                let packet = packets[k].clone_packet();
                let event = ClientDataReadEvent { data_packet: packet };
                let ghost prev = events.data_events@;
                events.data_events.push(event);
                proof {
                    prev.lemma_push_map_commute(
                        |event: ClientDataReadEvent| event.data_packet@,
                        event,
                    );
                    packets_view.lemma_map_take_succ(|p: DataPacket| p@, k as int);
                    Seq::push_distributes_over_add(
                        data0.map_values(|event: ClientDataReadEvent| event.data_packet@),
                        packets_view.take(k as int).map_values(|p: DataPacket| p@),
                        packets_view[k as int]@,
                    );
                    assert(events.data_events@.map_values(
                        |event: ClientDataReadEvent| event.data_packet@,
                    ) == data0.map_values(|event: ClientDataReadEvent| event.data_packet@)
                        + packets_view.take(k as int + 1).map_values(|p: DataPacket| p@));
                }
                k = k + 1;
            }
            proof {
                assert(packets_view.take(packets_view.len() as int) =~= packets_view);
            }
            ReaderControl::Continue
        },
        Result::Err(kind) => {
            match handle_client_stream_error(kind, client_stream, events) {
                Result::Err(_) => ReaderControl::Stop,
                Result::Ok(_) => ReaderControl::Continue,
            }
        },
    }
}

/// One Reader Loop iteration for the server connection `id`.  Decoded
/// payloads are delivered tagged with `id` and no other: events from one
/// connection's loop can never carry another connection's id.  A reset tears
/// `id` down and ends this loop only; any other error changes nothing.
pub fn server_read_iteration(
    id: u32,
    read_result: Result<Vec<u8>, StreamErrorKind>,
    decoder: &mut FrameDecoder,
    server_streams: &mut ServerStreams,
    events: &mut ServerEventQueue,
) -> (control: ReaderControl)
    requires
        old(decoder).wf(),
        old(server_streams).wf(),
    ensures
        final(decoder).wf(),
        final(server_streams).wf(),
        forall|k: int|
            0 <= k < old(events).data_events@.len() ==> #[trigger] final(events).data_events@[k]
                == old(events).data_events@[k],
        forall|k: int|
            old(events).data_events@.len() <= k < final(events).data_events@.len() ==> (
            #[trigger] final(events).data_events@[k]).id == id,
        match read_result {
            Result::Ok(bytes) => {
                &&& control == ReaderControl::Continue
                &&& *final(server_streams) == *old(server_streams)
                &&& final(events).intergress_events@ == old(events).intergress_events@
                &&& final(events).data_events@.map_values(
                    |event: ServerDataReadEvent| event.data_packet@,
                ) == old(events).data_events@.map_values(
                    |event: ServerDataReadEvent| event.data_packet@,
                ) + parse_frames(old(decoder).pending() + bytes@)
                &&& final(decoder).pending() == parse_rest(old(decoder).pending() + bytes@)
            },
            Result::Err(kind) => {
                &&& *final(decoder) == *old(decoder)
                &&& final(events).data_events@ == old(events).data_events@
                &&& match kind {
                    StreamErrorKind::ConnectionReset => {
                        &&& control == ReaderControl::Stop
                        &&& final(server_streams).streams@ == remove_id(
                            old(server_streams).streams@,
                            id,
                        )
                        &&& final(server_streams).next_id == old(server_streams).next_id
                        &&& final(events).intergress_events@ == old(
                            events,
                        ).intergress_events@.push(
                            PlayerIntergressEvent { id, intergress_type: IntergressType::Left },
                        )
                    },
                    StreamErrorKind::Other => {
                        &&& control == ReaderControl::Continue
                        &&& *final(server_streams) == *old(server_streams)
                        &&& final(events).intergress_events@ == old(events).intergress_events@
                    },
                }
            },
        },
{
    match read_result {
        Result::Ok(bytes) => {
            let packets = decoder.push(&bytes);
            let ghost packets_view = packets@;
            let ghost data0 = events.data_events@;
            let mut k: usize = 0;
            proof {
                assert(data0.map_values(|event: ServerDataReadEvent| event.data_packet@)
                    + packets_view.take(0).map_values(|p: DataPacket| p@) =~= data0.map_values(
                    |event: ServerDataReadEvent| event.data_packet@,
                ));
            }
            while k < packets.len()
                invariant
                    k <= packets_view.len(),
                    packets@ == packets_view,
                    events.data_events@.len() == data0.len() + k,
                    forall|j: int|
                        0 <= j < data0.len() ==> #[trigger] events.data_events@[j] == data0[j],
                    forall|j: int|
                        data0.len() <= j < events.data_events@.len() ==> (
                        #[trigger] events.data_events@[j]).id == id,
                    events.data_events@.map_values(|event: ServerDataReadEvent| event.data_packet@)
                        == data0.map_values(|event: ServerDataReadEvent| event.data_packet@)
                        + packets_view.take(k as int).map_values(|p: DataPacket| p@),
                    events.intergress_events@ == old(events).intergress_events@,
                decreases packets_view.len() - k,
            {
                let packet = packets[k].clone_packet();
                let event = ServerDataReadEvent { data_packet: packet, id };
                let ghost prev = events.data_events@;
                events.data_events.push(event);
                proof {
                    prev.lemma_push_map_commute(
                        |event: ServerDataReadEvent| event.data_packet@,
                        event,
                    );
                    packets_view.lemma_map_take_succ(|p: DataPacket| p@, k as int);
                    Seq::push_distributes_over_add(
                        data0.map_values(|event: ServerDataReadEvent| event.data_packet@),
                        packets_view.take(k as int).map_values(|p: DataPacket| p@),
                        packets_view[k as int]@,
                    );
                    assert(events.data_events@.map_values(
                        |event: ServerDataReadEvent| event.data_packet@,
                    ) == data0.map_values(|event: ServerDataReadEvent| event.data_packet@)
                        + packets_view.take(k as int + 1).map_values(|p: DataPacket| p@));
                }
                k = k + 1;
            }
            proof {
                assert(packets_view.take(packets_view.len() as int) =~= packets_view);
            }
            ReaderControl::Continue
        },
        Result::Err(kind) => {
            match handle_server_stream_error(kind, id, server_streams, events) {
                Result::Err(_) => ReaderControl::Stop,
                Result::Ok(_) => ReaderControl::Continue,
            }
        },
    }
}

} // verus!
