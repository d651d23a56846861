//! Client role: the single connection to the server, the outbound payload
//! queue, and the connect/disconnect decisions.  The host performs the TCP
//! dial and the socket writes; the functions here decide whether an attempt
//! is allowed, record its outcome, and hand back the frames to write.

use vstd::prelude::*;

use crate::codec::frame_bytes;
use crate::codec::encode_packet;
use crate::events::ClientEventQueue;
use crate::events::ConnectionChange;
use crate::events::ServerConnectionChangeEvent;
use crate::ClientConfig;
use crate::ConnectionError;
use crate::DataPacket;

verus! {

/// The client's one connection slot: the handle the host gave the live
/// stream, or absence when disconnected.
pub struct ClientStream {
    pub stream: Option<u64>,
}

/// The client's outbound queue.  `list` is present exactly while a
/// connection is held; submitting while it is absent is rejected.
#[derive(Debug)]
pub struct ClientDataUploader {
    pub list: Option<Vec<DataPacket>>,
}

/// Cooperative cancellation: raised to tell the connection's Reader Loop to
/// stop at its next iteration boundary.  The host mirrors it in the shared
/// flag the background worker polls.
pub struct ClientReadStopFlag(pub bool);

impl ClientDataUploader {
    /// Every queued payload is small enough to frame.
    pub open spec fn wf(self) -> bool {
        match self.list {
            Option::Some(list) => forall|i: int|
                0 <= i < list@.len() ==> #[trigger] list@[i].bytes@.len() <= u32::MAX,
            Option::None => true,
        }
    }

    /// Queues one payload for the next dispatch tick, or rejects it when no
    /// connection is held.
    pub fn upload(&mut self, data: DataPacket) -> (result: Result<(), ConnectionError>)
        requires
            old(self).wf(),
            data.bytes@.len() <= u32::MAX,
        ensures
            final(self).wf(),
            match old(self).list {
                Option::Some(list) => {
                    &&& result == Result::<(), ConnectionError>::Ok(())
                    &&& final(self).list matches Option::Some(new_list) && new_list@ == list@.push(
                        data,
                    )
                },
                Option::None => {
                    &&& result == Result::<(), ConnectionError>::Err(
                        ConnectionError::NotConnectedToServer,
                    )
                    &&& final(self).list is None
                },
            },
    {
        match &mut self.list {
            Option::Some(list) => {
                list.push(data);
                Result::Ok(())
            },
            Option::None => Result::Err(ConnectionError::NotConnectedToServer),
        }
    }

    /// Whether a connection is held, and outbound payloads are accepted.
    pub fn is_connected(&self) -> (connected: bool)
        ensures
            connected == (self.list is Some),
    {
        self.list.is_some()
    }
}

/// The client-role state the host owns before anything is connected: no
/// outbound queue and an empty connection slot.
pub fn client_specific_setup() -> (state: (ClientDataUploader, ClientStream))
    ensures
        state.0.list is None,
        state.1.stream is None,
{
    (ClientDataUploader { list: Option::None }, ClientStream { stream: Option::None })
}

/// Whether the client currently holds a connection; false when the client
/// role was never set up.
pub fn is_connected_to_server(data_uploader: Option<&ClientDataUploader>) -> (connected: bool)
    ensures
        connected == (match data_uploader {
            Option::Some(uploader) => uploader.list is Some,
            Option::None => false,
        }),
{
    match data_uploader {
        Option::Some(data_uploader) => data_uploader.list.is_some(),
        Option::None => false,
    }
}

/// Asks the Reader Loop to stop, which makes it emit `Disconnected` and
/// terminate at its next iteration.  Fails when no client role is
/// configured; a missing flag (no reader ever started) is a quiet success.
pub fn disconnect_from_server(
    client_config: Option<&ClientConfig>,
    client_read_stop_flag: &mut Option<ClientReadStopFlag>,
) -> (result: Result<(), ConnectionError>)
    ensures
        match client_config {
            Option::None => {
                &&& result == Result::<(), ConnectionError>::Err(
                    ConnectionError::MissingClientConfig,
                )
                &&& *final(client_read_stop_flag) == *old(client_read_stop_flag)
            },
            Option::Some(_) => {
                &&& result == Result::<(), ConnectionError>::Ok(())
                &&& match *old(client_read_stop_flag) {
                    Option::Some(_) => *final(client_read_stop_flag) == Option::Some(
                        ClientReadStopFlag(true),
                    ),
                    Option::None => *final(client_read_stop_flag) == Option::<
                        ClientReadStopFlag,
                    >::None,
                }
            },
        },
{
    if client_config.is_none() {
        return Result::Err(ConnectionError::MissingClientConfig);
    }
    match client_read_stop_flag {
        Option::Some(flag) => {
            flag.0 = true;
        },
        Option::None => {},
    }
    Result::Ok(())
}

/// Whether a connection attempt may proceed: the client must be configured
/// and must not already hold a connection.  The host dials the configured
/// address only on `Ok` and reports the outcome to [`complete_connect`].
pub fn connect_to_server(client_stream: &ClientStream, client_config: Option<&ClientConfig>) -> (
    result: Result<(), ConnectionError>)
    ensures
        result == (match client_config {
            Option::None => Result::<(), ConnectionError>::Err(
                ConnectionError::MissingClientConfig,
            ),
            Option::Some(_) => {
                if client_stream.stream is Some {
                    Result::<(), ConnectionError>::Err(ConnectionError::AlreadyConnectedToServer)
                } else {
                    Result::<(), ConnectionError>::Ok(())
                }
            },
        }),
{
    match client_config {
        Option::None => Result::Err(ConnectionError::MissingClientConfig),
        Option::Some(_) => {
            if client_stream.stream.is_some() {
                Result::Err(ConnectionError::AlreadyConnectedToServer)
            } else {
                Result::Ok(())
            }
        },
    }
}

/// What the host's TCP dial came back with: a live stream (named by the
/// handle the host chose for it), a refusal, or any other transport error.
#[derive(Clone, Copy, Debug, PartialEq, Eq, Structural)]
pub enum DialOutcome {
    Connected { handle: u64 },
    Refused,
    Failed,
}

/// Records the outcome of a connection attempt.  On success the stream is
/// stored, the outbound queue starts (keeping anything already queued), the
/// stop flag is lowered for the new Reader Loop, and `Connected` is
/// announced; on failure `Disconnected` is announced and the state is left
/// alone.
pub fn complete_connect(
    outcome: DialOutcome,
    client_stream: &mut ClientStream,
    client_data_uploader: &mut ClientDataUploader,
    client_read_stop_flag: &mut Option<ClientReadStopFlag>,
    events: &mut ClientEventQueue,
) -> (result: Result<(), ConnectionError>)
    requires
        old(client_stream).stream is None,
    ensures
        final(events).data_events@ == old(events).data_events@,
        match outcome {
            DialOutcome::Connected { handle } => {
                &&& result == Result::<(), ConnectionError>::Ok(())
                &&& final(client_stream).stream == Option::Some(handle)
                &&& final(client_data_uploader).list is Some
                &&& final(client_data_uploader).list->Some_0@ == (match old(
                    client_data_uploader,
                ).list {
                    Option::Some(list) => list@,
                    Option::None => Seq::<DataPacket>::empty(),
                })
                &&& *final(client_read_stop_flag) == Option::Some(ClientReadStopFlag(false))
                &&& final(events).connection_events@ == old(events).connection_events@.push(
                    ServerConnectionChangeEvent { connection_change: ConnectionChange::Connected },
                )
            },
            DialOutcome::Refused => {
                &&& result == Result::<(), ConnectionError>::Err(ConnectionError::ConnectionRefused)
                &&& final(client_stream).stream == old(client_stream).stream
                &&& final(client_data_uploader).list == old(client_data_uploader).list
                &&& *final(client_read_stop_flag) == *old(client_read_stop_flag)
                &&& final(events).connection_events@ == old(events).connection_events@.push(
                    ServerConnectionChangeEvent {
                        connection_change: ConnectionChange::Disconnected,
                    },
                )
            },
            DialOutcome::Failed => {
                &&& result == Result::<(), ConnectionError>::Err(ConnectionError::TcpErr)
                &&& final(client_stream).stream == old(client_stream).stream
                &&& final(client_data_uploader).list == old(client_data_uploader).list
                &&& *final(client_read_stop_flag) == *old(client_read_stop_flag)
                &&& final(events).connection_events@ == old(events).connection_events@.push(
                    ServerConnectionChangeEvent {
                        connection_change: ConnectionChange::Disconnected,
                    },
                )
            },
        },
{
    match outcome {
        DialOutcome::Connected { handle } => {
            client_stream.stream = Option::Some(handle);
            if client_data_uploader.list.is_none() {
                client_data_uploader.list = Option::Some(Vec::new());
            }
            *client_read_stop_flag = Option::Some(ClientReadStopFlag(false));
            events.connection_events.push(
                ServerConnectionChangeEvent { connection_change: ConnectionChange::Connected },
            );
            Result::Ok(())
        },
        DialOutcome::Refused => {
            events.connection_events.push(
                ServerConnectionChangeEvent { connection_change: ConnectionChange::Disconnected },
            );
            Result::Err(ConnectionError::ConnectionRefused)
        },
        DialOutcome::Failed => {
            events.connection_events.push(
                ServerConnectionChangeEvent { connection_change: ConnectionChange::Disconnected },
            );
            Result::Err(ConnectionError::TcpErr)
        },
    }
}

/// The frames one dispatch tick owes the wire: every queued payload, framed,
/// in submission order.
pub open spec fn client_dispatch_frames(list: Seq<DataPacket>) -> Seq<Seq<u8>> {
    list.map_values(|packet: DataPacket| frame_bytes(packet.identifier, packet.bytes@))
}

/// Drains the outbound queue for one tick.  With a connection held, every
/// queued payload comes back framed, in submission order, and the queue is
/// left empty; with none, nothing changes and nothing is owed.  The host
/// writes each returned frame to the held stream.
pub fn send_data_to_server(
    client_data_uploader: &mut ClientDataUploader,
    client_stream: &ClientStream,
) -> (frames: Vec<Vec<u8>>)
    requires
        old(client_data_uploader).wf(),
        client_stream.stream is Some ==> old(client_data_uploader).list is Some,
    ensures
        final(client_data_uploader).wf(),
        match client_stream.stream {
            Option::Some(_) => {
                &&& frames@.map_values(|frame: Vec<u8>| frame@) == client_dispatch_frames(
                    old(client_data_uploader).list->Some_0@,
                )
                &&& final(client_data_uploader).list matches Option::Some(rest) && rest@
                    == Seq::<DataPacket>::empty()
            },
            Option::None => {
                &&& frames@ == Seq::<Vec<u8>>::empty()
                &&& final(client_data_uploader).list == old(client_data_uploader).list
            },
        },
{
    match &client_stream.stream {
        Option::Some(_) => {
            let mut owned_list: Vec<DataPacket> = Vec::new();
            match &mut client_data_uploader.list {
                Option::Some(list) => {
                    core::mem::swap(&mut owned_list, list);
                },
                Option::None => {
                    proof {
                        assert(false);
                    }
                },
            }
            let mut frames: Vec<Vec<u8>> = Vec::new();
            let mut i: usize = 0;
            proof {
                assert(frames@.map_values(|frame: Vec<u8>| frame@) =~~= client_dispatch_frames(
                    owned_list@.take(0),
                ));
            }
            while i < owned_list.len()
                invariant
                    i <= owned_list@.len(),
                    forall|k: int|
                        0 <= k < owned_list@.len() ==> #[trigger] owned_list@[k].bytes@.len()
                            <= u32::MAX,
                    frames@.map_values(|frame: Vec<u8>| frame@) == client_dispatch_frames(
                        owned_list@.take(i as int),
                    ),
                decreases owned_list@.len() - i,
            {
                let frame = encode_packet(&owned_list[i]);
                let ghost prev = frames@;
                frames.push(frame);
                proof {
                    prev.lemma_push_map_commute(|frame: Vec<u8>| frame@, frame);
                    owned_list@.lemma_map_take_succ(
                        |packet: DataPacket| frame_bytes(packet.identifier, packet.bytes@),
                        i as int,
                    );
                    assert(frames@.map_values(|frame: Vec<u8>| frame@) == client_dispatch_frames(
                        owned_list@.take(i as int + 1),
                    ));
                }
                i = i + 1;
            }
            proof {
                assert(owned_list@.take(owned_list@.len() as int) =~= owned_list@);
            }
            frames
        },
        Option::None => Vec::new(),
    }
}

} // verus!

