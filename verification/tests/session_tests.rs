use crab_networking::client::client_specific_setup;
use crab_networking::client::complete_connect;
use crab_networking::client::connect_to_server;
use crab_networking::client::disconnect_from_server;
use crab_networking::client::is_connected_to_server;
use crab_networking::client::send_data_to_server;
use crab_networking::client::ClientDataUploader;
use crab_networking::client::ClientReadStopFlag;
use crab_networking::client::ClientStream;
use crab_networking::client::DialOutcome;
use crab_networking::codec::encode_packet;
use crab_networking::codec::FrameDecoder;
use crab_networking::events::ClientEventQueue;
use crab_networking::events::ConnectionChange;
use crab_networking::events::ServerEventQueue;
use crab_networking::reader::client_read_iteration;
use crab_networking::reader::client_stop_check;
use crab_networking::reader::handle_server_stream_error;
use crab_networking::reader::server_read_iteration;
use crab_networking::reader::ReaderControl;
use crab_networking::reader::StreamErrorKind;
use crab_networking::server::resolve_recipient;
use crab_networking::server::send_data_to_clients;
use crab_networking::server::server_specific_setup;
use crab_networking::server::ServerStreams;
use crab_networking::AutoReconnect;
use crab_networking::ClientConfig;
use crab_networking::ConnectionError;
use crab_networking::DataPacket;
use crab_networking::IntergressType;
use crab_networking::Recipient;
use crab_networking::RoleSetup;
use crab_networking::ServerConfig;

fn test_client_config() -> ClientConfig {
    ClientConfig {
        server_address: "127.0.0.1:2942".to_string(),
        auto_reconnect: AutoReconnect::Off,
    }
}

fn packet(identifier: u32, bytes: Vec<u8>) -> DataPacket {
    DataPacket { identifier, bytes }
}

#[test]
fn upload_without_connection_is_rejected() {
    let (mut uploader, _stream) = client_specific_setup();
    let result = uploader.upload(packet(0, vec![1]));
    assert_eq!(result, Err(ConnectionError::NotConnectedToServer));
    assert!(!uploader.is_connected());
}

#[test]
fn upload_while_connected_queues() {
    let mut uploader = ClientDataUploader { list: Some(vec![]) };
    assert!(uploader.upload(packet(1, vec![2])).is_ok());
    assert!(uploader.is_connected());
    assert_eq!(uploader.list.as_ref().unwrap().len(), 1);
}

#[test]
fn is_connected_to_server_checks_queue_presence() {
    assert!(!is_connected_to_server(None));
    let disconnected = ClientDataUploader { list: None };
    assert!(!is_connected_to_server(Some(&disconnected)));
    let connected = ClientDataUploader { list: Some(vec![]) };
    assert!(is_connected_to_server(Some(&connected)));
}

#[test]
fn outbound_queue_drains_atomically_in_order() {
    // Three payloads submitted, then one drain: all three delivered in
    // submission order, and the queue is empty immediately after.
    let mut uploader = ClientDataUploader { list: Some(vec![]) };
    let first = packet(1, vec![10]);
    let second = packet(2, vec![20, 21]);
    let third = packet(3, vec![]);
    uploader.upload(first.clone()).unwrap();
    uploader.upload(second.clone()).unwrap();
    uploader.upload(third.clone()).unwrap();
    let stream = ClientStream { stream: Some(99) };
    let frames = send_data_to_server(&mut uploader, &stream);
    assert_eq!(
        frames,
        vec![encode_packet(&first), encode_packet(&second), encode_packet(&third)]
    );
    assert_eq!(uploader.list, Some(vec![]));
}

#[test]
fn drain_without_stream_changes_nothing() {
    let mut uploader = ClientDataUploader { list: None };
    let stream = ClientStream { stream: None };
    let frames = send_data_to_server(&mut uploader, &stream);
    assert!(frames.is_empty());
    assert_eq!(uploader.list, None);
}

#[test]
fn connect_requires_config() {
    let stream = ClientStream { stream: None };
    assert_eq!(
        connect_to_server(&stream, None),
        Err(ConnectionError::MissingClientConfig)
    );
}

#[test]
fn connect_rejected_when_already_connected() {
    let config = test_client_config();
    let stream = ClientStream { stream: Some(4) };
    assert_eq!(
        connect_to_server(&stream, Some(&config)),
        Err(ConnectionError::AlreadyConnectedToServer)
    );
    let empty = ClientStream { stream: None };
    assert_eq!(connect_to_server(&empty, Some(&config)), Ok(()));
}

#[test]
fn complete_connect_success_stores_stream_and_announces() {
    let mut stream = ClientStream { stream: None };
    let mut uploader = ClientDataUploader { list: None };
    let mut flag: Option<ClientReadStopFlag> = None;
    let mut events = ClientEventQueue::new();
    let result = complete_connect(
        DialOutcome::Connected { handle: 17 },
        &mut stream,
        &mut uploader,
        &mut flag,
        &mut events,
    );
    assert_eq!(result, Ok(()));
    assert_eq!(stream.stream, Some(17));
    assert_eq!(uploader.list, Some(vec![]));
    assert!(!flag.unwrap().0);
    let changes = events.drain_connection_events();
    assert_eq!(changes.len(), 1);
    assert_eq!(changes[0].connection_change, ConnectionChange::Connected);
}

#[test]
fn complete_connect_refused_reports_and_announces_disconnect() {
    let mut stream = ClientStream { stream: None };
    let mut uploader = ClientDataUploader { list: None };
    let mut flag: Option<ClientReadStopFlag> = None;
    let mut events = ClientEventQueue::new();
    let result = complete_connect(
        DialOutcome::Refused,
        &mut stream,
        &mut uploader,
        &mut flag,
        &mut events,
    );
    assert_eq!(result, Err(ConnectionError::ConnectionRefused));
    assert_eq!(stream.stream, None);
    assert_eq!(uploader.list, None);
    let changes = events.drain_connection_events();
    assert_eq!(changes.len(), 1);
    assert_eq!(changes[0].connection_change, ConnectionChange::Disconnected);
}

#[test]
fn complete_connect_failure_maps_to_tcp_err() {
    let mut stream = ClientStream { stream: None };
    let mut uploader = ClientDataUploader { list: None };
    let mut flag: Option<ClientReadStopFlag> = None;
    let mut events = ClientEventQueue::new();
    let result = complete_connect(
        DialOutcome::Failed,
        &mut stream,
        &mut uploader,
        &mut flag,
        &mut events,
    );
    assert_eq!(result, Err(ConnectionError::TcpErr));
    assert_eq!(stream.stream, None);
}

#[test]
fn disconnect_requires_config_and_raises_flag() {
    let mut flag = Some(ClientReadStopFlag(false));
    assert_eq!(
        disconnect_from_server(None, &mut flag),
        Err(ConnectionError::MissingClientConfig)
    );
    assert!(!flag.as_ref().unwrap().0);
    let config = test_client_config();
    assert_eq!(disconnect_from_server(Some(&config), &mut flag), Ok(()));
    assert!(flag.unwrap().0);
}

#[test]
fn disconnect_without_flag_is_quiet_success() {
    let config = test_client_config();
    let mut flag: Option<ClientReadStopFlag> = None;
    assert_eq!(disconnect_from_server(Some(&config), &mut flag), Ok(()));
    assert!(flag.is_none());
}

fn registry_with_ids(ids: &[u32]) -> ServerStreams {
    let mut streams = ServerStreams::new();
    let mut events = ServerEventQueue::new();
    let mut highest = 0;
    for id in ids {
        highest = highest.max(*id);
    }
    // Accept connections up to the highest wanted id, then drop the rest.
    for candidate in 0..=highest {
        let assigned = streams.accept_connection(1000 + candidate as u64, &mut events);
        assert_eq!(assigned, candidate);
    }
    for candidate in 0..=highest {
        if !ids.contains(&candidate) {
            assert!(streams.remove_connection(candidate));
        }
    }
    streams
}

#[test]
fn accept_assigns_monotonic_ids_and_announces_joins() {
    let (mut _uploader, mut streams) = server_specific_setup();
    let mut events = ServerEventQueue::new();
    assert_eq!(streams.accept_connection(50, &mut events), 0);
    assert_eq!(streams.accept_connection(51, &mut events), 1);
    assert_eq!(streams.accept_connection(52, &mut events), 2);
    let joins = events.drain_intergress_events();
    assert_eq!(joins.len(), 3);
    for (i, event) in joins.iter().enumerate() {
        assert_eq!(event.id, i as u32);
        assert_eq!(event.intergress_type, IntergressType::Joined);
    }
    assert_eq!(streams.streams, vec![(0, 50), (1, 51), (2, 52)]);
}

#[test]
fn all_except_routes_to_everyone_else() {
    // Registry {1, 2, 3}: AllExcept 2 delivers to exactly {1, 3}.
    let streams = registry_with_ids(&[1, 2, 3]);
    let resolved = resolve_recipient(&streams, Recipient::AllExcept { id: 2 });
    let ids: Vec<u32> = resolved.iter().map(|e| e.0).collect();
    assert_eq!(ids, vec![1, 3]);
}

#[test]
fn single_routes_to_exactly_one() {
    let streams = registry_with_ids(&[1, 2, 3]);
    let resolved = resolve_recipient(&streams, Recipient::Single { id: 2 });
    let ids: Vec<u32> = resolved.iter().map(|e| e.0).collect();
    assert_eq!(ids, vec![2]);
}

#[test]
fn single_with_absent_id_delivers_to_nobody() {
    let streams = registry_with_ids(&[1, 2, 3]);
    let resolved = resolve_recipient(&streams, Recipient::Single { id: 5 });
    assert!(resolved.is_empty());
}

#[test]
fn all_routes_to_everyone() {
    let streams = registry_with_ids(&[1, 2, 3]);
    let resolved = resolve_recipient(&streams, Recipient::All);
    let ids: Vec<u32> = resolved.iter().map(|e| e.0).collect();
    assert_eq!(ids, vec![1, 2, 3]);
}

#[test]
fn server_dispatch_resolves_each_payload_and_empties_queue() {
    let streams = registry_with_ids(&[1, 2, 3]);
    let (mut uploader, _unused) = server_specific_setup();
    let broadcast = packet(7, vec![1]);
    let private = packet(8, vec![2]);
    uploader.upload(broadcast.clone(), Recipient::AllExcept { id: 2 });
    uploader.upload(private.clone(), Recipient::Single { id: 3 });
    uploader.upload(packet(9, vec![3]), Recipient::Single { id: 5 });
    let plan = send_data_to_clients(&streams, &mut uploader);
    assert!(uploader.list.is_empty());
    let handle_of = |id: u32| streams.streams.iter().find(|e| e.0 == id).unwrap().1;
    assert_eq!(
        plan,
        vec![
            (handle_of(1), encode_packet(&broadcast)),
            (handle_of(3), encode_packet(&broadcast)),
            (handle_of(3), encode_packet(&private)),
        ]
    );
}

#[test]
fn reset_teardown_removes_id_and_emits_one_left_event() {
    // A peer reset on connection 7 removes 7 from the registry, yields
    // exactly one Left{7}, and nothing is ever routed to 7 again.
    let streams_ids: Vec<u32> = vec![5, 6, 7, 8];
    let mut streams = registry_with_ids(&streams_ids);
    let mut events = ServerEventQueue::new();
    let result =
        handle_server_stream_error(StreamErrorKind::ConnectionReset, 7, &mut streams, &mut events);
    assert_eq!(result, Err(ConnectionError::ConnectionReset));
    assert!(streams.streams.iter().all(|e| e.0 != 7));
    let left = events.drain_intergress_events();
    assert_eq!(left.len(), 1);
    assert_eq!(left[0].id, 7);
    assert_eq!(left[0].intergress_type, IntergressType::Left);
    let resolved = resolve_recipient(&streams, Recipient::All);
    assert!(resolved.iter().all(|e| e.0 != 7));
    let resolved = resolve_recipient(&streams, Recipient::Single { id: 7 });
    assert!(resolved.is_empty());
}

#[test]
fn transient_error_changes_nothing() {
    let mut streams = registry_with_ids(&[1, 2]);
    let before = streams.streams.clone();
    let mut events = ServerEventQueue::new();
    let result = handle_server_stream_error(StreamErrorKind::Other, 1, &mut streams, &mut events);
    assert_eq!(result, Ok(()));
    assert_eq!(streams.streams, before);
    assert!(events.drain_intergress_events().is_empty());
}

#[test]
fn client_reader_delivers_decoded_payloads() {
    let expected = packet(4, vec![1, 2, 3]);
    let frame = encode_packet(&expected);
    let mut decoder = FrameDecoder::new();
    let mut stream = ClientStream { stream: Some(1) };
    let mut events = ClientEventQueue::new();
    let control = client_read_iteration(Ok(frame), &mut decoder, &mut stream, &mut events);
    assert_eq!(control, ReaderControl::Continue);
    assert_eq!(stream.stream, Some(1));
    let data = events.drain_data_events();
    assert_eq!(data.len(), 1);
    assert_eq!(data[0].data_packet, expected);
}

#[test]
fn client_reader_reset_tears_down_and_stops() {
    let mut decoder = FrameDecoder::new();
    let mut stream = ClientStream { stream: Some(1) };
    let mut events = ClientEventQueue::new();
    let control = client_read_iteration(
        Err(StreamErrorKind::ConnectionReset),
        &mut decoder,
        &mut stream,
        &mut events,
    );
    assert_eq!(control, ReaderControl::Stop);
    assert_eq!(stream.stream, None);
    let changes = events.drain_connection_events();
    assert_eq!(changes.len(), 1);
    assert_eq!(changes[0].connection_change, ConnectionChange::Disconnected);
}

#[test]
fn client_reader_transient_error_retries() {
    let mut decoder = FrameDecoder::new();
    let mut stream = ClientStream { stream: Some(1) };
    let mut events = ClientEventQueue::new();
    let control = client_read_iteration(
        Err(StreamErrorKind::Other),
        &mut decoder,
        &mut stream,
        &mut events,
    );
    assert_eq!(control, ReaderControl::Continue);
    assert_eq!(stream.stream, Some(1));
    assert!(events.drain_connection_events().is_empty());
    assert!(events.drain_data_events().is_empty());
}

#[test]
fn stop_flag_emits_disconnected_and_stops() {
    let mut events = ClientEventQueue::new();
    assert!(!client_stop_check(&ClientReadStopFlag(false), &mut events));
    assert!(events.drain_connection_events().is_empty());
    assert!(client_stop_check(&ClientReadStopFlag(true), &mut events));
    let changes = events.drain_connection_events();
    assert_eq!(changes.len(), 1);
    assert_eq!(changes[0].connection_change, ConnectionChange::Disconnected);
}

#[test]
fn no_cross_talk_between_reader_loops() {
    // Two connections feed the same server event queue: every event carries
    // the id of the loop that read it, never the other one.
    let packet_a = packet(1, vec![0xaa]);
    let packet_b = packet(2, vec![0xbb]);
    let mut streams = registry_with_ids(&[0, 1]);
    let mut events = ServerEventQueue::new();
    let mut decoder_a = FrameDecoder::new();
    let mut decoder_b = FrameDecoder::new();
    let control = server_read_iteration(
        0,
        Ok(encode_packet(&packet_a)),
        &mut decoder_a,
        &mut streams,
        &mut events,
    );
    assert_eq!(control, ReaderControl::Continue);
    server_read_iteration(
        1,
        Ok(encode_packet(&packet_b)),
        &mut decoder_b,
        &mut streams,
        &mut events,
    );
    let data = events.drain_data_events();
    assert_eq!(data.len(), 2);
    assert_eq!(data[0].id, 0);
    assert_eq!(data[0].data_packet, packet_a);
    assert_eq!(data[1].id, 1);
    assert_eq!(data[1].data_packet, packet_b);
}

#[test]
fn host_server_requires_config_and_returns_port() {
    assert_eq!(
        crab_networking::server::host_server(None),
        Err(ConnectionError::MissingServerConfig)
    );
    let config = ServerConfig { host_port: 2942 };
    assert_eq!(crab_networking::server::host_server(Some(&config)), Ok(2942));
}

#[test]
fn remove_connection_reports_absence() {
    let mut streams = registry_with_ids(&[1, 2]);
    assert!(!streams.remove_connection(9));
    assert!(streams.remove_connection(1));
    assert!(!streams.remove_connection(1));
    let ids: Vec<u32> = streams.streams.iter().map(|e| e.0).collect();
    assert_eq!(ids, vec![2]);
}

#[test]
fn setup_decides_role_from_configs() {
    let client = test_client_config();
    let server = ServerConfig { host_port: 1 };
    assert_eq!(crab_networking::setup(Some(&client), None), RoleSetup::Client);
    assert_eq!(crab_networking::setup(None, Some(&server)), RoleSetup::Server);
    assert_eq!(
        crab_networking::setup(Some(&client), Some(&server)),
        RoleSetup::BothPresent
    );
    assert_eq!(crab_networking::setup(None, None), RoleSetup::NonePresent);
}

#[test]
fn default_configs_match_documented_values() {
    let server = ServerConfig::default();
    assert_eq!(server.host_port, 46393);
    let client = ClientConfig::default();
    assert_eq!(client.server_address, "127.0.0.1:46393");
    assert_eq!(
        client.auto_reconnect,
        AutoReconnect::Auto { reconnection_time_ms: 5000 }
    );
}
