use crab_networking::client::ClientDataUploader;
use crab_networking::events::ConnectionChange;
use crab_networking::events::ServerConnectionChangeEvent;
use crab_networking::player::PlayerType;
use crab_networking::player::Players;
use crab_networking::reconnect::observe_connection_change;
use crab_networking::reconnect::reconnect;
use crab_networking::reconnect::tick_reconnect_timer;
use crab_networking::reconnect::ReconnectTimer;
use crab_networking::AutoReconnect;
use crab_networking::ClientConfig;

fn auto_config(interval_ms: u64) -> ClientConfig {
    ClientConfig {
        server_address: "127.0.0.1:2942".to_string(),
        auto_reconnect: AutoReconnect::Auto { reconnection_time_ms: interval_ms },
    }
}

fn manual_config() -> ClientConfig {
    ClientConfig {
        server_address: "127.0.0.1:2942".to_string(),
        auto_reconnect: AutoReconnect::Off,
    }
}

fn disconnected_event() -> ServerConnectionChangeEvent {
    ServerConnectionChangeEvent { connection_change: ConnectionChange::Disconnected }
}

fn connected_event() -> ServerConnectionChangeEvent {
    ServerConnectionChangeEvent { connection_change: ConnectionChange::Connected }
}

#[test]
fn disconnect_arms_timer_and_clears_queue() {
    let config = auto_config(5000);
    let mut uploader = ClientDataUploader { list: Some(vec![]) };
    let mut timer: Option<ReconnectTimer> = None;
    observe_connection_change(
        ConnectionChange::Disconnected,
        &mut uploader,
        &mut timer,
        &config,
    );
    assert_eq!(uploader.list, None);
    assert_eq!(timer, Some(ReconnectTimer { interval_ms: 5000, elapsed_ms: 0 }));
}

#[test]
fn disconnect_without_auto_reconnect_arms_nothing() {
    let config = manual_config();
    let mut uploader = ClientDataUploader { list: Some(vec![]) };
    let mut timer: Option<ReconnectTimer> = None;
    observe_connection_change(
        ConnectionChange::Disconnected,
        &mut uploader,
        &mut timer,
        &config,
    );
    assert_eq!(uploader.list, None);
    assert_eq!(timer, None);
}

#[test]
fn connected_disarms_timer() {
    let config = auto_config(5000);
    let mut uploader = ClientDataUploader { list: Some(vec![]) };
    let mut timer = Some(ReconnectTimer { interval_ms: 5000, elapsed_ms: 100 });
    observe_connection_change(ConnectionChange::Connected, &mut uploader, &mut timer, &config);
    assert_eq!(timer, None);
    assert_eq!(uploader.list, Some(vec![]));
}

#[test]
fn reconnection_timing_five_seconds() {
    // Auto-reconnect every 5 s: a Disconnected event arms the timer,
    // advancing simulated time by 5 s triggers exactly one attempt, and a
    // Connected event before the next period disarms it for good.
    let config = auto_config(5000);
    let mut uploader = ClientDataUploader { list: Some(vec![]) };
    let mut timer: Option<ReconnectTimer> = None;

    let events = vec![disconnected_event()];
    let attempt = reconnect(&events, &mut uploader, &mut timer, &config, 0);
    assert!(!attempt);
    assert_eq!(timer, Some(ReconnectTimer { interval_ms: 5000, elapsed_ms: 0 }));

    // 5 s pass in two ticks; only the tick that completes the period owes
    // exactly one attempt.
    let no_events: Vec<ServerConnectionChangeEvent> = vec![];
    let attempt = reconnect(&no_events, &mut uploader, &mut timer, &config, 2500);
    assert!(!attempt);
    let attempt = reconnect(&no_events, &mut uploader, &mut timer, &config, 2500);
    assert!(attempt);
    assert_eq!(timer, Some(ReconnectTimer { interval_ms: 5000, elapsed_ms: 0 }));

    // The attempt succeeds: Connected disarms the timer, and later ticks
    // make no further attempts.
    let events = vec![connected_event()];
    let attempt = reconnect(&events, &mut uploader, &mut timer, &config, 1000);
    assert!(!attempt);
    assert_eq!(timer, None);
    let attempt = reconnect(&no_events, &mut uploader, &mut timer, &config, 10000);
    assert!(!attempt);
    assert_eq!(timer, None);
}

#[test]
fn tick_keeps_leftover_time_for_next_period() {
    let mut timer = Some(ReconnectTimer { interval_ms: 5000, elapsed_ms: 4000 });
    let attempt = tick_reconnect_timer(&mut timer, 2500);
    assert!(attempt);
    assert_eq!(timer, Some(ReconnectTimer { interval_ms: 5000, elapsed_ms: 1500 }));
    let attempt = tick_reconnect_timer(&mut timer, 1000);
    assert!(!attempt);
    assert_eq!(timer, Some(ReconnectTimer { interval_ms: 5000, elapsed_ms: 2500 }));
}

#[test]
fn tick_without_timer_owes_nothing() {
    let mut timer: Option<ReconnectTimer> = None;
    assert!(!tick_reconnect_timer(&mut timer, 100000));
    assert_eq!(timer, None);
}

#[test]
fn reconnect_applies_events_in_order() {
    // Disconnected then Connected within one drain: the timer ends disarmed.
    let config = auto_config(5000);
    let mut uploader = ClientDataUploader { list: Some(vec![]) };
    let mut timer: Option<ReconnectTimer> = None;
    let events = vec![disconnected_event(), connected_event()];
    let attempt = reconnect(&events, &mut uploader, &mut timer, &config, 9000);
    assert!(!attempt);
    assert_eq!(timer, None);
}

#[test]
fn opposite_swaps_the_two_players() {
    assert_eq!(PlayerType::Red.opposite(), PlayerType::Yellow);
    assert_eq!(PlayerType::Yellow.opposite(), PlayerType::Red);
    assert_eq!(PlayerType::Red.opposite().opposite(), PlayerType::Red);
}

#[test]
fn players_variants_are_distinct() {
    assert_ne!(Players::Both, Players::Neither);
    assert_ne!(Players::Single(PlayerType::Red), Players::Single(PlayerType::Yellow));
}
