//! The client's reconnection controller: a two-state machine.  It is idle
//! while connected (or while auto-reconnect is off); observing
//! `Disconnected` with auto-reconnect configured arms a repeating timer, and
//! observing `Connected` disarms it.  Each tick the host reports how much
//! time passed; when the armed timer's period elapses, exactly one reconnect
//! attempt is owed and the timer stays armed for the next period.

use vstd::prelude::*;

use crate::client::ClientDataUploader;
use crate::events::ConnectionChange;
use crate::events::ServerConnectionChangeEvent;
use crate::AutoReconnect;
use crate::ClientConfig;
use crate::DataPacket;

verus! {

/// The armed retry timer: fires each time another `interval_ms` of
/// simulated time accumulates.  Absent while the controller is idle.
#[derive(Clone, Copy, Debug, PartialEq, Eq, Structural)]
pub struct ReconnectTimer {
    pub interval_ms: u64,
    pub elapsed_ms: u64,
}

impl ReconnectTimer {
    /// The accumulated time never reaches a full period between ticks.
    pub open spec fn wf(self) -> bool {
        self.interval_ms > 0 && self.elapsed_ms < self.interval_ms
    }
}

/// The timer state after one connection-change event: `Connected` disarms,
/// `Disconnected` arms a fresh timer when auto-reconnect is on and leaves
/// the timer alone when it is off.
pub open spec fn timer_after_change(
    timer: Option<ReconnectTimer>,
    change: ConnectionChange,
    auto_reconnect: AutoReconnect,
) -> Option<ReconnectTimer> {
    match change {
        ConnectionChange::Connected => Option::None,
        ConnectionChange::Disconnected => match auto_reconnect {
            AutoReconnect::Auto { reconnection_time_ms } => Option::Some(
                ReconnectTimer { interval_ms: reconnection_time_ms, elapsed_ms: 0 },
            ),
            AutoReconnect::Off => timer,
        },
    }
}

/// Applies one observed connection change: `Connected` disarms the timer;
/// `Disconnected` marks the client as no longer connected (the outbound
/// queue goes away) and arms a fresh timer when auto-reconnect is on.
pub fn observe_connection_change(
    change: ConnectionChange,
    client_data_uploader: &mut ClientDataUploader,
    reconnect_timer: &mut Option<ReconnectTimer>,
    client_config: &ClientConfig,
)
    ensures
        *final(reconnect_timer) == timer_after_change(
            *old(reconnect_timer),
            change,
            client_config.auto_reconnect,
        ),
        final(client_data_uploader).list == (match change {
            ConnectionChange::Connected => old(client_data_uploader).list,
            ConnectionChange::Disconnected => Option::<Vec<DataPacket>>::None,
        }),
{
    match change {
        ConnectionChange::Connected => {
            *reconnect_timer = Option::None;
        },
        ConnectionChange::Disconnected => {
            client_data_uploader.list = Option::None;
            match &client_config.auto_reconnect {
                AutoReconnect::Auto { reconnection_time_ms } => {
                    *reconnect_timer = Option::Some(
                        ReconnectTimer { interval_ms: *reconnection_time_ms, elapsed_ms: 0 },
                    );
                },
                AutoReconnect::Off => {},
            }
        },
    }
}

/// Advances the armed timer by `delta_ms` and says whether a reconnect
/// attempt is owed: exactly when a full period has now elapsed.  The timer
/// repeats: the time beyond the period counts toward the next one.  An
/// absent timer owes nothing.
pub fn tick_reconnect_timer(reconnect_timer: &mut Option<ReconnectTimer>, delta_ms: u64) -> (
    attempt: bool)
    requires
        match *old(reconnect_timer) {
            Option::Some(timer) => timer.wf() && delta_ms <= u64::MAX - timer.elapsed_ms,
            Option::None => true,
        },
    ensures
        match *old(reconnect_timer) {
            Option::Some(timer) => {
                &&& attempt == (timer.elapsed_ms + delta_ms >= timer.interval_ms)
                &&& *final(reconnect_timer) == Option::Some(
                    ReconnectTimer {
                        interval_ms: timer.interval_ms,
                        elapsed_ms: ((timer.elapsed_ms + delta_ms) % (timer.interval_ms as int)) as u64,
                    },
                )
                &&& final(reconnect_timer)->Some_0.wf()
            },
            Option::None => {
                &&& attempt == false
                &&& *final(reconnect_timer) == *old(reconnect_timer)
            },
        },
{
    match reconnect_timer {
        Option::Some(timer) => {
            let total = timer.elapsed_ms + delta_ms;
            if total >= timer.interval_ms {
                timer.elapsed_ms = total % timer.interval_ms;
                true
            } else {
                timer.elapsed_ms = total;
                proof {
                    assert(total % timer.interval_ms == total) by (nonlinear_arith)
                        requires
                            0 <= total < timer.interval_ms,
                    ;
                }
                false
            }
        },
        Option::None => false,
    }
}

/// The outbound queue as the controller state sees it: the queued payloads
/// when connected, absence otherwise.
pub open spec fn uploader_list_view(uploader: ClientDataUploader) -> Option<Seq<DataPacket>> {
    match uploader.list {
        Option::Some(list) => Option::Some(list@),
        Option::None => Option::<Seq<DataPacket>>::None,
    }
}

/// The controller state after a whole drain of connection-change events,
/// applied in arrival order.
pub open spec fn state_after_changes(
    list: Option<Seq<DataPacket>>,
    timer: Option<ReconnectTimer>,
    changes: Seq<ConnectionChange>,
    auto_reconnect: AutoReconnect,
) -> (Option<Seq<DataPacket>>, Option<ReconnectTimer>)
    decreases changes.len(),
{
    if changes.len() == 0 {
        (list, timer)
    } else {
        let next_list = match changes[0] {
            ConnectionChange::Connected => list,
            ConnectionChange::Disconnected => Option::None,
        };
        let next_timer = timer_after_change(timer, changes[0], auto_reconnect);
        state_after_changes(next_list, next_timer, changes.drop_first(), auto_reconnect)
    }
}

/// One update-tick of the reconnection controller, as the consumer's
/// schedule runs it: applies this tick's connection-change events in order,
/// then advances the timer by the time elapsed since the last tick.  Returns
/// whether the host owes one reconnect attempt now.
pub fn reconnect(
    connection_changes: &Vec<ServerConnectionChangeEvent>,
    client_data_uploader: &mut ClientDataUploader,
    reconnect_timer: &mut Option<ReconnectTimer>,
    client_config: &ClientConfig,
    delta_ms: u64,
) -> (attempt: bool)
    requires
        match *old(reconnect_timer) {
            Option::Some(timer) => timer.wf() && delta_ms <= u64::MAX - timer.elapsed_ms,
            Option::None => true,
        },
        match client_config.auto_reconnect {
            AutoReconnect::Auto { reconnection_time_ms } => reconnection_time_ms > 0,
            AutoReconnect::Off => true,
        },
    ensures
        ({
            let changes = connection_changes@.map_values(
                |event: ServerConnectionChangeEvent| event.connection_change,
            );
            let old_list = uploader_list_view(*old(client_data_uploader));
            let (next_list, next_timer) = state_after_changes(
                old_list,
                *old(reconnect_timer),
                changes,
                client_config.auto_reconnect,
            );
            &&& uploader_list_view(*final(client_data_uploader)) == next_list
            &&& (match next_timer {
                Option::Some(timer) => {
                    &&& attempt == (timer.elapsed_ms + delta_ms >= timer.interval_ms)
                    &&& *final(reconnect_timer) == Option::Some(
                        ReconnectTimer {
                            interval_ms: timer.interval_ms,
                            elapsed_ms: ((timer.elapsed_ms + delta_ms) % (timer.interval_ms as int)) as u64,
                        },
                    )
                },
                Option::None => {
                    &&& attempt == false
                    &&& *final(reconnect_timer) is None
                },
            })
            &&& (match *final(reconnect_timer) {
                Option::Some(timer) => timer.wf(),
                Option::None => true,
            })
        }),
{
    let ghost changes = connection_changes@.map_values(
        |event: ServerConnectionChangeEvent| event.connection_change,
    );
    let ghost list0 = uploader_list_view(*old(client_data_uploader));
    let ghost timer0 = *old(reconnect_timer);
    let mut i: usize = 0;
    proof {
        assert(changes.skip(0) =~= changes);
    }
    while i < connection_changes.len()
        invariant
            i <= changes.len(),
            connection_changes@.map_values(
                |event: ServerConnectionChangeEvent| event.connection_change,
            ) == changes,
            match client_config.auto_reconnect {
                AutoReconnect::Auto { reconnection_time_ms } => reconnection_time_ms > 0,
                AutoReconnect::Off => true,
            },
            match *reconnect_timer {
                Option::Some(timer) => timer.wf(),
                Option::None => true,
            },
            *reconnect_timer == timer0 || (match *reconnect_timer {
                Option::Some(timer) => timer.elapsed_ms == 0,
                Option::None => true,
            }),
            state_after_changes(list0, timer0, changes, client_config.auto_reconnect)
                == state_after_changes(
                uploader_list_view(*client_data_uploader),
                *reconnect_timer,
                changes.skip(i as int),
                client_config.auto_reconnect,
            ),
        decreases changes.len() - i,
    {
        let change = connection_changes[i].connection_change;
        let ghost prev_list = uploader_list_view(*client_data_uploader);
        let ghost prev_timer = *reconnect_timer;
        proof {
            assert(changes.skip(i as int).drop_first() =~= changes.skip(i + 1));
            assert(changes.skip(i as int)[0] == changes[i as int]);
        }
        observe_connection_change(change, client_data_uploader, reconnect_timer, client_config);
        proof {
            assert(state_after_changes(
                prev_list,
                prev_timer,
                changes.skip(i as int),
                client_config.auto_reconnect,
            ) == state_after_changes(
                uploader_list_view(*client_data_uploader),
                *reconnect_timer,
                changes.skip(i + 1),
                client_config.auto_reconnect,
            ));
        }
        i = i + 1;
    }
    proof {
        assert(changes.skip(changes.len() as int) =~= Seq::<ConnectionChange>::empty());
    }
    tick_reconnect_timer(reconnect_timer, delta_ms)
}

} // verus!
