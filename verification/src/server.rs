//! Server role: the registry mapping each accepted connection's id to its
//! live stream handle, the outbound queue of addressed payloads, and the
//! per-tick dispatcher that resolves recipients against the registry and
//! decides which frame goes to which stream.  The host owns the sockets: it
//! picks a handle for each accepted stream and performs the writes the
//! dispatcher returns.

use vstd::prelude::*;

use crate::codec::encode_packet;
use crate::codec::frame_bytes;
use crate::events::PlayerIntergressEvent;
use crate::events::ServerEventQueue;
use crate::ConnectionError;
use crate::DataPacket;
use crate::IntergressType;
use crate::Recipient;
use crate::ServerConfig;

verus! {

/// Whether some entry of `s` is registered under connection id `id`.
pub open spec fn has_id(s: Seq<(u32, u64)>, id: u32) -> bool {
    exists|i: int| 0 <= i < s.len() && (#[trigger] s[i]).0 == id
}

/// No two entries of `s` share a connection id.
pub open spec fn unique_ids(s: Seq<(u32, u64)>) -> bool {
    forall|i: int, j: int|
        0 <= i < j < s.len() ==> (#[trigger] s[i]).0 != (#[trigger] s[j]).0
}

/// Every connection id in `s` was assigned before `bound`.
pub open spec fn ids_below(s: Seq<(u32, u64)>, bound: u32) -> bool {
    forall|i: int| 0 <= i < s.len() ==> (#[trigger] s[i]).0 < bound
}

/// `s` without every entry registered under `id`, order kept.
pub open spec fn remove_id(s: Seq<(u32, u64)>, id: u32) -> Seq<(u32, u64)>
    decreases s.len(),
{
    if s.len() == 0 {
        s
    } else if s[0].0 == id {
        remove_id(s.drop_first(), id)
    } else {
        seq![s[0]] + remove_id(s.drop_first(), id)
    }
}

/// An id is found in `seq![x] + u` exactly when `x` carries it or `u` holds it.
proof fn lemma_has_id_cons(x: (u32, u64), u: Seq<(u32, u64)>, id: u32)
    ensures
        has_id(seq![x] + u, id) == (x.0 == id || has_id(u, id)),
{
    let s = seq![x] + u;
    assert(s[0] == x);
    assert(forall|i: int| 0 <= i < u.len() ==> s[i + 1] == u[i]);
    if x.0 == id {
        assert(has_id(s, id));
    }
    if has_id(u, id) {
        let i = choose|i: int| 0 <= i < u.len() && (#[trigger] u[i]).0 == id;
        assert(s[i + 1].0 == id);
        assert(has_id(s, id));
    }
    if has_id(s, id) {
        let i = choose|i: int| 0 <= i < s.len() && (#[trigger] s[i]).0 == id;
        if i > 0 {
            assert(u[i - 1].0 == id);
            assert(has_id(u, id));
        }
    }
}

/// Prepending a fresh entry keeps ids unique.
proof fn lemma_unique_cons(x: (u32, u64), u: Seq<(u32, u64)>)
    requires
        unique_ids(u),
        !has_id(u, x.0),
    ensures
        unique_ids(seq![x] + u),
{
    let s = seq![x] + u;
    assert forall|i: int, j: int| 0 <= i < j < s.len() implies (#[trigger] s[i]).0 != (
    #[trigger] s[j]).0 by {
        if i == 0 {
            assert(s[j] == u[j - 1]);
            if s[j].0 == x.0 {
                assert(has_id(u, x.0));
            }
        } else {
            assert(s[i] == u[i - 1]);
            assert(s[j] == u[j - 1]);
        }
    }
}

/// What removal leaves: `id` gone, every other id's presence untouched,
/// uniqueness and the id bound kept.
proof fn lemma_remove_id_properties(s: Seq<(u32, u64)>, id: u32, bound: u32)
    requires
        unique_ids(s),
        ids_below(s, bound),
    ensures
        !has_id(remove_id(s, id), id),
        forall|other: u32| other != id ==> has_id(remove_id(s, id), other) == has_id(s, other),
        unique_ids(remove_id(s, id)),
        ids_below(remove_id(s, id), bound),
    decreases s.len(),
{
    if s.len() == 0 {
    } else {
        let t = s.drop_first();
        assert(forall|i: int| 0 <= i < t.len() ==> t[i] == s[i + 1]);
        lemma_remove_id_properties(t, id, bound);
        assert(s =~= seq![s[0]] + t);
        lemma_has_id_cons(s[0], t, id);
        if s[0].0 == id {
            assert(remove_id(s, id) == remove_id(t, id));
            assert forall|other: u32| other != id implies has_id(remove_id(s, id), other) == has_id(
                s,
                other,
            ) by {
                lemma_has_id_cons(s[0], t, other);
            }
        } else {
            assert(remove_id(s, id) == seq![s[0]] + remove_id(t, id));
            if has_id(t, s[0].0) {
                let i = choose|i: int| 0 <= i < t.len() && (#[trigger] t[i]).0 == s[0].0;
                assert(s[i + 1].0 == s[0].0);
                assert(false);
            }
            assert(!has_id(remove_id(t, id), s[0].0));
            lemma_unique_cons(s[0], remove_id(t, id));
            lemma_has_id_cons(s[0], remove_id(t, id), id);
            assert forall|other: u32| other != id implies has_id(remove_id(s, id), other) == has_id(
                s,
                other,
            ) by {
                lemma_has_id_cons(s[0], remove_id(t, id), other);
                lemma_has_id_cons(s[0], t, other);
            }
            assert forall|i: int| 0 <= i < remove_id(s, id).len() implies (#[trigger] remove_id(
                s,
                id,
            )[i]).0 < bound by {
                if i > 0 {
                    assert(remove_id(s, id)[i] == remove_id(t, id)[i - 1]);
                }
            }
        }
    }
}

/// Extending the registry on the right removes independently of the prefix.
proof fn lemma_remove_id_snoc(s: Seq<(u32, u64)>, x: (u32, u64), id: u32)
    ensures
        remove_id(s.push(x), id) == remove_id(s, id) + (if x.0 == id {
            Seq::<(u32, u64)>::empty()
        } else {
            seq![x]
        }),
    decreases s.len(),
{
    let tail = if x.0 == id {
        Seq::<(u32, u64)>::empty()
    } else {
        seq![x]
    };
    if s.len() == 0 {
        assert(s.push(x)[0] == x);
        assert(s.push(x).drop_first() =~= Seq::<(u32, u64)>::empty());
        assert(remove_id(Seq::<(u32, u64)>::empty(), id) == Seq::<(u32, u64)>::empty());
        assert(remove_id(s.push(x), id) =~= remove_id(s, id) + tail);
    } else {
        assert(s.push(x)[0] == s[0]);
        assert(s.push(x).drop_first() =~= s.drop_first().push(x));
        lemma_remove_id_snoc(s.drop_first(), x, id);
        assert(remove_id(s.push(x), id) =~= remove_id(s, id) + tail);
    }
}

/// The registry the server owns: one entry per accepted connection, from the
/// connection id to the handle the host gave its stream.  Ids are assigned
/// monotonically from `next_id` and never reused while the process lives.
pub struct ServerStreams {
    pub streams: Vec<(u32, u64)>,
    pub next_id: u32,
}

impl ServerStreams {
    /// Registry invariant: ids are unique, and every registered id was drawn
    /// from the counter.
    pub open spec fn wf(self) -> bool {
        unique_ids(self.streams@) && ids_below(self.streams@, self.next_id)
    }

    pub fn new() -> (streams: Self)
        ensures
            streams.wf(),
            streams.streams@ == Seq::<(u32, u64)>::empty(),
            streams.next_id == 0,
    {
        ServerStreams { streams: Vec::new(), next_id: 0 }
    }

    /// Registers an accepted stream under the next connection id and
    /// announces the peer as joined.  The returned id was never in use.
    pub fn accept_connection(&mut self, handle: u64, events: &mut ServerEventQueue) -> (id: u32)
        requires
            old(self).wf(),
            old(self).next_id < u32::MAX,
        ensures
            final(self).wf(),
            id == old(self).next_id,
            !has_id(old(self).streams@, id),
            final(self).streams@ == old(self).streams@.push((id, handle)),
            final(self).next_id == id + 1,
            final(events).intergress_events@ == old(events).intergress_events@.push(
                PlayerIntergressEvent { id, intergress_type: IntergressType::Joined },
            ),
            final(events).data_events@ == old(events).data_events@,
    {
        let id = self.next_id;
        events.intergress_events.push(
            PlayerIntergressEvent { id, intergress_type: IntergressType::Joined },
        );
        self.streams.push((id, handle));
        self.next_id = id + 1;
        proof {
            let s = old(self).streams@;
            if has_id(s, id) {
                let i = choose|i: int| 0 <= i < s.len() && (#[trigger] s[i]).0 == id;
                assert(false);
            }
            assert forall|i: int, j: int| 0 <= i < j < self.streams@.len() implies (
            #[trigger] self.streams@[i]).0 != (#[trigger] self.streams@[j]).0 by {
                if j == s.len() {
                    assert(self.streams@[i] == s[i]);
                }
            }
        }
        id
    }

    /// Drops the entry registered under `id`, order of the rest kept;
    /// reports whether there was one.
    pub fn remove_connection(&mut self, id: u32) -> (removed: bool)
        requires
            old(self).wf(),
        ensures
            final(self).wf(),
            final(self).next_id == old(self).next_id,
            removed == has_id(old(self).streams@, id),
            final(self).streams@ == remove_id(old(self).streams@, id),
            !has_id(final(self).streams@, id),
            forall|other: u32|
                other != id ==> has_id(final(self).streams@, other) == has_id(
                    old(self).streams@,
                    other,
                ),
    {
        let ghost s = self.streams@;
        let mut kept: Vec<(u32, u64)> = Vec::new();
        let mut removed = false;
        let mut i: usize = 0;
        proof {
            assert(s.take(0) =~= Seq::<(u32, u64)>::empty());
        }
        while i < self.streams.len()
            invariant
                i <= s.len(),
                self.streams@ == s,
                kept@ == remove_id(s.take(i as int), id),
                removed == has_id(s.take(i as int), id),
            decreases s.len() - i,
        {
            let entry = self.streams[i];
            proof {
                assert(s.take(i + 1) =~= s.take(i as int).push(s[i as int]));
                lemma_remove_id_snoc(s.take(i as int), s[i as int], id);
                if entry.0 == id {
                    assert(s.take(i + 1)[i as int].0 == id);
                    assert(has_id(s.take(i + 1), id));
                } else {
                    if has_id(s.take(i + 1), id) {
                        let k = choose|k: int|
                            0 <= k < s.take(i + 1).len() && (#[trigger] s.take(i + 1)[k]).0 == id;
                        if k < i {
                            assert(s.take(i as int)[k].0 == id);
                            assert(has_id(s.take(i as int), id));
                        }
                    }
                }
            }
            if entry.0 == id {
                removed = true;
            } else {
                kept.push(entry);
                proof {
                    assert(kept@ =~= remove_id(s.take(i + 1), id));
                }
            }
            i = i + 1;
        }
        proof {
            assert(s.take(s.len() as int) =~= s);
            lemma_remove_id_properties(s, id, self.next_id);
        }
        self.streams = kept;
        removed
    }
}

/// The entries of `s` that recipient `r` addresses, in registry order.
pub open spec fn targets(s: Seq<(u32, u64)>, r: Recipient) -> Seq<(u32, u64)>
    decreases s.len(),
{
    if s.len() == 0 {
        s
    } else {
        (if r.selects(s[0].0) {
            seq![s[0]]
        } else {
            Seq::<(u32, u64)>::empty()
        }) + targets(s.drop_first(), r)
    }
}

/// Selection looks at each entry alone, so it distributes over extension.
proof fn lemma_targets_snoc(s: Seq<(u32, u64)>, x: (u32, u64), r: Recipient)
    ensures
        targets(s.push(x), r) == targets(s, r) + (if r.selects(x.0) {
            seq![x]
        } else {
            Seq::<(u32, u64)>::empty()
        }),
    decreases s.len(),
{
    let tail = if r.selects(x.0) {
        seq![x]
    } else {
        Seq::<(u32, u64)>::empty()
    };
    if s.len() == 0 {
        assert(s.push(x)[0] == x);
        assert(s.push(x).drop_first() =~= Seq::<(u32, u64)>::empty());
        assert(targets(Seq::<(u32, u64)>::empty(), r) == Seq::<(u32, u64)>::empty());
        assert(targets(s.push(x), r) =~= targets(s, r) + tail);
    } else {
        assert(s.push(x)[0] == s[0]);
        assert(s.push(x).drop_first() =~= s.drop_first().push(x));
        lemma_targets_snoc(s.drop_first(), x, r);
        assert(targets(s.push(x), r) =~= targets(s, r) + tail);
    }
}

/// Every targeted entry is a registered entry.
pub proof fn lemma_targets_registered(s: Seq<(u32, u64)>, r: Recipient)
    ensures
        forall|k: int|
            0 <= k < targets(s, r).len() ==> has_id(s, (#[trigger] targets(s, r)[k]).0)
                && r.selects(targets(s, r)[k].0),
    decreases s.len(),
{
    if s.len() == 0 {
    } else {
        let t = s.drop_first();
        lemma_targets_registered(t, r);
        assert(forall|i: int| 0 <= i < t.len() ==> t[i] == s[i + 1]);
        assert forall|k: int| 0 <= k < targets(s, r).len() implies has_id(
            s,
            (#[trigger] targets(s, r)[k]).0,
        ) && r.selects(targets(s, r)[k].0) by {
            let head = if r.selects(s[0].0) {
                seq![s[0]]
            } else {
                Seq::<(u32, u64)>::empty()
            };
            if k < head.len() {
                assert(targets(s, r)[k] == s[0]);
                assert(s[0].0 == s[0].0);
                assert(has_id(s, s[0].0));
            } else {
                assert(targets(s, r)[k] == targets(t, r)[k - head.len()]);
                let id = targets(t, r)[k - head.len()].0;
                assert(has_id(t, id));
                let i = choose|i: int| 0 <= i < t.len() && (#[trigger] t[i]).0 == id;
                assert(s[i + 1].0 == id);
                assert(has_id(s, id));
            }
        }
    }
}

/// A torn-down connection is never routed to again: no recipient selects an
/// entry from a registry that no longer holds its id.
pub proof fn lemma_removed_id_not_targeted(s: Seq<(u32, u64)>, id: u32, r: Recipient)
    requires
        !has_id(s, id),
    ensures
        forall|k: int| 0 <= k < targets(s, r).len() ==> (#[trigger] targets(s, r)[k]).0 != id,
{
    lemma_targets_registered(s, r);
}

/// The registry entries recipient `r` addresses, in registry order.
pub fn resolve_recipient(server_streams: &ServerStreams, recipient: Recipient) -> (resolved: Vec<
    (u32, u64),
>)
    ensures
        resolved@ == targets(server_streams.streams@, recipient),
{
    let ghost s = server_streams.streams@;
    let mut resolved: Vec<(u32, u64)> = Vec::new();
    let mut i: usize = 0;
    proof {
        assert(s.take(0) =~= Seq::<(u32, u64)>::empty());
    }
    while i < server_streams.streams.len()
        invariant
            i <= s.len(),
            server_streams.streams@ == s,
            resolved@ == targets(s.take(i as int), recipient),
        decreases s.len() - i,
    {
        let entry = server_streams.streams[i];
        proof {
            assert(s.take(i + 1) =~= s.take(i as int).push(s[i as int]));
            lemma_targets_snoc(s.take(i as int), s[i as int], recipient);
        }
        let deliver = match recipient {
            Recipient::All => true,
            Recipient::AllExcept { id } => entry.0 != id,
            Recipient::Single { id } => entry.0 == id,
        };
        if deliver {
            resolved.push(entry);
        }
        proof {
            assert(resolved@ =~= targets(s.take(i + 1), recipient));
        }
        i = i + 1;
    }
    proof {
        assert(s.take(s.len() as int) =~= s);
    }
    resolved
}

/// Whether hosting may proceed: the server role must be configured.  On
/// `Ok` the host binds a listening socket on the returned port and runs the
/// accept loop, registering each accepted stream through
/// [`ServerStreams::accept_connection`]; a failed bind surfaces to the
/// caller as its transport error.
pub fn host_server(server_config: Option<&ServerConfig>) -> (result: Result<u16, ConnectionError>)
    ensures
        result == (match server_config {
            Option::None => Result::<u16, ConnectionError>::Err(
                ConnectionError::MissingServerConfig,
            ),
            Option::Some(config) => Result::<u16, ConnectionError>::Ok(config.host_port),
        }),
{
    match server_config {
        Option::None => Result::Err(ConnectionError::MissingServerConfig),
        Option::Some(config) => Result::Ok(config.host_port),
    }
}

/// The server's outbound queue: payloads each addressed to one or more of
/// the registered connections.
pub struct ServerDataUploader {
    pub list: Vec<(Recipient, DataPacket)>,
}

impl ServerDataUploader {
    /// Every queued payload is small enough to frame.
    pub open spec fn wf(self) -> bool {
        forall|i: int| 0 <= i < self.list@.len() ==> (#[trigger] self.list@[i]).1.bytes@.len() <= u32::MAX
    }

    /// Queues one payload, addressed by `recipient`, for the next dispatch
    /// tick.
    pub fn upload(&mut self, data: DataPacket, recipient: Recipient)
        requires
            old(self).wf(),
            data.bytes@.len() <= u32::MAX,
        ensures
            final(self).wf(),
            final(self).list@ == old(self).list@.push((recipient, data)),
    {
        self.list.push((recipient, data));
    }
}

/// The server-role state the host owns before anything is accepted: an
/// empty outbound queue and an empty registry.
pub fn server_specific_setup() -> (state: (ServerDataUploader, ServerStreams))
    ensures
        state.0.list@ == Seq::<(Recipient, DataPacket)>::empty(),
        state.0.wf(),
        state.1.wf(),
        state.1.streams@ == Seq::<(u32, u64)>::empty(),
        state.1.next_id == 0,
{
    (ServerDataUploader { list: Vec::new() }, ServerStreams::new())
}

/// Each addressed stream handle paired with the one frame being delivered
/// to all of them.
pub open spec fn handles_with_frame(entries: Seq<(u32, u64)>, frame: Seq<u8>) -> Seq<
    (u64, Seq<u8>),
>
    decreases entries.len(),
{
    if entries.len() == 0 {
        Seq::<(u64, Seq<u8>)>::empty()
    } else {
        seq![(entries[0].1, frame)] + handles_with_frame(entries.drop_first(), frame)
    }
}

/// Pairing distributes over extension on the right.
proof fn lemma_handles_with_frame_snoc(entries: Seq<(u32, u64)>, frame: Seq<u8>, x: (u32, u64))
    ensures
        handles_with_frame(entries.push(x), frame) == handles_with_frame(entries, frame).push(
            (x.1, frame),
        ),
    decreases entries.len(),
{
    if entries.len() == 0 {
        assert(entries.push(x)[0] == x);
        assert(entries.push(x).drop_first() =~= Seq::<(u32, u64)>::empty());
        assert(handles_with_frame(Seq::<(u32, u64)>::empty(), frame) == Seq::<
            (u64, Seq<u8>),
        >::empty());
        assert(handles_with_frame(entries.push(x), frame) =~= handles_with_frame(
            entries,
            frame,
        ).push((x.1, frame)));
    } else {
        assert(entries.push(x)[0] == entries[0]);
        assert(entries.push(x).drop_first() =~= entries.drop_first().push(x));
        lemma_handles_with_frame_snoc(entries.drop_first(), frame, x);
        assert(handles_with_frame(entries.push(x), frame) =~= handles_with_frame(
            entries,
            frame,
        ).push((x.1, frame)));
    }
}

/// The writes one queued payload owes: its frame, once to each stream its
/// recipient addresses, in registry order.
pub open spec fn frames_for(s: Seq<(u32, u64)>, r: Recipient, packet: (u32, Seq<u8>)) -> Seq<
    (u64, Seq<u8>),
> {
    handles_with_frame(targets(s, r), frame_bytes(packet.0, packet.1))
}

/// The writes one dispatch tick owes: each queued payload in submission
/// order, delivered to every stream its recipient addresses.
pub open spec fn dispatch_plan(s: Seq<(u32, u64)>, list: Seq<(Recipient, DataPacket)>) -> Seq<
    (u64, Seq<u8>),
>
    decreases list.len(),
{
    if list.len() == 0 {
        Seq::<(u64, Seq<u8>)>::empty()
    } else {
        frames_for(s, list[0].0, list[0].1@) + dispatch_plan(s, list.drop_first())
    }
}

/// The plan grows on the right as the queue grows on the right.
proof fn lemma_dispatch_plan_snoc(
    s: Seq<(u32, u64)>,
    list: Seq<(Recipient, DataPacket)>,
    x: (Recipient, DataPacket),
)
    ensures
        dispatch_plan(s, list.push(x)) == dispatch_plan(s, list) + frames_for(s, x.0, x.1@),
    decreases list.len(),
{
    if list.len() == 0 {
        assert(list.push(x)[0] == x);
        assert(list.push(x).drop_first() =~= Seq::<(Recipient, DataPacket)>::empty());
        assert(dispatch_plan(s, Seq::<(Recipient, DataPacket)>::empty()) == Seq::<
            (u64, Seq<u8>),
        >::empty());
        assert(dispatch_plan(s, list.push(x)) =~= dispatch_plan(s, list) + frames_for(
            s,
            x.0,
            x.1@,
        ));
    } else {
        assert(list.push(x)[0] == list[0]);
        assert(list.push(x).drop_first() =~= list.drop_first().push(x));
        lemma_dispatch_plan_snoc(s, list.drop_first(), x);
        assert(dispatch_plan(s, list.push(x)) =~= dispatch_plan(s, list) + frames_for(
            s,
            x.0,
            x.1@,
        ));
    }
}

/// Drains the outbound queue for one tick and resolves every payload against
/// the registry: the result says, in order, which frame to write on which
/// stream handle.  The queue is left empty; an addressee missing from the
/// registry simply receives nothing.  The host performs the writes, and a
/// failed write to one stream must not stop the rest.
pub fn send_data_to_clients(
    server_streams: &ServerStreams,
    server_data_uploader: &mut ServerDataUploader,
) -> (plan: Vec<(u64, Vec<u8>)>)
    requires
        old(server_data_uploader).wf(),
    ensures
        final(server_data_uploader).list@ == Seq::<(Recipient, DataPacket)>::empty(),
        plan@.map_values(|w: (u64, Vec<u8>)| (w.0, w.1@)) == dispatch_plan(
            server_streams.streams@,
            old(server_data_uploader).list@,
        ),
{
    let ghost s = server_streams.streams@;
    let mut owned_list: Vec<(Recipient, DataPacket)> = Vec::new();
    core::mem::swap(&mut owned_list, &mut server_data_uploader.list);
    let ghost list = owned_list@;
    let mut plan: Vec<(u64, Vec<u8>)> = Vec::new();
    let mut i: usize = 0;
    proof {
        assert(list.take(0) =~= Seq::<(Recipient, DataPacket)>::empty());
        assert(plan@.map_values(|w: (u64, Vec<u8>)| (w.0, w.1@)) =~= dispatch_plan(
            s,
            list.take(0),
        ));
    }
    while i < owned_list.len()
        invariant
            i <= list.len(),
            owned_list@ == list,
            server_streams.streams@ == s,
            forall|k: int| 0 <= k < list.len() ==> (#[trigger] list[k]).1.bytes@.len() <= u32::MAX,
            plan@.map_values(|w: (u64, Vec<u8>)| (w.0, w.1@)) == dispatch_plan(
                s,
                list.take(i as int),
            ),
        decreases list.len() - i,
    {
        let recipient = owned_list[i].0;
        let resolved = resolve_recipient(server_streams, recipient);
        let ghost frame_view = frame_bytes(list[i as int].1.identifier, list[i as int].1.bytes@);
        let mut j: usize = 0;
        while j < resolved.len()
            invariant
                j <= resolved@.len(),
                resolved@ == targets(s, recipient),
                owned_list@ == list,
                i < list.len(),
                recipient == list[i as int].0,
                frame_view == frame_bytes(list[i as int].1.identifier, list[i as int].1.bytes@),
                forall|k: int|
                    0 <= k < list.len() ==> (#[trigger] list[k]).1.bytes@.len() <= u32::MAX,
                plan@.map_values(|w: (u64, Vec<u8>)| (w.0, w.1@)) == dispatch_plan(
                    s,
                    list.take(i as int),
                ) + handles_with_frame(resolved@.take(j as int), frame_view),
            decreases resolved@.len() - j,
        {
            let frame = encode_packet(&owned_list[i].1);
            let handle = resolved[j].1;
            let ghost prev = plan@;
            plan.push((handle, frame));
            proof {
                prev.lemma_push_map_commute(|w: (u64, Vec<u8>)| (w.0, w.1@), (handle, frame));
                assert(resolved@.take(j as int + 1) =~= resolved@.take(j as int).push(
                    resolved@[j as int],
                ));
                lemma_handles_with_frame_snoc(resolved@.take(j as int), frame_view, resolved@[j as int]);
                Seq::push_distributes_over_add(
                    dispatch_plan(s, list.take(i as int)),
                    handles_with_frame(resolved@.take(j as int), frame_view),
                    (resolved@[j as int].1, frame_view),
                );
                assert(plan@.map_values(|w: (u64, Vec<u8>)| (w.0, w.1@)) == dispatch_plan(
                    s,
                    list.take(i as int),
                ) + handles_with_frame(resolved@.take(j as int + 1), frame_view));
            }
            j = j + 1;
        }
        proof {
            assert(resolved@.take(resolved@.len() as int) =~= resolved@);
            assert(list.take(i + 1) =~= list.take(i as int).push(list[i as int]));
            lemma_dispatch_plan_snoc(s, list.take(i as int), list[i as int]);
            assert(handles_with_frame(resolved@, frame_view) == frames_for(
                s,
                list[i as int].0,
                list[i as int].1@,
            ));
        }
        i = i + 1;
    }
    proof {
        assert(list.take(list.len() as int) =~= list);
    }
    plan
}

} // verus!
