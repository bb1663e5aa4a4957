use rand::Rng;
use vstd::prelude::*;

use crate::catalog::{catalog_track_name, same_text, Catalog, CatalogType, TrackDefinition, TrackType, CATALOG_TRACK};
use crate::config::WrapperError;
use crate::subscription::{announcement_step, AnnouncementPlan, BroadcastSubscriptionManager};

verus! {

/// The role a session is created with.
#[derive(Clone, Copy, Debug, PartialEq, Eq, Structural)]
pub enum SessionType {
    Publisher,
    Subscriber,
}

/// Public events of a session.
#[derive(Clone, Debug, PartialEq, Eq)]
pub enum SessionEvent {
    Connected,
    Disconnected { reason: String },
    BroadcastAnnounced { path: String },
    BroadcastUnannounced { path: String },
    TrackRequested { name: String },
    Error { error: String },
}

/// `p` is a prefix of `s`.
pub open spec fn has_prefix(s: Seq<char>, p: Seq<char>) -> bool {
    p.len() <= s.len() && s.subrange(0, p.len() as int) == p
}

/// Whether `s` starts with `p`.
pub fn starts_with(s: &str, p: &str) -> (r: bool)
    ensures
        r == has_prefix(s@, p@),
{
    let n = s.unicode_len();
    let m = p.unicode_len();
    if m > n {
        return false;
    }
    let mut i: usize = 0;
    while i < m
        invariant
            m == p@.len(),
            n == s@.len(),
            m <= n,
            i <= m,
            forall|k: int| 0 <= k < i ==> s@[k] == p@[k],
        decreases m - i,
    {
        if s.get_char(i) != p.get_char(i) {
            assert(s@.subrange(0, m as int)[i as int] != p@[i as int]);
            return false;
        }
        i = i + 1;
    }
    assert(s@.subrange(0, m as int) =~= p@);
    true
}

/// Whether a log message from `target` concerns the session, and so goes to
/// its log callback.
pub fn is_session_log_target(target: &str) -> (r: bool)
    ensures
        r == (has_prefix(target@, "moq_wrapper::session"@) || has_prefix(target@, "moq_ffi"@) || has_prefix(target@, "session"@)),
{
    starts_with(target, "moq_wrapper::session") || starts_with(target, "moq_ffi") || starts_with(target, "session")
}

/// Lowest and highest first group sequence of a track.
pub const FIRST_SEQUENCE_MIN: u64 = 1;
pub const FIRST_SEQUENCE_MAX: u64 = 10_000;

/// Publish-side state of one registered track.
pub struct TrackSlot {
    pub definition: TrackDefinition,
    /// The sequence number the next group of this track gets.
    pub next_seq: u64,
    /// The sequence number of the group now open, if any.
    pub open_group: Option<u64>,
    /// Whether the transport holds a producer for this track.
    pub producer_ready: bool,
    /// Every sequence number opened on this track, in order.
    pub opened: Ghost<Seq<u64>>,
}

/// The sequence numbers in `s` strictly increase.
pub open spec fn strictly_increasing(s: Seq<u64>) -> bool {
    forall|i: int, j: int| 0 <= i < j < s.len() ==> s[i] < s[j]
}

impl TrackSlot {
    pub open spec fn name(&self) -> Seq<char> {
        self.definition.name@
    }

    /// Every group opened so far had a smaller number than the next one, the
    /// numbers increase, and the open group is the last one opened.
    pub open spec fn wf(&self) -> bool {
        &&& strictly_increasing(self.opened@)
        &&& forall|i: int| 0 <= i < self.opened@.len() ==> #[trigger] self.opened@[i] < self.next_seq
        &&& self.open_group matches Some(g) ==> self.opened@.len() > 0 && g == self.opened@.last()
        &&& self.open_group is Some ==> self.producer_ready
    }
}


/// The slot after a group is opened on it.
pub open spec fn slot_after_open(s: TrackSlot) -> TrackSlot {
    TrackSlot {
        definition: s.definition,
        next_seq: (s.next_seq + 1) as u64,
        open_group: Some(s.next_seq),
        producer_ready: s.producer_ready,
        opened: Ghost(s.opened@.push(s.next_seq)),
    }
}

/// The slot after its open group, if any, is closed.
pub open spec fn slot_after_close(s: TrackSlot) -> TrackSlot {
    TrackSlot { open_group: None, ..s }
}

/// The slot after the connection is lost: no producer and no open group; the
/// counter carries on.
pub open spec fn slot_after_disconnect(s: TrackSlot) -> TrackSlot {
    TrackSlot { open_group: None, producer_ready: false, ..s }
}

/// Whether some slot carries this track name.
pub open spec fn slot_named(ts: Seq<TrackSlot>, name: Seq<char>) -> bool {
    exists|i: int| 0 <= i < ts.len() && (#[trigger] ts[i]).name() == name
}

pub open spec fn slot_names_unique(ts: Seq<TrackSlot>) -> bool {
    forall|i: int, j: int| 0 <= i < ts.len() && 0 <= j < ts.len() && i != j ==> #[trigger] ts[i].name() != #[trigger] ts[j].name()
}

/// `new` is `old` with `def` registered: a slot of the same name keeps its
/// sequencing and takes the new definition; otherwise a fresh slot is
/// appended, with no producer, no open group and a first sequence number in
/// the documented range.
pub open spec fn registers(old: Seq<TrackSlot>, new: Seq<TrackSlot>, def: TrackDefinition) -> bool {
    if slot_named(old, def.name@) {
        exists|i: int| 0 <= i < old.len() && (#[trigger] old[i]).name() == def.name@
            && new == old.update(i, TrackSlot { definition: def, ..old[i] })
    } else {
        &&& new.len() == old.len() + 1
        &&& new.drop_last() == old
        &&& new.last().definition == def
        &&& new.last().open_group is None
        &&& !new.last().producer_ready
        &&& new.last().opened@ == Seq::<u64>::empty()
        &&& FIRST_SEQUENCE_MIN <= new.last().next_seq <= FIRST_SEQUENCE_MAX
    }
}

/// Relies on rand's `thread_rng().gen_range` over an inclusive range: the
/// value lies in the range, which must not be empty.
#[verifier::external_body]
fn random_in_range(lo: u64, hi: u64) -> (r: u64)
    requires
        lo <= hi,
    ensures
        lo <= r <= hi,
{
    rand::thread_rng().gen_range(lo..=hi)
}

/// What the transport is to do when a group starts: close the group that was
/// open, if any, then create a group with sequence `opened`.
#[derive(Clone, Copy, Debug, PartialEq, Eq, Structural)]
pub struct GroupPlan {
    pub closed: Option<u64>,
    pub opened: u64,
}

/// What the transport is to do for one frame: close and open groups as the
/// plan says, then append the frame to group `group`.
#[derive(Clone, Copy, Debug, PartialEq, Eq, Structural)]
pub struct FramePlan {
    pub start: Option<GroupPlan>,
    pub group: u64,
}

/// The result of starting a group on the slot at index `i` of a connected
/// publisher: refused while the slot has no producer or its counter is
/// exhausted; otherwise the open group, if any, is closed and a group with
/// the next sequence number is opened.
pub open spec fn group_start(old: SessionState, new: SessionState, i: int, r: Result<GroupPlan, WrapperError>) -> bool {
    let s = old.slots()[i];
    if !s.producer_ready || s.next_seq == u64::MAX {
        r matches Err(WrapperError::Session(_)) && new == old
    } else {
        &&& r == Ok::<GroupPlan, WrapperError>(GroupPlan { closed: s.open_group, opened: s.next_seq })
        &&& new.slots() == old.slots().update(i, slot_after_open(s))
        &&& same_but_slots(old, new)
    }
}

/// The result of writing a frame on the slot at index `i` of a connected
/// publisher: the open group takes it, unless a new group is asked for or none
/// is open, in which case a group starts first as in `group_start`.
pub open spec fn frame_write(old: SessionState, new: SessionState, i: int, new_group: bool, r: Result<FramePlan, WrapperError>) -> bool {
    let s = old.slots()[i];
    if !new_group && s.open_group is Some {
        r == Ok::<FramePlan, WrapperError>(FramePlan { start: None, group: s.open_group->0 }) && new == old
    } else if !s.producer_ready || s.next_seq == u64::MAX {
        r matches Err(WrapperError::Session(_)) && new == old
    } else {
        &&& r == Ok::<FramePlan, WrapperError>(FramePlan {
            start: Some(GroupPlan { closed: s.open_group, opened: s.next_seq }),
            group: s.next_seq,
        })
        &&& new.slots() == old.slots().update(i, slot_after_open(s))
        &&& same_but_slots(old, new)
    }
}

/// The slot after the transport has created its producer.
pub open spec fn slot_after_connect(s: TrackSlot) -> TrackSlot {
    TrackSlot { producer_ready: true, ..s }
}

/// Everything but the track slots is the same in `a` and `b`.
pub open spec fn same_but_slots(a: SessionState, b: SessionState) -> bool {
    &&& a.role() == b.role()
    &&& a.broadcast() == b.broadcast()
    &&& a.connected() == b.connected()
    &&& a.requested() == b.requested()
    &&& a.catalog() == b.catalog()
    &&& a.catalog_published() == b.catalog_published()
    &&& a.cached_broadcast() == b.cached_broadcast()
    &&& a.consume_calls() == b.consume_calls()
    &&& a.catalog_groups() == b.catalog_groups()
    &&& a.manager() == b.manager()
}

/// How a request for a broadcast consumer is served.
#[derive(Clone, Copy, Debug, PartialEq, Eq, Structural)]
pub enum BroadcastLookup {
    /// The consumer obtained earlier in this connection is reused.
    Cached,
    /// The transport is to be asked to consume the broadcast, once.
    Consume,
}

/// What the session does with an announcement or a withdrawal: the public
/// event, and what the subscription manager is to do, if one is installed.
#[derive(Clone, Debug)]
pub struct AnnouncementOutcome {
    pub event: SessionEvent,
    pub subscription: Option<AnnouncementPlan>,
}

/// Everything but the subscription manager is the same in `a` and `b`.
pub open spec fn same_but_manager(a: SessionState, b: SessionState) -> bool {
    &&& a.role() == b.role()
    &&& a.broadcast() == b.broadcast()
    &&& a.connected() == b.connected()
    &&& a.slots() == b.slots()
    &&& a.requested() == b.requested()
    &&& a.catalog() == b.catalog()
    &&& a.catalog_published() == b.catalog_published()
    &&& a.cached_broadcast() == b.cached_broadcast()
    &&& a.consume_calls() == b.consume_calls()
    &&& a.catalog_groups() == b.catalog_groups()
}

/// The outcome of a request for the consumer of broadcast `name`.
pub open spec fn broadcast_lookup(old: SessionState, new: SessionState, name: Seq<char>, r: Result<BroadcastLookup, WrapperError>) -> bool {
    if old.cached_broadcast() == Some(name) {
        r == Ok::<BroadcastLookup, WrapperError>(BroadcastLookup::Cached) && new == old
    } else if !old.connected() {
        r == Err::<BroadcastLookup, WrapperError>(WrapperError::NotConnected) && new == old
    } else if old.role() == SessionType::Publisher {
        r matches Err(WrapperError::Session(_)) && new == old
    } else {
        &&& r == Ok::<BroadcastLookup, WrapperError>(BroadcastLookup::Consume)
        &&& new.consume_calls() == if old.consume_calls() < u64::MAX { old.consume_calls() + 1 } else { old.consume_calls() }
        &&& new.cached_broadcast() == old.cached_broadcast()
        &&& new.connected() == old.connected()
        &&& new.role() == old.role()
        &&& new.slots() == old.slots()
        &&& new.manager() == old.manager()
    }
}

/// The outcome of recording the transport's answer to a consume request.
pub open spec fn broadcast_recorded(old: SessionState, new: SessionState, name: Seq<char>, found: bool, r: Result<(), WrapperError>) -> bool {
    if !old.connected() {
        r == Err::<(), WrapperError>(WrapperError::NotConnected) && new == old
    } else if !found {
        r matches Err(WrapperError::BroadcastNotFound(n)) && n@ == name && new == old
    } else {
        &&& r is Ok
        &&& new.cached_broadcast() == Some(name)
        &&& new.consume_calls() == old.consume_calls()
        &&& new.connected() == old.connected()
        &&& new.role() == old.role()
        &&& new.slots() == old.slots()
        &&& new.manager() == old.manager()
    }
}

/// The outcome of enabling auto-subscription: a manager is installed only
/// when none is.
pub open spec fn auto_subscription_enabled(old: SessionState, new: SessionState, broadcast: Seq<char>, catalog_type: CatalogType, requested: Seq<TrackDefinition>, r: bool) -> bool {
    if old.manager() is Some {
        !r && new == old
    } else {
        &&& r
        &&& new.manager() matches Some(m) && {
            &&& m.broadcast() == broadcast
            &&& m.catalog_type() == catalog_type
            &&& m.requested() == requested
            &&& !m.started()
            &&& !m.catalog_subscribed()
            &&& m.catalog_subscriptions() == 0
        }
        &&& same_but_manager(old, new)
    }
}

/// The state that a MoQ session keeps between transport events: its role,
/// whether it is connected, the publish-side tracks with their group
/// sequencing, the catalog, and the cached broadcast consumer.
pub struct SessionState {
    role: SessionType,
    broadcast_name: String,
    connected: bool,
    connection_attempts: usize,
    tracks: Vec<TrackSlot>,
    requested_tracks: Vec<TrackDefinition>,
    catalog: Option<Catalog>,
    catalog_published: bool,
    cached_broadcast: Option<String>,
    consume_calls: u64,
    catalog_groups: Ghost<nat>,
    manager: Option<BroadcastSubscriptionManager>,
}

impl SessionState {
    pub closed spec fn role(&self) -> SessionType {
        self.role
    }

    pub closed spec fn broadcast(&self) -> Seq<char> {
        self.broadcast_name@
    }

    pub closed spec fn connected(&self) -> bool {
        self.connected
    }

    pub closed spec fn slots(&self) -> Seq<TrackSlot> {
        self.tracks@
    }

    pub closed spec fn requested(&self) -> Seq<TrackDefinition> {
        self.requested_tracks@
    }

    pub closed spec fn catalog(&self) -> Option<Catalog> {
        self.catalog
    }

    pub closed spec fn catalog_published(&self) -> bool {
        self.catalog_published
    }

    /// The broadcast whose consumer the session holds, if any.
    pub closed spec fn cached_broadcast(&self) -> Option<Seq<char>> {
        match self.cached_broadcast {
            Some(n) => Some(n@),
            None => None,
        }
    }

    /// How many times the transport was asked to consume a broadcast during
    /// the present connection.
    pub closed spec fn consume_calls(&self) -> nat {
        self.consume_calls as nat
    }

    /// How many groups were written on the catalog track during the present
    /// connection.
    pub closed spec fn catalog_groups(&self) -> nat {
        self.catalog_groups@
    }

    pub closed spec fn wf(&self) -> bool {
        &&& slot_names_unique(self.tracks@)
        &&& forall|i: int| 0 <= i < self.tracks@.len() ==> (#[trigger] self.tracks@[i]).wf()
        &&& !self.connected ==> forall|i: int| 0 <= i < self.tracks@.len() ==> !(#[trigger] self.tracks@[i]).producer_ready
        &&& !self.connected ==> !self.catalog_published && self.cached_broadcast is None && self.consume_calls == 0
        &&& self.catalog_groups@ == if self.catalog_published { 1nat } else { 0nat }
        &&& self.catalog_published ==> self.catalog is Some
        &&& self.manager matches Some(m) ==> m.wf()
    }

    /// The subscription manager installed by auto-subscription, if any.
    pub closed spec fn manager(&self) -> Option<BroadcastSubscriptionManager> {
        self.manager
    }

    /// A session of the given role, not connected, with no tracks.
    pub fn new(role: SessionType, broadcast_name: &str) -> (r: Self)
        ensures
            r.wf(),
            r.role() == role,
            r.broadcast() == broadcast_name@,
            !r.connected(),
            r.slots().len() == 0,
            r.requested().len() == 0,
            r.catalog() is None,
            r.cached_broadcast() is None,
            r.manager() is None,
    {
        SessionState {
            role,
            broadcast_name: broadcast_name.to_string(),
            connected: false,
            connection_attempts: 0,
            tracks: Vec::new(),
            requested_tracks: Vec::new(),
            catalog: None,
            catalog_published: false,
            cached_broadcast: None,
            consume_calls: 0,
            catalog_groups: Ghost(0),
            manager: None,
        }
    }

    pub fn is_connected(&self) -> (r: bool)
        ensures
            r == self.connected(),
    {
        self.connected
    }

    pub fn session_type(&self) -> (r: SessionType)
        ensures
            r == self.role(),
    {
        self.role
    }

    /// How many times the transport was asked to consume a broadcast during
    /// the present connection.
    pub fn consume_count(&self) -> (r: u64)
        ensures
            r == self.consume_calls(),
    {
        self.consume_calls
    }

    /// Registers a track with a given first group sequence number.
    pub fn add_track_definition_with_start(&mut self, def: TrackDefinition, first_seq: u64)
        requires
            old(self).wf(),
            FIRST_SEQUENCE_MIN <= first_seq <= FIRST_SEQUENCE_MAX,
        ensures
            final(self).wf(),
            registers(old(self).slots(), final(self).slots(), def),
            !slot_named(old(self).slots(), def.name@) ==> final(self).slots().last().next_seq == first_seq,
            final(self).requested() == if old(self).role() == SessionType::Subscriber {
                old(self).requested().push(def)
            } else {
                old(self).requested()
            },
            final(self).role() == old(self).role(),
            final(self).connected() == old(self).connected(),
            final(self).catalog() == old(self).catalog(),
            final(self).catalog_published() == old(self).catalog_published(),
            final(self).cached_broadcast() == old(self).cached_broadcast(),
            final(self).consume_calls() == old(self).consume_calls(),
            final(self).catalog_groups() == old(self).catalog_groups(),
            final(self).manager() == old(self).manager(),
    {
        if let SessionType::Subscriber = self.role {
            self.requested_tracks.push(def.duplicate());
        }
        match self.find_slot(def.name.as_str()) {
            Some(i) => {
                let ghost old_slots = self.tracks@;
                let old_slot = self.tracks.remove(i);
                let slot = TrackSlot { definition: def, ..old_slot };
                self.tracks.insert(i, slot);
                proof {
                    assert(self.tracks@ =~= old_slots.update(i as int, TrackSlot { definition: def, ..old_slots[i as int] }));
                    assert forall|a: int, b: int| 0 <= a < self.tracks@.len() && 0 <= b < self.tracks@.len() && a != b
                        implies #[trigger] self.tracks@[a].name() != #[trigger] self.tracks@[b].name() by {
                        assert(old_slots[a].name() != old_slots[b].name());
                    }
                    assert forall|k: int| 0 <= k < self.tracks@.len() implies (#[trigger] self.tracks@[k]).wf() by {
                        assert(old_slots[k].wf());
                    }
                }
            },
            None => {
                let ghost old_slots = self.tracks@;
                let slot = TrackSlot {
                    definition: def,
                    next_seq: first_seq,
                    open_group: None,
                    producer_ready: false,
                    opened: Ghost(Seq::empty()),
                };
                self.tracks.push(slot);
                proof {
                    assert(self.tracks@.drop_last() =~= old_slots);
                    assert forall|a: int, b: int| 0 <= a < self.tracks@.len() && 0 <= b < self.tracks@.len() && a != b
                        implies #[trigger] self.tracks@[a].name() != #[trigger] self.tracks@[b].name() by {
                        if a < old_slots.len() && b < old_slots.len() {
                            assert(old_slots[a].name() != old_slots[b].name());
                        } else if a < old_slots.len() {
                            assert(old_slots[a] == self.tracks@[a]);
                        } else {
                            assert(old_slots[b] == self.tracks@[b]);
                        }
                    }
                    assert forall|k: int| 0 <= k < self.tracks@.len() implies (#[trigger] self.tracks@[k]).wf() by {
                        if k < old_slots.len() {
                            assert(old_slots[k] == self.tracks@[k]);
                        }
                    }
                }
            },
        }
    }

    /// Registers a track; a new track's first group sequence number is drawn
    /// at random from the documented range, so that a restarted publisher is
    /// unlikely to reuse the numbers of its previous run.
    pub fn add_track_definition(&mut self, def: TrackDefinition)
        requires
            old(self).wf(),
        ensures
            final(self).wf(),
            registers(old(self).slots(), final(self).slots(), def),
            final(self).requested() == if old(self).role() == SessionType::Subscriber {
                old(self).requested().push(def)
            } else {
                old(self).requested()
            },
            final(self).role() == old(self).role(),
            final(self).connected() == old(self).connected(),
            final(self).catalog() == old(self).catalog(),
            final(self).catalog_published() == old(self).catalog_published(),
            final(self).cached_broadcast() == old(self).cached_broadcast(),
            final(self).consume_calls() == old(self).consume_calls(),
            final(self).catalog_groups() == old(self).catalog_groups(),
            final(self).manager() == old(self).manager(),
    {
        let first = random_in_range(FIRST_SEQUENCE_MIN, FIRST_SEQUENCE_MAX);
        self.add_track_definition_with_start(def, first);
    }

    /// Sets the catalog a publisher announces, and registers the catalog
    /// track with the highest priority.
    pub fn set_catalog(&mut self, catalog: Catalog) -> (r: Result<(), WrapperError>)
        requires
            old(self).wf(),
        ensures
            final(self).wf(),
            old(self).role() == SessionType::Subscriber ==> (r matches Err(WrapperError::Session(_)) && *final(self) == *old(self)),
            old(self).role() == SessionType::Publisher ==> {
                &&& r is Ok
                &&& final(self).catalog() == Some(catalog)
                &&& exists|d: TrackDefinition| d.name@ == catalog_track_name() && d.priority == u32::MAX && d.track_type == TrackType::Data
                    && registers(old(self).slots(), final(self).slots(), d)
                &&& final(self).connected() == old(self).connected()
                &&& final(self).catalog_published() == old(self).catalog_published()
                &&& final(self).cached_broadcast() == old(self).cached_broadcast()
                &&& final(self).catalog_groups() == old(self).catalog_groups()
                &&& final(self).manager() == old(self).manager()
            },
    {
        if let SessionType::Subscriber = self.role {
            return Err(WrapperError::Session("Only publishers can set catalog".to_string()));
        }
        self.catalog = Some(catalog);
        let d = TrackDefinition::data(CATALOG_TRACK, u32::MAX);
        let ghost dd = d;
        proof {
            reveal_strlit("catalog.json");
        }
        self.add_track_definition(d);
        assert(dd.name@ == catalog_track_name() && registers(old(self).slots(), self.slots(), dd));
        Ok(())
    }

    /// Opens a new group on the track `name`, closing the one open before.
    pub fn start_group(&mut self, name: &str) -> (r: Result<GroupPlan, WrapperError>)
        requires
            old(self).wf(),
        ensures
            final(self).wf(),
            old(self).role() == SessionType::Subscriber ==> (r matches Err(WrapperError::Session(_)) && *final(self) == *old(self)),
            old(self).role() == SessionType::Publisher && !old(self).connected() ==> (r == Err::<GroupPlan, WrapperError>(WrapperError::NotConnected) && *final(self) == *old(self)),
            old(self).role() == SessionType::Publisher && old(self).connected() && !slot_named(old(self).slots(), name@) ==> (r matches Err(WrapperError::TrackNotFound(n)) && n@ == name@ && *final(self) == *old(self)),
            forall|i: int| 0 <= i < old(self).slots().len() && old(self).role() == SessionType::Publisher && old(self).connected() && (#[trigger] old(self).slots()[i]).name() == name@
                ==> group_start(*old(self), *final(self), i, r),
    {
        if let SessionType::Subscriber = self.role {
            return Err(WrapperError::Session("Not a publisher session".to_string()));
        }
        if !self.connected {
            return Err(WrapperError::NotConnected);
        }
        let i = match self.find_slot(name) {
            Some(i) => i,
            None => {
                return Err(WrapperError::TrackNotFound(name.to_string()));
            },
        };
        proof {
            assert forall|k: int| 0 <= k < self.tracks@.len() && (#[trigger] self.tracks@[k]).name() == name@ implies k == i by {
                if k != i {
                    assert(self.tracks@[k].name() != self.tracks@[i as int].name());
                }
            }
        }
        if !self.tracks[i].producer_ready {
            return Err(WrapperError::Session("Track producer not available".to_string()));
        }
        if self.tracks[i].next_seq == u64::MAX {
            return Err(WrapperError::Session("Group sequence numbers exhausted".to_string()));
        }
        let ghost old_slots = self.tracks@;
        let ghost s = self.tracks@[i as int];
        let closed = self.tracks[i].open_group;
        let seq = self.tracks[i].next_seq;
        let old_slot = self.tracks.remove(i);
        let ghost opened = old_slot.opened@.push(seq);
        let slot = TrackSlot {
            definition: old_slot.definition,
            next_seq: seq + 1,
            open_group: Some(seq),
            producer_ready: old_slot.producer_ready,
            opened: Ghost(opened),
        };
        self.tracks.insert(i, slot);
        proof {
            assert(self.tracks@ =~= old_slots.update(i as int, slot_after_open(s)));
            assert(s.wf());
            assert forall|a: int, b: int| 0 <= a < b < opened.len() implies opened[a] < opened[b] by {
                if b < s.opened@.len() {
                    assert(s.opened@[a] < s.opened@[b]);
                } else {
                    assert(s.opened@[a] < s.next_seq);
                }
            }
            assert forall|a: int| 0 <= a < opened.len() implies #[trigger] opened[a] < seq + 1 by {
                if a < s.opened@.len() {
                    assert(s.opened@[a] < s.next_seq);
                }
            }
            assert forall|a: int, b: int| 0 <= a < self.tracks@.len() && 0 <= b < self.tracks@.len() && a != b
                implies #[trigger] self.tracks@[a].name() != #[trigger] self.tracks@[b].name() by {
                assert(old_slots[a].name() != old_slots[b].name());
            }
            assert forall|k: int| 0 <= k < self.tracks@.len() implies (#[trigger] self.tracks@[k]).wf() by {
                if k != i {
                    assert(old_slots[k].wf());
                }
            }
        }
        Ok(GroupPlan { closed, opened: seq })
    }

    /// Closes the open group of the track `name`, if any, and returns its
    /// sequence number.
    pub fn close_group(&mut self, name: &str) -> (r: Result<Option<u64>, WrapperError>)
        requires
            old(self).wf(),
        ensures
            final(self).wf(),
            old(self).role() == SessionType::Subscriber ==> (r matches Err(WrapperError::Session(_)) && *final(self) == *old(self)),
            old(self).role() == SessionType::Publisher && !slot_named(old(self).slots(), name@) ==> (r == Ok::<Option<u64>, WrapperError>(None) && *final(self) == *old(self)),
            forall|i: int| 0 <= i < old(self).slots().len() && old(self).role() == SessionType::Publisher && (#[trigger] old(self).slots()[i]).name() == name@
                ==> {
                    &&& r == Ok::<Option<u64>, WrapperError>(old(self).slots()[i].open_group)
                    &&& final(self).slots() == old(self).slots().update(i, slot_after_close(old(self).slots()[i]))
                    &&& same_but_slots(*old(self), *final(self))
                },
    {
        if let SessionType::Subscriber = self.role {
            return Err(WrapperError::Session("Not a publisher session".to_string()));
        }
        let i = match self.find_slot(name) {
            Some(i) => i,
            None => {
                return Ok(None);
            },
        };
        proof {
            assert forall|k: int| 0 <= k < self.tracks@.len() && (#[trigger] self.tracks@[k]).name() == name@ implies k == i by {
                if k != i {
                    assert(self.tracks@[k].name() != self.tracks@[i as int].name());
                }
            }
        }
        let ghost old_slots = self.tracks@;
        let closed = self.tracks[i].open_group;
        let old_slot = self.tracks.remove(i);
        let slot = TrackSlot { open_group: None, ..old_slot };
        self.tracks.insert(i, slot);
        proof {
            assert(self.tracks@ =~= old_slots.update(i as int, slot_after_close(old_slots[i as int])));
            assert forall|a: int, b: int| 0 <= a < self.tracks@.len() && 0 <= b < self.tracks@.len() && a != b
                implies #[trigger] self.tracks@[a].name() != #[trigger] self.tracks@[b].name() by {
                assert(old_slots[a].name() != old_slots[b].name());
            }
            assert forall|k: int| 0 <= k < self.tracks@.len() implies (#[trigger] self.tracks@[k]).wf() by {
                assert(old_slots[k].wf());
            }
        }
        Ok(closed)
    }

    /// Decides where a frame for the track `name` goes, opening a group first
    /// when `new_group` is set or no group is open. Nothing is buffered: on a
    /// session that is not connected the frame is refused.
    pub fn write_frame(&mut self, name: &str, new_group: bool) -> (r: Result<FramePlan, WrapperError>)
        requires
            old(self).wf(),
        ensures
            final(self).wf(),
            old(self).role() == SessionType::Subscriber ==> (r matches Err(WrapperError::Session(_)) && *final(self) == *old(self)),
            old(self).role() == SessionType::Publisher && !old(self).connected() ==> (r == Err::<FramePlan, WrapperError>(WrapperError::NotConnected) && *final(self) == *old(self)),
            old(self).role() == SessionType::Publisher && old(self).connected() && !slot_named(old(self).slots(), name@) ==> (r matches Err(WrapperError::TrackNotFound(n)) && n@ == name@ && *final(self) == *old(self)),
            forall|i: int| 0 <= i < old(self).slots().len() && old(self).role() == SessionType::Publisher && old(self).connected() && (#[trigger] old(self).slots()[i]).name() == name@
                ==> frame_write(*old(self), *final(self), i, new_group, r),
    {
        if let SessionType::Subscriber = self.role {
            return Err(WrapperError::Session("Not a publisher session".to_string()));
        }
        if !self.connected {
            return Err(WrapperError::NotConnected);
        }
        let open = match self.find_slot(name) {
            Some(i) => {
                proof {
                    assert forall|k: int| 0 <= k < self.tracks@.len() && (#[trigger] self.tracks@[k]).name() == name@ implies k == i by {
                        if k != i {
                            assert(self.tracks@[k].name() != self.tracks@[i as int].name());
                        }
                    }
                }
                self.tracks[i].open_group
            },
            None => None,
        };
        match open {
            Some(g) if !new_group => Ok(FramePlan { start: None, group: g }),
            _ => {
                let plan = self.start_group(name)?;
                Ok(FramePlan { start: Some(plan), group: plan.opened })
            },
        }
    }

    /// Writes one frame as a group of its own: a group is opened, takes the
    /// frame and is closed again.
    pub fn write_single_frame(&mut self, name: &str) -> (r: Result<GroupPlan, WrapperError>)
        requires
            old(self).wf(),
        ensures
            final(self).wf(),
            old(self).role() == SessionType::Subscriber ==> (r matches Err(WrapperError::Session(_)) && *final(self) == *old(self)),
            old(self).role() == SessionType::Publisher && !old(self).connected() ==> (r == Err::<GroupPlan, WrapperError>(WrapperError::NotConnected) && *final(self) == *old(self)),
            old(self).role() == SessionType::Publisher && old(self).connected() && !slot_named(old(self).slots(), name@) ==> (r matches Err(WrapperError::TrackNotFound(n)) && n@ == name@ && *final(self) == *old(self)),
            forall|i: int| 0 <= i < old(self).slots().len() && old(self).role() == SessionType::Publisher && old(self).connected() && (#[trigger] old(self).slots()[i]).name() == name@
                ==> {
                    let s = old(self).slots()[i];
                    if !s.producer_ready || s.next_seq == u64::MAX {
                        r matches Err(WrapperError::Session(_)) && *final(self) == *old(self)
                    } else {
                        &&& r == Ok::<GroupPlan, WrapperError>(GroupPlan { closed: s.open_group, opened: s.next_seq })
                        &&& final(self).slots() == old(self).slots().update(i, slot_after_close(slot_after_open(s)))
                        &&& same_but_slots(*old(self), *final(self))
                    }
                },
    {
        if let SessionType::Subscriber = self.role {
            return Err(WrapperError::Session("Not a publisher session".to_string()));
        }
        if !self.connected {
            return Err(WrapperError::NotConnected);
        }
        let ghost s0 = *self;
        let plan = self.start_group(name)?;
        let ghost s1 = *self;
        let _ = self.close_group(name);
        proof {
            assert forall|i: int| 0 <= i < s0.slots().len() && (#[trigger] s0.slots()[i]).name() == name@ implies
                s1.slots()[i].name() == name@ && s1.slots()[i] == slot_after_open(s0.slots()[i]) by {
                assert(group_start(s0, s1, i, Ok(plan)));
            }
        }
        Ok(plan)
    }

    /// The transport is connected: producers now exist for the publisher's
    /// tracks. Returns whether the catalog is to be written now, which is so
    /// once per connection, when a catalog is set.
    pub fn on_connected(&mut self) -> (publish_catalog: bool)
        requires
            old(self).wf(),
        ensures
            final(self).wf(),
            final(self).connected(),
            publish_catalog == (old(self).role() == SessionType::Publisher && old(self).catalog() is Some && !old(self).catalog_published()),
            final(self).catalog_published() == (old(self).catalog_published() || publish_catalog),
            final(self).catalog_groups() == old(self).catalog_groups() + if publish_catalog { 1nat } else { 0nat },
            final(self).slots().len() == old(self).slots().len(),
            forall|i: int| 0 <= i < old(self).slots().len() ==> #[trigger] final(self).slots()[i] == if old(self).role() == SessionType::Publisher {
                slot_after_connect(old(self).slots()[i])
            } else {
                old(self).slots()[i]
            },
            final(self).role() == old(self).role(),
            final(self).requested() == old(self).requested(),
            final(self).catalog() == old(self).catalog(),
            final(self).cached_broadcast() == old(self).cached_broadcast(),
            final(self).consume_calls() == old(self).consume_calls(),
            final(self).manager() == old(self).manager(),
    {
        self.connected = true;
        self.connection_attempts = 1;
        if let SessionType::Subscriber = self.role {
            return false;
        }
        let ghost old_slots = self.tracks@;
        let mut i: usize = 0;
        while i < self.tracks.len()
            invariant
                self.tracks@.len() == old_slots.len(),
                i <= old_slots.len(),
                forall|k: int| 0 <= k < i ==> #[trigger] self.tracks@[k] == slot_after_connect(old_slots[k]),
                forall|k: int| i <= k < old_slots.len() ==> #[trigger] self.tracks@[k] == old_slots[k],
                self.role == old(self).role,
                self.connected,
                self.catalog == old(self).catalog,
                self.catalog_published == old(self).catalog_published,
                self.catalog_groups == old(self).catalog_groups,
                self.cached_broadcast == old(self).cached_broadcast,
                self.consume_calls == old(self).consume_calls,
                self.requested_tracks == old(self).requested_tracks,
                self.manager == old(self).manager,
            decreases old_slots.len() - i,
        {
            let old_slot = self.tracks.remove(i);
            let slot = TrackSlot { producer_ready: true, ..old_slot };
            self.tracks.insert(i, slot);
            i = i + 1;
        }
        proof {
            assert forall|a: int, b: int| 0 <= a < self.tracks@.len() && 0 <= b < self.tracks@.len() && a != b
                implies #[trigger] self.tracks@[a].name() != #[trigger] self.tracks@[b].name() by {
                assert(old_slots[a].name() != old_slots[b].name());
            }
            assert forall|k: int| 0 <= k < self.tracks@.len() implies (#[trigger] self.tracks@[k]).wf() by {
                assert(old_slots[k].wf());
            }
        }
        let publish = !self.catalog_published && self.catalog.is_some();
        if publish {
            self.catalog_published = true;
            self.catalog_groups = Ghost(1);
        }
        publish
    }

    /// The connection is gone: producers, open groups, the cached broadcast
    /// consumer and the catalog flag are dropped. Group counters carry on, so
    /// sequence numbers keep increasing on the next connection.
    pub fn on_disconnected(&mut self)
        requires
            old(self).wf(),
        ensures
            final(self).wf(),
            !final(self).connected(),
            !final(self).catalog_published(),
            final(self).catalog_groups() == 0,
            final(self).cached_broadcast() is None,
            final(self).consume_calls() == 0,
            final(self).slots().len() == old(self).slots().len(),
            forall|i: int| 0 <= i < old(self).slots().len() ==> #[trigger] final(self).slots()[i] == slot_after_disconnect(old(self).slots()[i]),
            final(self).role() == old(self).role(),
            final(self).requested() == old(self).requested(),
            final(self).catalog() == old(self).catalog(),
            final(self).manager() == old(self).manager(),
    {
        self.connected = false;
        self.catalog_published = false;
        self.catalog_groups = Ghost(0);
        self.cached_broadcast = None;
        self.consume_calls = 0;
        let ghost old_slots = self.tracks@;
        let mut i: usize = 0;
        while i < self.tracks.len()
            invariant
                self.tracks@.len() == old_slots.len(),
                i <= old_slots.len(),
                forall|k: int| 0 <= k < i ==> #[trigger] self.tracks@[k] == slot_after_disconnect(old_slots[k]),
                forall|k: int| i <= k < old_slots.len() ==> #[trigger] self.tracks@[k] == old_slots[k],
                self.role == old(self).role,
                !self.connected,
                !self.catalog_published,
                self.catalog_groups@ == 0,
                self.cached_broadcast is None,
                self.consume_calls == 0,
                self.catalog == old(self).catalog,
                self.requested_tracks == old(self).requested_tracks,
                self.manager == old(self).manager,
            decreases old_slots.len() - i,
        {
            let old_slot = self.tracks.remove(i);
            let slot = TrackSlot { open_group: None, producer_ready: false, ..old_slot };
            self.tracks.insert(i, slot);
            i = i + 1;
        }
        proof {
            assert forall|a: int, b: int| 0 <= a < self.tracks@.len() && 0 <= b < self.tracks@.len() && a != b
                implies #[trigger] self.tracks@[a].name() != #[trigger] self.tracks@[b].name() by {
                assert(old_slots[a].name() != old_slots[b].name());
            }
            assert forall|k: int| 0 <= k < self.tracks@.len() implies (#[trigger] self.tracks@[k]).wf() by {
                assert(old_slots[k].wf());
            }
        }
    }

    /// Serves a request for the consumer of broadcast `name`: the cached one
    /// if it is for this name; otherwise, on a connected subscriber, the
    /// transport is to be asked, and the call is counted.
    pub fn subscribe_broadcast(&mut self, name: &str) -> (r: Result<BroadcastLookup, WrapperError>)
        requires
            old(self).wf(),
        ensures
            final(self).wf(),
            broadcast_lookup(*old(self), *final(self), name@, r),
    {
        if let Some(cached) = &self.cached_broadcast {
            if same_text(cached.as_str(), name) {
                return Ok(BroadcastLookup::Cached);
            }
        }
        if !self.connected {
            return Err(WrapperError::NotConnected);
        }
        if let SessionType::Publisher = self.role {
            return Err(WrapperError::Session("Not a subscriber session".to_string()));
        }
        if self.consume_calls < u64::MAX {
            self.consume_calls = self.consume_calls + 1;
        }
        Ok(BroadcastLookup::Consume)
    }

    /// The transport answered a consume request for `name`: a consumer is
    /// cached for the rest of the connection, or the broadcast is unknown.
    pub fn broadcast_consumed(&mut self, name: &str, found: bool) -> (r: Result<(), WrapperError>)
        requires
            old(self).wf(),
        ensures
            final(self).wf(),
            broadcast_recorded(*old(self), *final(self), name@, found, r),
    {
        if !self.connected {
            return Err(WrapperError::NotConnected);
        }
        if !found {
            return Err(WrapperError::BroadcastNotFound(name.to_string()));
        }
        self.cached_broadcast = Some(name.to_string());
        Ok(())
    }

    /// An announcement (`online`) or a withdrawal of broadcast `path` came
    /// from the peer. A withdrawal drops the cached consumer of that
    /// broadcast; an announcement is passed to the subscription manager.
    pub fn on_announcement(&mut self, path: &str, online: bool) -> (r: AnnouncementOutcome)
        requires
            old(self).wf(),
        ensures
            final(self).wf(),
            online ==> (r.event matches SessionEvent::BroadcastAnnounced { path: p } && p@ == path@),
            !online ==> (r.event matches SessionEvent::BroadcastUnannounced { path: p } && p@ == path@),
            final(self).cached_broadcast() == if !online && old(self).cached_broadcast() == Some(path@) {
                None
            } else {
                old(self).cached_broadcast()
            },
            !online || old(self).manager() is None ==> (r.subscription is None && final(self).manager() == old(self).manager()),
            online ==> (old(self).manager() matches Some(m) ==> (final(self).manager() matches Some(m2) && r.subscription matches Some(p) && announcement_step(m, m2, path@, p))),
            final(self).connected() == old(self).connected(),
            final(self).role() == old(self).role(),
            final(self).slots() == old(self).slots(),
            final(self).consume_calls() == old(self).consume_calls(),
    {
        if !online {
            let clear = match &self.cached_broadcast {
                Some(cached) => same_text(cached.as_str(), path),
                None => false,
            };
            if clear {
                self.cached_broadcast = None;
            }
            return AnnouncementOutcome { event: SessionEvent::BroadcastUnannounced { path: path.to_string() }, subscription: None };
        }
        let subscription = match self.manager.take() {
            Some(mut m) => {
                let plan = m.on_announcement(path);
                self.manager = Some(m);
                Some(plan)
            },
            None => None,
        };
        AnnouncementOutcome { event: SessionEvent::BroadcastAnnounced { path: path.to_string() }, subscription }
    }

    /// Installs a subscription manager for `broadcast_name`, unless one is
    /// installed already; returns whether it installed one. A second call
    /// leaves everything as it was.
    pub fn enable_auto_subscription(&mut self, broadcast_name: &str, catalog_type: CatalogType, requested_tracks: Vec<TrackDefinition>) -> (r: bool)
        requires
            old(self).wf(),
        ensures
            final(self).wf(),
            auto_subscription_enabled(*old(self), *final(self), broadcast_name@, catalog_type, requested_tracks@, r),
    {
        if self.manager.is_some() {
            return false;
        }
        self.manager = Some(BroadcastSubscriptionManager::new(broadcast_name, catalog_type, requested_tracks));
        true
    }

    /// Stops and removes the subscription manager; returns whether one was
    /// installed.
    pub fn disable_auto_subscription(&mut self) -> (r: bool)
        requires
            old(self).wf(),
        ensures
            final(self).wf(),
            r == old(self).manager() is Some,
            final(self).manager() is None,
            same_but_manager(*old(self), *final(self)),
    {
        match self.manager.take() {
            Some(mut m) => {
                m.stop();
                true
            },
            None => false,
        }
    }

    /// Whether auto-subscription is installed and active.
    pub fn is_auto_subscription_active(&self) -> (r: bool)
        ensures
            r == (self.manager() matches Some(m) && m.active()),
    {
        match &self.manager {
            Some(m) => m.is_active(),
            None => false,
        }
    }

    /// The latest catalog the subscription manager received.
    pub fn get_auto_subscription_catalog(&self) -> (r: Option<&Catalog>)
        ensures
            r matches Some(c) ==> (self.manager() matches Some(m) && m.catalog() == Some(*c)),
            r is None ==> (self.manager() is None || self.manager()->0.catalog() is None),
    {
        match &self.manager {
            Some(m) => m.get_catalog(),
            None => None,
        }
    }

    /// The tracks whose subscription is live under auto-subscription.
    pub fn get_auto_subscription_active_tracks(&self) -> (r: Vec<String>)
        ensures
            self.manager() is None ==> r@.len() == 0,
            self.manager() matches Some(m) ==> r@.map_values(|n: String| n@) == m.active_tracks(),
    {
        match &self.manager {
            Some(m) => m.get_active_tracks(),
            None => Vec::new(),
        }
    }

    /// Passes a parsed catalog snapshot to the subscription manager; returns
    /// whether one is installed.
    pub fn auto_subscription_catalog(&mut self, catalog: Catalog) -> (r: bool)
        requires
            old(self).wf(),
        ensures
            final(self).wf(),
            r == old(self).manager() is Some,
            final(self).manager() is Some == old(self).manager() is Some,
            final(self).manager() matches Some(m) ==> m.catalog() == Some(catalog),
    {
        match self.manager.take() {
            Some(mut m) => {
                m.on_catalog(catalog);
                self.manager = Some(m);
                true
            },
            None => false,
        }
    }

    /// Records that a per-track subscription under auto-subscription is
    /// live (`live`) or has ended.
    pub fn auto_subscription_track(&mut self, name: &str, live: bool)
        requires
            old(self).wf(),
        ensures
            final(self).wf(),
            final(self).manager() is Some == old(self).manager() is Some,
            final(self).manager() matches Some(m) ==> m.active_tracks() == if live {
                if old(self).manager()->0.active_tracks().contains(name@) {
                    old(self).manager()->0.active_tracks()
                } else {
                    old(self).manager()->0.active_tracks().push(name@)
                }
            } else {
                old(self).manager()->0.active_tracks().filter(|n: Seq<char>| n != name@)
            },
    {
        if let Some(mut m) = self.manager.take() {
            if live {
                m.on_track_subscribed(name);
            } else {
                m.on_track_ended(name);
            }
            self.manager = Some(m);
        }
    }

    /// The sequence number the next group of track `name` gets.
    pub fn next_sequence(&self, name: &str) -> (r: Option<u64>)
        requires
            self.wf(),
        ensures
            r is None <==> !slot_named(self.slots(), name@),
            forall|i: int| 0 <= i < self.slots().len() && (#[trigger] self.slots()[i]).name() == name@ ==> r == Some(self.slots()[i].next_seq),
    {
        match self.find_slot(name) {
            Some(i) => {
                proof {
                    assert forall|k: int| 0 <= k < self.tracks@.len() && (#[trigger] self.tracks@[k]).name() == name@ implies k == i by {
                        if k != i {
                            assert(self.tracks@[k].name() != self.tracks@[i as int].name());
                        }
                    }
                }
                Some(self.tracks[i].next_seq)
            },
            None => None,
        }
    }

    /// The sequence number of the open group of track `name`, if any.
    pub fn open_group(&self, name: &str) -> (r: Option<u64>)
        requires
            self.wf(),
        ensures
            !slot_named(self.slots(), name@) ==> r is None,
            forall|i: int| 0 <= i < self.slots().len() && (#[trigger] self.slots()[i]).name() == name@ ==> r == self.slots()[i].open_group,
    {
        match self.find_slot(name) {
            Some(i) => {
                proof {
                    assert forall|k: int| 0 <= k < self.tracks@.len() && (#[trigger] self.tracks@[k]).name() == name@ implies k == i by {
                        if k != i {
                            assert(self.tracks@[k].name() != self.tracks@[i as int].name());
                        }
                    }
                }
                self.tracks[i].open_group
            },
            None => None,
        }
    }

    /// The names of the registered tracks, in order of registration.
    pub fn list_tracks(&self) -> (r: Vec<String>)
        ensures
            r@.len() == self.slots().len(),
            forall|i: int| 0 <= i < r@.len() ==> (#[trigger] r@[i])@ == self.slots()[i].name(),
    {
        let mut out: Vec<String> = Vec::new();
        let mut i: usize = 0;
        while i < self.tracks.len()
            invariant
                i <= self.tracks@.len(),
                out@.len() == i,
                forall|k: int| 0 <= k < i ==> (#[trigger] out@[k])@ == self.tracks@[k].name(),
            decreases self.tracks@.len() - i,
        {
            out.push(self.tracks[i].definition.name.clone());
            i = i + 1;
        }
        out
    }

    /// The tracks a subscriber registered, to be requested.
    pub fn requested_tracks(&self) -> (r: &Vec<TrackDefinition>)
        ensures
            r@ == self.requested(),
    {
        &self.requested_tracks
    }

    /// The catalog a publisher announces.
    pub fn catalog_to_publish(&self) -> (r: Option<&Catalog>)
        ensures
            r matches Some(c) ==> self.catalog() == Some(*c),
            r is None ==> self.catalog() is None,
    {
        match &self.catalog {
            Some(c) => Some(c),
            None => None,
        }
    }

    /// The index of the slot named `name`.
    fn find_slot(&self, name: &str) -> (r: Option<usize>)
        ensures
            r matches Some(i) ==> i < self.tracks@.len() && self.tracks@[i as int].name() == name@,
            r is None ==> !slot_named(self.tracks@, name@),
    {
        let mut i: usize = 0;
        while i < self.tracks.len()
            invariant
                i <= self.tracks@.len(),
                forall|j: int| 0 <= j < i ==> (#[trigger] self.tracks@[j]).name() != name@,
            decreases self.tracks@.len() - i,
        {
            if same_text(self.tracks[i].definition.name.as_str(), name) {
                return Some(i);
            }
            i = i + 1;
        }
        None
    }
}

} // verus!

verus! {

/// Group sequence numbers on a track strictly increase, across group closes
/// and reconnections alike, and every number opened lies below the one the
/// next group gets.
pub proof fn lemma_sequences_increase(s: SessionState, i: int, a: int, b: int)
    requires
        s.wf(),
        0 <= i < s.slots().len(),
        0 <= a < b < s.slots()[i].opened@.len(),
    ensures
        s.slots()[i].opened@[a] < s.slots()[i].opened@[b],
        s.slots()[i].opened@[b] < s.slots()[i].next_seq,
{
    assert(s.slots()[i].wf());
}

/// A track has at most one open group: no two slots carry the same track
/// name, and the open group of a slot is the last group opened on it.
pub proof fn lemma_single_open_group(s: SessionState, i: int, j: int)
    requires
        s.wf(),
        0 <= i < s.slots().len(),
        0 <= j < s.slots().len(),
        s.slots()[i].name() == s.slots()[j].name(),
    ensures
        i == j,
        s.slots()[i].open_group matches Some(g) ==> g == s.slots()[i].opened@.last(),
{
    assert(s.slots()[i].wf());
}

/// During one connection a publisher writes at most one group on the catalog
/// track.
pub proof fn lemma_catalog_once_per_connection(s: SessionState)
    requires
        s.wf(),
    ensures
        s.catalog_groups() <= 1,
{
}

/// Once the consumer of a broadcast was obtained, asking for it again within
/// the connection reuses it: the transport is asked to consume it once.
pub proof fn lemma_consume_once(
    s0: SessionState,
    s1: SessionState,
    s2: SessionState,
    s3: SessionState,
    name: Seq<char>,
    r1: Result<BroadcastLookup, WrapperError>,
    r2: Result<(), WrapperError>,
    r3: Result<BroadcastLookup, WrapperError>,
)
    requires
        s0.wf(),
        broadcast_lookup(s0, s1, name, r1),
        broadcast_recorded(s1, s2, name, true, r2),
        broadcast_lookup(s2, s3, name, r3),
        r2 is Ok,
    ensures
        r3 == Ok::<BroadcastLookup, WrapperError>(BroadcastLookup::Cached),
        s3 == s2,
        s3.consume_calls() <= s0.consume_calls() + 1,
{
}

/// Enabling auto-subscription a second time installs no second manager and
/// changes nothing, so the catalog track is not asked for again.
pub proof fn lemma_enable_twice(
    s0: SessionState,
    s1: SessionState,
    s2: SessionState,
    b1: Seq<char>,
    t1: CatalogType,
    l1: Seq<TrackDefinition>,
    b2: Seq<char>,
    t2: CatalogType,
    l2: Seq<TrackDefinition>,
    r1: bool,
    r2: bool,
)
    requires
        s0.wf(),
        auto_subscription_enabled(s0, s1, b1, t1, l1, r1),
        auto_subscription_enabled(s1, s2, b2, t2, l2, r2),
    ensures
        s1.manager() is Some,
        !r2,
        s2 == s1,
{
}

/// After its group is closed, the next frame written on a track without
/// asking for a new group opens one, numbered above every group before.
pub proof fn lemma_write_after_close_opens_group(s1: SessionState, s2: SessionState, i: int, r: Result<FramePlan, WrapperError>)
    requires
        s1.wf(),
        0 <= i < s1.slots().len(),
        s1.slots()[i].open_group is None,
        s1.slots()[i].producer_ready,
        s1.slots()[i].next_seq < u64::MAX,
        frame_write(s1, s2, i, false, r),
    ensures
        r matches Ok(fp) && fp.start matches Some(p) && p.closed is None && p.opened == fp.group,
        forall|a: int| 0 <= a < s1.slots()[i].opened@.len() ==> #[trigger] s1.slots()[i].opened@[a] < r->Ok_0.group,
{
    assert(s1.slots()[i].wf());
}

/// Starting a group on a track whose group is open closes that group first,
/// and the new group's number is greater.
pub proof fn lemma_restart_closes_open_group(old: SessionState, new: SessionState, i: int, g: u64, r: Result<GroupPlan, WrapperError>)
    requires
        old.wf(),
        0 <= i < old.slots().len(),
        old.slots()[i].open_group == Some(g),
        group_start(old, new, i, r),
        r is Ok,
    ensures
        r->Ok_0.closed == Some(g),
        r->Ok_0.opened > g,
{
    assert(old.slots()[i].wf());
}

/// Across a disconnection and a reconnection the counter of a track carries
/// on: the first group of the new connection is numbered above every group
/// of the old one.
pub proof fn lemma_reconnect_keeps_increasing(s0: SessionState, s1: SessionState, s2: SessionState, i: int, a: int, r: Result<GroupPlan, WrapperError>)
    requires
        s0.wf(),
        0 <= i < s0.slots().len(),
        0 <= a < s0.slots()[i].opened@.len(),
        i < s1.slots().len(),
        s1.slots()[i] == slot_after_connect(slot_after_disconnect(s0.slots()[i])),
        group_start(s1, s2, i, r),
        r is Ok,
    ensures
        r->Ok_0.opened > s0.slots()[i].opened@[a],
{
    assert(s0.slots()[i].wf());
}

} // verus!
