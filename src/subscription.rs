use vstd::prelude::*;

use crate::catalog::{same_text, Catalog, CatalogType, TrackDefinition};
use crate::config::WrapperError;

verus! {

/// What the subscription maintainer of a resilient consumer is to do next.
#[derive(Clone, Copy, Debug, PartialEq, Eq, Structural)]
pub enum MaintainerStep {
    /// The session is not connected: poll again shortly.
    WaitForConnection,
    /// No inner consumer is held: ask the session to subscribe.
    Subscribe,
    /// An inner consumer is held: nothing to do for now.
    Idle,
}

/// What `next_group` of a resilient consumer is to do.
#[derive(Clone, Copy, Debug, PartialEq, Eq, Structural)]
pub enum NextGroupStep {
    /// Ask the inner consumer for its next group.
    Delegate,
    /// No inner consumer is held: sleep briefly and ask again.
    Wait,
}

/// How a request to the inner consumer for its next group ended.
#[derive(Clone, Copy, Debug, PartialEq, Eq, Structural)]
pub enum GroupOutcome {
    Group,
    Ended,
    Failed,
}

/// The decisions of a consumer of one (broadcast, track) pair that survives
/// reconnections and broadcaster restarts. The inner consumer itself lives
/// with the transport; this value says whether one is held, and counts how
/// many were obtained.
pub struct ResilientTrackConsumer {
    broadcast_name: String,
    track_name: String,
    holding: bool,
    generation: u64,
}

impl ResilientTrackConsumer {
    pub closed spec fn broadcast(&self) -> Seq<char> {
        self.broadcast_name@
    }

    pub closed spec fn track(&self) -> Seq<char> {
        self.track_name@
    }

    /// Whether an inner consumer is held.
    pub closed spec fn holding(&self) -> bool {
        self.holding
    }

    /// How many inner consumers were obtained so far.
    pub closed spec fn generation(&self) -> u64 {
        self.generation
    }

    pub fn new(broadcast_name: &str, track_name: &str) -> (r: Self)
        ensures
            r.broadcast() == broadcast_name@,
            r.track() == track_name@,
            !r.holding(),
            r.generation() == 0,
    {
        ResilientTrackConsumer {
            broadcast_name: broadcast_name.to_string(),
            track_name: track_name.to_string(),
            holding: false,
            generation: 0,
        }
    }

    pub fn is_holding(&self) -> (r: bool)
        ensures
            r == self.holding(),
    {
        self.holding
    }

    pub fn generation_count(&self) -> (r: u64)
        ensures
            r == self.generation(),
    {
        self.generation
    }

    /// One round of the subscription maintainer.
    pub fn maintain(&self, connected: bool) -> (r: MaintainerStep)
        ensures
            r == if !connected {
                MaintainerStep::WaitForConnection
            } else if !self.holding() {
                MaintainerStep::Subscribe
            } else {
                MaintainerStep::Idle
            },
    {
        if !connected {
            MaintainerStep::WaitForConnection
        } else if !self.holding {
            MaintainerStep::Subscribe
        } else {
            MaintainerStep::Idle
        }
    }

    /// The session answered a subscription request; on success the new inner
    /// consumer is held.
    pub fn on_subscribed(&mut self, ok: bool)
        ensures
            final(self).holding() == (old(self).holding() || ok),
            final(self).generation() == if ok && old(self).generation() < u64::MAX {
                (old(self).generation() + 1) as u64
            } else {
                old(self).generation()
            },
            final(self).broadcast() == old(self).broadcast(),
            final(self).track() == old(self).track(),
    {
        if ok {
            self.holding = true;
            if self.generation < u64::MAX {
                self.generation = self.generation + 1;
            }
        }
    }

    /// An announcement or withdrawal of a broadcast arrived. One for this
    /// consumer's broadcast starts a fresh epoch: the inner consumer is
    /// dropped, so that the maintainer subscribes anew. Returns whether it
    /// was dropped.
    pub fn on_broadcast_event(&mut self, path: &str) -> (dropped: bool)
        ensures
            dropped == (old(self).holding() && path@ == old(self).broadcast()),
            final(self).holding() == (old(self).holding() && path@ != old(self).broadcast()),
            final(self).generation() == old(self).generation(),
            final(self).broadcast() == old(self).broadcast(),
            final(self).track() == old(self).track(),
    {
        if same_text(path, self.broadcast_name.as_str()) {
            let was = self.holding;
            self.holding = false;
            was
        } else {
            false
        }
    }

    /// What `next_group` is to do now.
    pub fn next_group(&self) -> (r: NextGroupStep)
        ensures
            r == if self.holding() { NextGroupStep::Delegate } else { NextGroupStep::Wait },
    {
        if self.holding {
            NextGroupStep::Delegate
        } else {
            NextGroupStep::Wait
        }
    }

    /// The inner consumer answered; returns whether a group is handed to the
    /// caller. A stream end or an error drops the inner consumer.
    pub fn on_group(&mut self, outcome: GroupOutcome) -> (deliver: bool)
        ensures
            deliver == (outcome == GroupOutcome::Group),
            final(self).holding() == (old(self).holding() && outcome == GroupOutcome::Group),
            final(self).generation() == old(self).generation(),
            final(self).broadcast() == old(self).broadcast(),
            final(self).track() == old(self).track(),
    {
        match outcome {
            GroupOutcome::Group => true,
            _ => {
                self.holding = false;
                false
            },
        }
    }
}


/// What a subscription manager is to do when its broadcast is announced:
/// subscribe to the catalog track if asked, and to each of these tracks, in
/// order.
#[derive(Clone, Debug)]
pub struct AnnouncementPlan {
    pub subscribe_catalog: bool,
    pub tracks: Vec<String>,
}

/// The names of the definitions, in order.
pub open spec fn names_of(ts: Seq<TrackDefinition>, ns: Seq<String>) -> bool {
    &&& ns.len() == ts.len()
    &&& forall|i: int| 0 <= i < ts.len() ==> (#[trigger] ns[i])@ == ts[i].name@
}

/// What a manager does with an announcement of `path`: the first one of its
/// broadcast starts the subscriptions, asking for the catalog track unless
/// that was done already or no catalog is used; every other one changes
/// nothing.
pub open spec fn announcement_step(old: BroadcastSubscriptionManager, new: BroadcastSubscriptionManager, path: Seq<char>, r: AnnouncementPlan) -> bool {
    if old.started() || path != old.broadcast() {
        &&& !r.subscribe_catalog
        &&& r.tracks@.len() == 0
        &&& new == old
    } else {
        &&& r.subscribe_catalog == (old.catalog_type() != CatalogType::NoCatalog && !old.catalog_subscribed())
        &&& names_of(old.requested(), r.tracks@)
        &&& new.started()
        &&& new.active()
        &&& new.catalog_subscribed() == (old.catalog_subscribed() || r.subscribe_catalog)
        &&& new.catalog_subscriptions() == old.catalog_subscriptions() + if r.subscribe_catalog { 1nat } else { 0nat }
        &&& new.broadcast() == old.broadcast()
        &&& new.catalog_type() == old.catalog_type()
        &&& new.requested() == old.requested()
        &&& new.active_tracks() == old.active_tracks()
        &&& new.catalog() == old.catalog()
    }
}

/// The decisions of the manager of one broadcast: it waits for the
/// broadcast's announcement, subscribes to the catalog track at most once and
/// to every requested track, keeps the latest catalog and the set of tracks
/// whose subscription is live.
pub struct BroadcastSubscriptionManager {
    broadcast_name: String,
    catalog_type: CatalogType,
    requested_tracks: Vec<TrackDefinition>,
    started: bool,
    catalog_subscribed: bool,
    is_active: bool,
    active_tracks: Vec<String>,
    current_catalog: Option<Catalog>,
    catalog_subscriptions: Ghost<nat>,
}

impl BroadcastSubscriptionManager {
    pub closed spec fn broadcast(&self) -> Seq<char> {
        self.broadcast_name@
    }

    pub closed spec fn catalog_type(&self) -> CatalogType {
        self.catalog_type
    }

    pub closed spec fn requested(&self) -> Seq<TrackDefinition> {
        self.requested_tracks@
    }

    /// Whether the broadcast's announcement has been seen.
    pub closed spec fn started(&self) -> bool {
        self.started
    }

    pub closed spec fn catalog_subscribed(&self) -> bool {
        self.catalog_subscribed
    }

    pub closed spec fn active(&self) -> bool {
        self.is_active
    }

    /// The names of the tracks whose subscription is live.
    pub closed spec fn active_tracks(&self) -> Seq<Seq<char>> {
        self.active_tracks@.map_values(|n: String| n@)
    }

    pub closed spec fn catalog(&self) -> Option<Catalog> {
        self.current_catalog
    }

    /// How many times this manager asked for the catalog track.
    pub closed spec fn catalog_subscriptions(&self) -> nat {
        self.catalog_subscriptions@
    }

    pub closed spec fn wf(&self) -> bool {
        &&& self.catalog_subscriptions@ <= 1
        &&& self.catalog_subscriptions@ == 1 ==> self.started
        &&& self.catalog_subscribed ==> self.catalog_subscriptions@ == 1
    }

    pub fn new(broadcast_name: &str, catalog_type: CatalogType, requested_tracks: Vec<TrackDefinition>) -> (r: Self)
        ensures
            r.wf(),
            r.broadcast() == broadcast_name@,
            r.catalog_type() == catalog_type,
            r.requested() == requested_tracks@,
            !r.started(),
            !r.catalog_subscribed(),
            !r.active(),
            r.active_tracks().len() == 0,
            r.catalog() is None,
            r.catalog_subscriptions() == 0,
    {
        BroadcastSubscriptionManager {
            broadcast_name: broadcast_name.to_string(),
            catalog_type,
            requested_tracks,
            started: false,
            catalog_subscribed: false,
            is_active: false,
            active_tracks: Vec::new(),
            current_catalog: None,
            catalog_subscriptions: Ghost(0),
        }
    }

    /// An announcement arrived. The first one for this manager's broadcast
    /// starts the subscriptions; every other one is ignored.
    pub fn on_announcement(&mut self, path: &str) -> (r: AnnouncementPlan)
        requires
            old(self).wf(),
        ensures
            final(self).wf(),
            announcement_step(*old(self), *final(self), path@, r),
    {
        if self.started || !same_text(path, self.broadcast_name.as_str()) {
            return AnnouncementPlan { subscribe_catalog: false, tracks: Vec::new() };
        }
        self.started = true;
        let subscribe_catalog = match self.catalog_type {
            CatalogType::NoCatalog => false,
            _ => !self.catalog_subscribed,
        };
        if subscribe_catalog {
            self.catalog_subscribed = true;
            self.catalog_subscriptions = Ghost(1);
        }
        self.is_active = true;
        let mut tracks: Vec<String> = Vec::new();
        let mut i: usize = 0;
        while i < self.requested_tracks.len()
            invariant
                i <= self.requested_tracks@.len(),
                tracks@.len() == i,
                forall|k: int| 0 <= k < i ==> (#[trigger] tracks@[k])@ == self.requested_tracks@[k].name@,
            decreases self.requested_tracks@.len() - i,
        {
            tracks.push(self.requested_tracks[i].name.clone());
            i = i + 1;
        }
        AnnouncementPlan { subscribe_catalog, tracks }
    }

    /// A catalog snapshot was received and parsed.
    pub fn on_catalog(&mut self, catalog: Catalog)
        ensures
            final(self).catalog() == Some(catalog),
            final(self).started() == old(self).started(),
            final(self).active() == old(self).active(),
            final(self).catalog_subscribed() == old(self).catalog_subscribed(),
            final(self).catalog_subscriptions() == old(self).catalog_subscriptions(),
            final(self).active_tracks() == old(self).active_tracks(),
            final(self).wf() == old(self).wf(),
    {
        self.current_catalog = Some(catalog);
    }

    /// Whether a per-track task is to keep reading.
    pub fn is_active(&self) -> (r: bool)
        ensures
            r == self.active(),
    {
        self.is_active
    }

    /// The latest catalog received.
    pub fn get_catalog(&self) -> (r: Option<&Catalog>)
        ensures
            r matches Some(c) ==> self.catalog() == Some(*c),
            r is None ==> self.catalog() is None,
    {
        match &self.current_catalog {
            Some(c) => Some(c),
            None => None,
        }
    }

    /// The names of the tracks whose subscription is live.
    pub fn get_active_tracks(&self) -> (r: Vec<String>)
        ensures
            r@.map_values(|n: String| n@) == self.active_tracks(),
    {
        let mut out: Vec<String> = Vec::new();
        let mut i: usize = 0;
        while i < self.active_tracks.len()
            invariant
                i <= self.active_tracks@.len(),
                out@.len() == i,
                forall|k: int| 0 <= k < i ==> (#[trigger] out@[k])@ == self.active_tracks@[k]@,
            decreases self.active_tracks@.len() - i,
        {
            out.push(self.active_tracks[i].clone());
            i = i + 1;
        }
        assert(out@.map_values(|n: String| n@) =~= self.active_tracks@.map_values(|n: String| n@));
        out
    }

    /// A per-track subscription is live.
    pub fn on_track_subscribed(&mut self, name: &str)
        ensures
            final(self).active_tracks() == if old(self).active_tracks().contains(name@) {
                old(self).active_tracks()
            } else {
                old(self).active_tracks().push(name@)
            },
            final(self).started() == old(self).started(),
            final(self).active() == old(self).active(),
            final(self).catalog_subscribed() == old(self).catalog_subscribed(),
            final(self).catalog_subscriptions() == old(self).catalog_subscriptions(),
            final(self).catalog() == old(self).catalog(),
            final(self).wf() == old(self).wf(),
    {
        let ghost names = self.active_tracks@.map_values(|n: String| n@);
        let mut i: usize = 0;
        while i < self.active_tracks.len()
            invariant
                i <= self.active_tracks@.len(),
                names == self.active_tracks@.map_values(|n: String| n@),
                forall|k: int| 0 <= k < i ==> (#[trigger] self.active_tracks@[k])@ != name@,
            decreases self.active_tracks@.len() - i,
        {
            if same_text(self.active_tracks[i].as_str(), name) {
                assert(names[i as int] == name@);
                return;
            }
            i = i + 1;
        }
        assert(!names.contains(name@)) by {
            if names.contains(name@) {
                let k = choose|k: int| 0 <= k < names.len() && names[k] == name@;
                assert(self.active_tracks@[k]@ == name@);
            }
        }
        self.active_tracks.push(name.to_string());
        assert(self.active_tracks@.map_values(|n: String| n@) =~= names.push(name@));
    }

    /// A per-track subscription ended.
    pub fn on_track_ended(&mut self, name: &str)
        ensures
            final(self).active_tracks() == old(self).active_tracks().filter(|n: Seq<char>| n != name@),
            final(self).started() == old(self).started(),
            final(self).active() == old(self).active(),
            final(self).catalog_subscribed() == old(self).catalog_subscribed(),
            final(self).catalog_subscriptions() == old(self).catalog_subscriptions(),
            final(self).catalog() == old(self).catalog(),
            final(self).wf() == old(self).wf(),
    {
        let ghost names = self.active_tracks@.map_values(|n: String| n@);
        let mut kept: Vec<String> = Vec::new();
        let mut i: usize = 0;
        while i < self.active_tracks.len()
            invariant
                i <= self.active_tracks@.len(),
                names == self.active_tracks@.map_values(|n: String| n@),
                kept@.map_values(|n: String| n@) == names.take(i as int).filter(|n: Seq<char>| n != name@),
            decreases self.active_tracks@.len() - i,
        {
            proof {
                assert(names.take(i + 1).drop_last() =~= names.take(i as int));
                reveal(Seq::filter);
            }
            if !same_text(self.active_tracks[i].as_str(), name) {
                let ghost before = kept@;
                kept.push(self.active_tracks[i].clone());
                assert(kept@.map_values(|n: String| n@) =~= before.map_values(|n: String| n@).push(names[i as int]));
            }
            i = i + 1;
        }
        assert(names.take(names.len() as int) =~= names);
        self.active_tracks = kept;
    }

    /// Stops every subscription: the manager becomes inactive and forgets
    /// its tracks and its catalog. Stopping again changes nothing.
    pub fn stop(&mut self)
        requires
            old(self).wf(),
        ensures
            final(self).wf(),
            !final(self).active(),
            !final(self).catalog_subscribed(),
            final(self).active_tracks().len() == 0,
            final(self).catalog() is None,
            final(self).started() == old(self).started(),
            final(self).catalog_subscriptions() == old(self).catalog_subscriptions(),
            final(self).broadcast() == old(self).broadcast(),
            final(self).catalog_type() == old(self).catalog_type(),
            final(self).requested() == old(self).requested(),
    {
        self.is_active = false;
        self.catalog_subscribed = false;
        self.active_tracks = Vec::new();
        self.current_catalog = None;
        assert(self.active_tracks@.map_values(|n: String| n@) =~= Seq::<Seq<char>>::empty());
    }
}

/// The key under which a callback subscription is registered.
pub open spec fn subscription_key(broadcast: Seq<char>, track: Seq<char>) -> Seq<char> {
    broadcast + ":"@ + track
}

/// The callback subscriptions in force, one per (broadcast, track) key.
pub struct SubscriptionManager {
    active: Vec<String>,
}

impl SubscriptionManager {
    /// The registered keys.
    pub closed spec fn keys(&self) -> Set<Seq<char>> {
        self.active@.map_values(|k: String| k@).to_set()
    }

    pub closed spec fn wf(&self) -> bool {
        self.active@.map_values(|k: String| k@).no_duplicates()
    }

    pub fn new() -> (r: Self)
        ensures
            r.wf(),
            r.keys() == Set::<Seq<char>>::empty(),
    {
        let r = SubscriptionManager { active: Vec::new() };
        assert(r.active@.map_values(|k: String| k@) =~= Seq::<Seq<char>>::empty());
        assert(r.keys() =~= Set::<Seq<char>>::empty());
        r
    }

    fn key_of(broadcast: &str, track: &str) -> (r: String)
        ensures
            r@ == subscription_key(broadcast@, track@),
    {
        let mut k = broadcast.to_string();
        k.append(":");
        k.append(track);
        proof {
            reveal_strlit(":");
        }
        k
    }

    fn position(&self, key: &String) -> (r: Option<usize>)
        ensures
            r matches Some(i) ==> i < self.active@.len() && self.active@[i as int]@ == key@,
            r is None ==> !self.keys().contains(key@),
    {
        let mut i: usize = 0;
        while i < self.active.len()
            invariant
                i <= self.active@.len(),
                forall|j: int| 0 <= j < i ==> (#[trigger] self.active@[j])@ != key@,
            decreases self.active@.len() - i,
        {
            if self.active[i] == *key {
                return Some(i);
            }
            i = i + 1;
        }
        proof {
            if self.keys().contains(key@) {
                let names = self.active@.map_values(|k: String| k@);
                let j = choose|j: int| 0 <= j < names.len() && names[j] == key@;
                assert(self.active@[j]@ == key@);
            }
        }
        None
    }

    /// Registers a subscription to `track` of `broadcast`; refused when one
    /// is registered already.
    pub fn subscribe_track_with_callback(&mut self, broadcast: &str, track: &str) -> (r: Result<(), WrapperError>)
        requires
            old(self).wf(),
        ensures
            final(self).wf(),
            old(self).keys().contains(subscription_key(broadcast@, track@)) ==> (r matches Err(WrapperError::Session(_)) && final(self).keys() == old(self).keys()),
            !old(self).keys().contains(subscription_key(broadcast@, track@)) ==> (r is Ok && final(self).keys() == old(self).keys().insert(subscription_key(broadcast@, track@))),
    {
        let key = Self::key_of(broadcast, track);
        if let Some(_) = self.position(&key) {
            proof {
                let i = choose|i: int| 0 <= i < self.active@.len() && self.active@[i]@ == key@;
                assert(self.active@.map_values(|k: String| k@)[i] == key@);
            }
            return Err(WrapperError::Session("Already subscribed to track".to_string()));
        }
        let ghost before = self.active@.map_values(|k: String| k@);
        let ghost kv = key@;
        self.active.push(key);
        proof {
            assert(self.active@.map_values(|k: String| k@) =~= before.push(kv));
            assert(!before.contains(kv));
            let after = before.push(kv);
            assert forall|x: Seq<char>| after.to_set().contains(x) <==> before.to_set().insert(kv).contains(x) by {
                if after.to_set().contains(x) {
                    let a = choose|a: int| 0 <= a < after.len() && after[a] == x;
                    if a < before.len() {
                        assert(before[a] == x);
                    }
                }
                if before.to_set().contains(x) {
                    let a = choose|a: int| 0 <= a < before.len() && before[a] == x;
                    assert(after[a] == x);
                }
                if x == kv {
                    assert(after[before.len() as int] == x);
                }
            }
            assert(after.to_set() =~= before.to_set().insert(kv));
            assert forall|a: int, b: int| 0 <= a < after.len() && 0 <= b < after.len() && a != b implies after[a] != after[b] by {
                if a < before.len() && b < before.len() {
                    assert(before[a] != before[b]);
                } else if a < before.len() {
                    assert(before[a] != kv);
                } else {
                    assert(before[b] != kv);
                }
            }
        }
        Ok(())
    }

    /// Unregisters a subscription; returns whether it was registered.
    pub fn remove_subscription(&mut self, broadcast: &str, track: &str) -> (r: bool)
        requires
            old(self).wf(),
        ensures
            final(self).wf(),
            r == old(self).keys().contains(subscription_key(broadcast@, track@)),
            final(self).keys() == old(self).keys().remove(subscription_key(broadcast@, track@)),
    {
        let key = Self::key_of(broadcast, track);
        match self.position(&key) {
            Some(i) => {
                let ghost before = self.active@.map_values(|k: String| k@);
                let ghost kv = key@;
                proof {
                    assert(before[i as int] == kv);
                }
                self.active.remove(i);
                proof {
                    let after = self.active@.map_values(|k: String| k@);
                    assert(after =~= before.remove(i as int));
                    assert forall|a: int, b: int| 0 <= a < after.len() && 0 <= b < after.len() && a != b implies after[a] != after[b] by {
                        let a2 = if a < i { a } else { a + 1 };
                        let b2 = if b < i { b } else { b + 1 };
                        assert(after[a] == before[a2]);
                        assert(after[b] == before[b2]);
                    }
                    assert forall|x: Seq<char>| after.to_set().contains(x) <==> before.to_set().remove(kv).contains(x) by {
                        if after.to_set().contains(x) {
                            let a = choose|a: int| 0 <= a < after.len() && after[a] == x;
                            let a2 = if a < i { a } else { a + 1 };
                            assert(before[a2] == x);
                            assert(a2 != i);
                        }
                        if before.to_set().remove(kv).contains(x) {
                            let a2 = choose|a2: int| 0 <= a2 < before.len() && before[a2] == x;
                            assert(a2 != i);
                            let a = if a2 < i { a2 } else { a2 - 1 };
                            assert(after[a] == x);
                        }
                    }
                    assert(after.to_set() =~= before.to_set().remove(kv));
                    assert(before.contains(kv));
                }
                true
            },
            None => {
                proof {
                    assert(self.keys().remove(key@) =~= self.keys());
                }
                false
            },
        }
    }

    /// How many subscriptions are registered.
    pub fn active_subscription_count(&self) -> (r: usize)
        requires
            self.wf(),
        ensures
            r == self.keys().len(),
    {
        proof {
            self.active@.map_values(|k: String| k@).unique_seq_to_set();
        }
        self.active.len()
    }

    /// Unregisters every subscription.
    pub fn shutdown(&mut self)
        ensures
            final(self).wf(),
            final(self).keys() == Set::<Seq<char>>::empty(),
    {
        self.active = Vec::new();
        assert(self.active@.map_values(|k: String| k@) =~= Seq::<Seq<char>>::empty());
        assert(self.keys() =~= Set::<Seq<char>>::empty());
    }
}

/// A manager asks for the catalog track at most once in its lifetime,
/// however many announcements arrive.
pub proof fn lemma_catalog_subscribed_at_most_once(m: BroadcastSubscriptionManager)
    requires
        m.wf(),
    ensures
        m.catalog_subscriptions() <= 1,
{
}

} // verus!
