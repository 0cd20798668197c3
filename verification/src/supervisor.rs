//! Keeps every endpoint connected: which attempts are due, how long to wait
//! after a failure, and whose reports still count.
use crate::clock::{millis, Duration, Instant};
use crate::profile::{
    ClientEndpointId, ClientEndpointStatus, ConnectTarget, EndpointKey, SavedSshEndpoint,
};
use crate::table::{EndpointTable, ReconnectState};
use std::path::PathBuf;
use vstd::arithmetic::power2::pow2;
use vstd::prelude::*;

verus! {

/// Pause after the first failed attempt.
pub const INITIAL_RETRY_DELAY_MS: u64 = 500;

/// Longest pause between attempts.
pub const MAX_RETRY_DELAY_MS: u64 = 30_000;

/// Longest pause between attempts once the local transport bridge has said
/// that the connection it closed can be re-dialed on a credential that already
/// carried a session. Such a reconnect is one dial and no SSH, so retrying
/// often costs a handful of small packets. Endpoints whose bridge never sends
/// the hint keep [`MAX_RETRY_DELAY_MS`].
pub const FAST_RECONNECT_MAX_DELAY_MS: u64 = 4_000;

/// Times the initial pause has doubled by the given attempt: not before the
/// second, and six times at most.
pub open spec fn doublings(attempt: int) -> nat {
    if attempt <= 1 {
        0
    } else if attempt <= 7 {
        (attempt - 1) as nat
    } else {
        6
    }
}

/// Nanoseconds to wait after the given number of failed attempts.
pub open spec fn backoff(attempt: int) -> int {
    let doubled = millis(INITIAL_RETRY_DELAY_MS as int) * pow2(doublings(attempt));
    if doubled <= millis(MAX_RETRY_DELAY_MS as int) {
        doubled
    } else {
        millis(MAX_RETRY_DELAY_MS as int)
    }
}

/// The same, held at the shorter cap for an endpoint that can re-dial fast.
pub open spec fn paced_backoff(attempt: int, fast: bool) -> int {
    if fast && backoff(attempt) > millis(FAST_RECONNECT_MAX_DELAY_MS as int) {
        millis(FAST_RECONNECT_MAX_DELAY_MS as int)
    } else {
        backoff(attempt)
    }
}

/// The ladder, rung by rung.
pub proof fn lemma_backoff_ladder(attempt: int)
    ensures
        attempt <= 1 ==> backoff(attempt) == millis(500),
        attempt == 2 ==> backoff(attempt) == millis(1_000),
        attempt == 3 ==> backoff(attempt) == millis(2_000),
        attempt == 4 ==> backoff(attempt) == millis(4_000),
        attempt == 5 ==> backoff(attempt) == millis(8_000),
        attempt == 6 ==> backoff(attempt) == millis(16_000),
        attempt >= 7 ==> backoff(attempt) == millis(30_000),
{
    vstd::arithmetic::power2::lemma2_to64();
    let factor = pow2(doublings(attempt)) as int;
    let initial = millis(INITIAL_RETRY_DELAY_MS as int);
    assert(initial * factor == 500_000_000 * factor) by (nonlinear_arith)
        requires
            initial == 500_000_000,
    ;
}

/// The pause after the given number of failed attempts in a row.
pub fn retry_delay(attempt: u32) -> (delay: Duration)
    ensures
        delay.nanos == backoff(attempt as int),
        millis(INITIAL_RETRY_DELAY_MS as int) <= delay.nanos <= millis(MAX_RETRY_DELAY_MS as int),
{
    let rung: u32 = attempt.saturating_sub(1);
    let shift: u32 = if rung < 6 {
        rung
    } else {
        6
    };
    let factor: u32 = 1u32 << shift;
    proof {
        vstd::arithmetic::power2::lemma2_to64();
        vstd::bits::lemma_u32_shl_is_mul(1, shift);
        lemma_backoff_ladder(attempt as int);
    }
    let doubled = Duration::from_millis(INITIAL_RETRY_DELAY_MS * factor as u64);
    doubled.min(Duration::from_millis(MAX_RETRY_DELAY_MS))
}

impl ReconnectState {
    /// An endpoint that was just added: due at once, nothing in flight.
    pub open spec fn fresh(target: ConnectTarget, now: Instant) -> ReconnectState {
        ReconnectState {
            target,
            attempts: 0,
            next_attempt: Some(now),
            in_flight: false,
            generation: None,
            fast_reconnect: false,
        }
    }

    /// Whether an attempt should start now.
    pub open spec fn due(self, now: Instant) -> bool {
        &&& !self.in_flight
        &&& self.next_attempt matches Some(deadline)
        &&& deadline.nanos <= now.nanos
    }

    /// The endpoint with an attempt under way.
    pub open spec fn started(self, generation: u64) -> ReconnectState {
        ReconnectState {
            in_flight: true,
            next_attempt: None,
            generation: Some(generation),
            ..self
        }
    }

    /// Failed attempts, counting one more.
    pub open spec fn attempts_after_failure(self) -> u32 {
        if self.attempts < u32::MAX {
            (self.attempts + 1) as u32
        } else {
            u32::MAX
        }
    }

    /// The endpoint once its current attempt or connection reported `status`.
    pub open spec fn reported(self, status: ClientEndpointStatus, now: Instant) -> ReconnectState {
        let landed = ReconnectState { in_flight: false, ..self };
        match status {
            ClientEndpointStatus::Online => ReconnectState {
                attempts: 0,
                next_attempt: None,
                fast_reconnect: false,
                ..landed
            },
            ClientEndpointStatus::Attention | ClientEndpointStatus::Disabled => ReconnectState {
                next_attempt: None,
                ..landed
            },
            ClientEndpointStatus::Connecting | ClientEndpointStatus::Reconnecting => {
                let attempts = self.attempts_after_failure();
                let wait = paced_backoff(attempts as int, self.fast_reconnect);
                ReconnectState {
                    attempts,
                    next_attempt: Some(Instant { nanos: (now.nanos + wait) as u128 }),
                    ..landed
                }
            },
        }
    }

    pub fn new(target: ConnectTarget, now: Instant) -> (state: ReconnectState)
        ensures
            state == ReconnectState::fresh(target, now),
    {
        ReconnectState {
            target,
            attempts: 0,
            next_attempt: Some(now),
            in_flight: false,
            generation: None,
            fast_reconnect: false,
        }
    }

    /// How long this endpoint waits before its next attempt.
    pub fn retry_delay(&self) -> (delay: Duration)
        ensures
            delay.nanos == paced_backoff(self.attempts as int, self.fast_reconnect),
            delay.nanos <= millis(MAX_RETRY_DELAY_MS as int),
    {
        let delay = retry_delay(self.attempts);
        if self.fast_reconnect {
            delay.min(Duration::from_millis(FAST_RECONNECT_MAX_DELAY_MS))
        } else {
            delay
        }
    }

    /// Whether an attempt should start now.
    pub fn is_due(&self, now: Instant) -> (due: bool)
        ensures
            due == self.due(now),
    {
        if self.in_flight {
            return false;
        }
        match self.next_attempt {
            Some(deadline) => deadline.nanos <= now.nanos,
            None => false,
        }
    }
}

/// One attempt to connect an endpoint, to be made now.
pub struct ConnectAttempt {
    pub endpoint_id: ClientEndpointId,
    /// What every report of the attempt has to carry to be heard.
    pub generation: u64,
    pub target: ConnectTarget,
}

/// The endpoints under supervision.
pub struct EndpointSupervisors {
    pub endpoints: EndpointTable,
    /// Generation of the next attempt.
    pub next_generation: u64,
}

/// The generation `count` attempts after `first`; it stays at the last one.
pub open spec fn generation_after(first: u64, count: int) -> u64 {
    if first + count <= u64::MAX {
        (first + count) as u64
    } else {
        u64::MAX
    }
}

/// Those of `keys` whose endpoint is due, in the same order.
pub open spec fn due_keys(
    keys: Seq<EndpointKey>,
    states: Map<EndpointKey, ReconnectState>,
    now: Instant,
) -> Seq<EndpointKey> {
    keys.filter(|k: EndpointKey| states[k].due(now))
}

/// Whether an endpoint that reports `status` is tried again.
pub open spec fn retries(status: ClientEndpointStatus) -> bool {
    status == ClientEndpointStatus::Connecting || status == ClientEndpointStatus::Reconnecting
}

/// Whether a report of `generation` is one of the endpoint's current attempt or
/// connection.
pub open spec fn is_current(
    states: Map<EndpointKey, ReconnectState>,
    key: EndpointKey,
    generation: u64,
) -> bool {
    states.contains_key(key) && states[key].generation == Some(generation)
}

/// The endpoints after a report; only a current one changes anything.
pub open spec fn after_report(
    states: Map<EndpointKey, ReconnectState>,
    key: EndpointKey,
    generation: u64,
    status: ClientEndpointStatus,
    now: Instant,
) -> Map<EndpointKey, ReconnectState> {
    if is_current(states, key, generation) {
        states.insert(key, states[key].reported(status, now))
    } else {
        states
    }
}

/// The endpoints after a fast-reconnect hint; only a current one counts.
pub open spec fn after_hint(
    states: Map<EndpointKey, ReconnectState>,
    key: EndpointKey,
    generation: u64,
) -> Map<EndpointKey, ReconnectState> {
    if is_current(states, key, generation) {
        states.insert(key, (ReconnectState { fast_reconnect: true, ..states[key] }))
    } else {
        states
    }
}

/// The endpoints once every due attempt has started, the first of them with
/// generation `first`.
pub open spec fn after_spawn(
    keys: Seq<EndpointKey>,
    states: Map<EndpointKey, ReconnectState>,
    now: Instant,
    first: u64,
) -> Map<EndpointKey, ReconnectState> {
    Map::new(
        |k: EndpointKey| states.contains_key(k),
        |k: EndpointKey|
            if states[k].due(now) {
                states[k].started(
                    generation_after(first, due_keys(keys, states, now).index_of(k)),
                )
            } else {
                states[k]
            },
    )
}

/// The local endpoint as it joins: connected already as `generation`, or due at
/// once.
pub open spec fn joined(path: PathBuf, generation: Option<u64>, now: Instant) -> ReconnectState {
    ReconnectState {
        generation,
        next_attempt: if generation is Some {
            None
        } else {
            Some(now)
        },
        ..ReconnectState::fresh(ConnectTarget::Local(path), now)
    }
}

/// The endpoint that a saved machine is.
pub open spec fn profile_key(profile: SavedSshEndpoint) -> EndpointKey {
    EndpointKey::Ssh(profile.id@)
}

/// The enabled profile for `key`; the last one where several share the name.
pub open spec fn chosen(profiles: Seq<SavedSshEndpoint>, key: EndpointKey) -> Option<
    SavedSshEndpoint,
>
    decreases profiles.len(),
{
    if profiles.len() == 0 {
        None
    } else if profiles.last().enabled && profile_key(profiles.last()) == key {
        Some(profiles.last())
    } else {
        chosen(profiles.drop_last(), key)
    }
}

/// Whether `profile` still stands for the machine that `previous` stood for:
/// enabled, and leading to the same session on the same destination.
pub open spec fn same_machine(profile: SavedSshEndpoint, previous: SavedSshEndpoint) -> bool {
    &&& profile.id@ == previous.id@
    &&& profile.enabled
    &&& profile.target@ == previous.target@
    &&& profile.session@ == previous.session@
}

/// Whether an endpoint outlives a change of the saved machines to `profiles`.
pub open spec fn kept(state: ReconnectState, profiles: Seq<SavedSshEndpoint>) -> bool {
    match state.target {
        ConnectTarget::Local(_) => true,
        ConnectTarget::Ssh(previous) => exists|i: int|
            0 <= i < profiles.len() && same_machine(#[trigger] profiles[i], previous),
    }
}

/// The endpoints that outlive the change, as they were.
pub open spec fn surviving(
    states: Map<EndpointKey, ReconnectState>,
    profiles: Seq<SavedSshEndpoint>,
) -> Map<EndpointKey, ReconnectState> {
    Map::new(
        |k: EndpointKey| states.contains_key(k) && kept(states[k], profiles),
        |k: EndpointKey| states[k],
    )
}

/// `states` with every enabled profile in it: an endpoint that is there takes
/// over the profile and keeps the rest, one that is not starts fresh.
pub open spec fn adopted(
    states: Map<EndpointKey, ReconnectState>,
    profiles: Seq<SavedSshEndpoint>,
    now: Instant,
) -> Map<EndpointKey, ReconnectState> {
    Map::new(
        |k: EndpointKey| states.contains_key(k) || chosen(profiles, k) is Some,
        |k: EndpointKey|
            match chosen(profiles, k) {
                None => states[k],
                Some(profile) => if states.contains_key(k) {
                    ReconnectState { target: ConnectTarget::Ssh(profile), ..states[k] }
                } else {
                    ReconnectState::fresh(ConnectTarget::Ssh(profile), now)
                },
            },
    )
}

/// The endpoints once they follow `profiles`.
pub open spec fn after_reconcile(
    states: Map<EndpointKey, ReconnectState>,
    profiles: Seq<SavedSshEndpoint>,
    now: Instant,
) -> Map<EndpointKey, ReconnectState> {
    adopted(surviving(states, profiles), profiles, now)
}

/// Those of `keys` whose endpoint does not outlive the change.
pub open spec fn retired_keys(
    keys: Seq<EndpointKey>,
    states: Map<EndpointKey, ReconnectState>,
    profiles: Seq<SavedSshEndpoint>,
) -> Seq<EndpointKey> {
    keys.filter(|k: EndpointKey| !kept(states[k], profiles))
}

/// What is left of distinct items is distinct.
pub(crate) proof fn lemma_filter_no_duplicates(
    keys: Seq<EndpointKey>,
    pred: spec_fn(EndpointKey) -> bool,
)
    requires
        keys.no_duplicates(),
    ensures
        keys.filter(pred).no_duplicates(),
    decreases keys.len(),
{
    reveal(Seq::filter);
    if keys.len() > 0 {
        let rest = keys.drop_last();
        lemma_filter_no_duplicates(rest, pred);
        if rest.filter(pred).contains(keys.last()) {
            rest.lemma_filter_contains_rev(pred, keys.last());
            let j = rest.index_of(keys.last());
            assert(keys[j] == keys.last());
        }
        assert forall|i: int| 0 <= i < rest.filter(pred).len() implies #[trigger] rest.filter(
            pred,
        )[i] != keys.last() by {
            assert(rest.filter(pred).contains(rest.filter(pred)[i]));
        }
    }
}

fn is_kept(state: &ReconnectState, profiles: &[SavedSshEndpoint]) -> (keep: bool)
    ensures
        keep == kept(*state, profiles@),
{
    match &state.target {
        ConnectTarget::Local(_) => true,
        ConnectTarget::Ssh(previous) => {
            let mut index: usize = 0;
            while index < profiles.len()
                invariant
                    state.target == ConnectTarget::Ssh(*previous),
                    index <= profiles@.len(),
                    forall|i: int| 0 <= i < index ==> !same_machine(profiles@[i], *previous),
                decreases profiles@.len() - index,
            {
                let profile = &profiles[index];
                if profile.id.matches(&previous.id) && profile.enabled && profile.target
                    == previous.target && profile.session == previous.session {
                    assert(same_machine(profiles@[index as int], *previous));
                    return true;
                }
                index = index + 1;
            }
            false
        },
    }
}

impl EndpointSupervisors {
    pub open spec fn wf(&self) -> bool {
        self.endpoints.wf()
    }

    /// Supervises every enabled machine, each of them due at once.
    pub fn new(profiles: &[SavedSshEndpoint], now: Instant) -> (supervisors: EndpointSupervisors)
        ensures
            supervisors.wf(),
            supervisors.next_generation == 2,
            supervisors.endpoints@ == adopted(
                Map::<EndpointKey, ReconnectState>::empty(),
                profiles@,
                now,
            ),
    {
        let mut supervisors = EndpointSupervisors {
            endpoints: EndpointTable::new(),
            next_generation: 2,
        };
        supervisors.adopt(profiles, now);
        supervisors
    }

    fn adopt(&mut self, profiles: &[SavedSshEndpoint], now: Instant)
        requires
            old(self).wf(),
        ensures
            final(self).wf(),
            final(self).next_generation == old(self).next_generation,
            final(self).endpoints@ == adopted(old(self).endpoints@, profiles@, now),
    {
        let ghost states = self.endpoints@;
        let ghost generation = self.next_generation;
        let mut index: usize = 0;
        assert(adopted(states, profiles@.take(0), now) =~= states);
        while index < profiles.len()
            invariant
                self.wf(),
                self.next_generation == generation,
                index <= profiles@.len(),
                self.endpoints@ == adopted(states, profiles@.take(index as int), now),
            decreases profiles@.len() - index,
        {
            let profile = &profiles[index];
            let ghost before = self.endpoints@;
            proof {
                assert(profiles@.take(index + 1).drop_last() =~= profiles@.take(index as int));
                assert(profiles@.take(index + 1).last() == *profile);
            }
            if profile.enabled {
                let id = ClientEndpointId::Ssh(profile.id.clone());
                match self.endpoints.get_mut(&id) {
                    Some(state) => {
                        state.target = ConnectTarget::Ssh(profile.clone());
                    },
                    None => {
                        let state = ReconnectState::new(ConnectTarget::Ssh(profile.clone()), now);
                        self.endpoints.insert(id, state);
                    },
                }
            }
            proof {
                assert(self.endpoints@ =~= adopted(states, profiles@.take(index + 1), now));
            }
            index = index + 1;
        }
        assert(profiles@.take(index as int) =~= profiles@);
    }

    /// Follows a change of the saved machines. Endpoints whose machine is gone,
    /// disabled or moved are retired, and named in the result; a connection
    /// under a profile that was only renamed goes on undisturbed.
    pub fn reconcile_profiles(
        &mut self,
        profiles: &[SavedSshEndpoint],
        now: Instant,
    ) -> (retired: Vec<ClientEndpointId>)
        requires
            old(self).wf(),
        ensures
            final(self).wf(),
            final(self).next_generation == old(self).next_generation,
            final(self).endpoints@ == after_reconcile(old(self).endpoints@, profiles@, now),
            retired@.map_values(|id: ClientEndpointId| id@) == retired_keys(
                old(self).endpoints.keys(),
                old(self).endpoints@,
                profiles@,
            ),
    {
        let ghost keys = self.endpoints.keys();
        let ghost states = self.endpoints@;
        let ghost generation = self.next_generation;
        let ghost stays = |k: EndpointKey| kept(states[k], profiles@);
        let ghost leaves = |k: EndpointKey| !kept(states[k], profiles@);
        let ghost name = |id: ClientEndpointId| id@;
        let ghost mut seen: int = 0;
        let mut retired: Vec<ClientEndpointId> = Vec::new();
        let mut index: usize = 0;
        proof {
            reveal(Seq::filter);
            assert(keys.take(0).filter(stays) + keys.skip(0) =~= keys);
            assert(retired@.map_values(name) =~= keys.take(0).filter(leaves));
        }
        while index < self.endpoints.len()
            invariant
                self.wf(),
                self.next_generation == generation,
                stays == (|k: EndpointKey| kept(states[k], profiles@)),
                leaves == (|k: EndpointKey| !kept(states[k], profiles@)),
                name == (|id: ClientEndpointId| id@),
                keys.no_duplicates(),
                states.dom() == Set::new(|k: EndpointKey| keys.contains(k)),
                0 <= seen <= keys.len(),
                self.endpoints.keys() == keys.take(seen).filter(stays) + keys.skip(seen),
                index == keys.take(seen).filter(stays).len(),
                retired@.map_values(name) == keys.take(seen).filter(leaves),
                forall|k: EndpointKey|
                    #[trigger] self.endpoints@.contains_key(k) ==> states.contains_key(k)
                        && self.endpoints@[k] == states[k],
            decreases keys.len() - seen,
        {
            let ghost head = keys.take(seen).filter(stays);
            let ghost key = keys[seen];
            proof {
                reveal(Seq::filter);
                assert(self.endpoints.keys()[index as int] == key);
                assert(keys.take(seen + 1).drop_last() =~= keys.take(seen));
                assert(keys.take(seen + 1).last() == key);
                assert(self.endpoints.keys().contains(key));
                assert(self.endpoints@.contains_key(key));
            }
            if is_kept(self.endpoints.state_at(index), profiles) {
                index = index + 1;
                proof {
                    assert(head + keys.skip(seen) =~= head.push(key) + keys.skip(seen + 1));
                }
            } else {
                let ghost before = retired@;
                let id = self.endpoints.remove_at(index);
                retired.push(id);
                proof {
                    assert((head + keys.skip(seen)).remove(index as int) =~= head + keys.skip(
                        seen + 1,
                    ));
                    assert(retired@.map_values(name) =~= before.map_values(name).push(key));
                }
            }
            proof {
                seen = seen + 1;
            }
        }
        proof {
            assert(keys.skip(seen).len() == 0);
            assert(seen == keys.len());
            assert(keys.take(seen) =~= keys);
            assert(self.endpoints.keys() =~= keys.filter(stays));
            assert forall|k: EndpointKey| self.endpoints@.contains_key(k) == surviving(
                states,
                profiles@,
            ).contains_key(k) by {
                let left = keys.filter(stays);
                if left.contains(k) {
                    keys.lemma_filter_pred(stays, left.index_of(k));
                }
                if keys.contains(k) && kept(states[k], profiles@) {
                    keys.lemma_filter_contains(stays, keys.index_of(k));
                }
            }
            assert(self.endpoints@ =~= surviving(states, profiles@));
        }
        self.adopt(profiles, now);
        retired
    }

    /// Puts the local endpoint under supervision. With a `generation` it is
    /// connected already and waits for that connection to end; without one it
    /// is due at once.
    pub fn add_local(&mut self, path: PathBuf, generation: Option<u64>, now: Instant)
        requires
            old(self).wf(),
        ensures
            final(self).wf(),
            final(self).next_generation == old(self).next_generation,
            final(self).endpoints@ == old(self).endpoints@.insert(
                EndpointKey::Local,
                joined(path, generation, now),
            ),
    {
        let mut state = ReconnectState::new(ConnectTarget::Local(path), now);
        state.generation = generation;
        if generation.is_some() {
            state.next_attempt = None;
        }
        self.endpoints.insert(ClientEndpointId::Local, state);
    }

    /// Starts every attempt that is due and says which they are. Each gets the
    /// next generation; whatever the endpoint's earlier attempts still report
    /// is stale from now on.
    pub fn spawn_due(&mut self, now: Instant) -> (attempts: Vec<ConnectAttempt>)
        requires
            old(self).wf(),
        ensures
            final(self).wf(),
            final(self).endpoints.keys() == old(self).endpoints.keys(),
            final(self).endpoints@ == after_spawn(
                old(self).endpoints.keys(),
                old(self).endpoints@,
                now,
                old(self).next_generation,
            ),
            ({
                let states = old(self).endpoints@;
                let first = old(self).next_generation;
                let due = due_keys(old(self).endpoints.keys(), states, now);
                &&& attempts@.len() == due.len()
                &&& final(self).next_generation == generation_after(first, due.len() as int)
                &&& forall|i: int|
                    0 <= i < due.len() ==> {
                        &&& (#[trigger] attempts@[i]).endpoint_id@ == due[i]
                        &&& attempts@[i].generation == generation_after(first, i)
                        &&& attempts@[i].target == states[due[i]].target
                    }
            }),
    {
        let ghost keys = self.endpoints.keys();
        let ghost states = self.endpoints@;
        let ghost first = self.next_generation;
        let ghost is_due = |k: EndpointKey| states[k].due(now);
        let mut attempts: Vec<ConnectAttempt> = Vec::new();
        let count: usize = self.endpoints.len();
        let mut index: usize = 0;
        proof {
            reveal(Seq::filter);
            assert(keys.take(0).filter(is_due) =~= Seq::<EndpointKey>::empty());
        }
        while index < count
            invariant
                self.wf(),
                self.endpoints.keys() == keys,
                self.endpoints@.dom() == states.dom(),
                states.dom() == Set::new(|k: EndpointKey| keys.contains(k)),
                keys.no_duplicates(),
                count == keys.len(),
                index <= count,
                is_due == (|k: EndpointKey| states[k].due(now)),
                attempts@.len() == keys.take(index as int).filter(is_due).len(),
                attempts@.len() <= index,
                self.next_generation == generation_after(first, attempts@.len() as int),
                forall|i: int|
                    0 <= i < attempts@.len() ==> {
                        let k = keys.take(index as int).filter(is_due)[i];
                        &&& (#[trigger] attempts@[i]).endpoint_id@ == k
                        &&& attempts@[i].generation == generation_after(first, i)
                        &&& attempts@[i].target == states[k].target
                        &&& self.endpoints@[k] == states[k].started(attempts@[i].generation)
                    },
                forall|k: EndpointKey|
                    states.contains_key(k) && !keys.take(index as int).filter(is_due).contains(k)
                        ==> #[trigger] self.endpoints@[k] == states[k],
            decreases count - index,
        {
            let ghost seen = keys.take(index as int);
            let ghost key = keys[index as int];
            proof {
                reveal(Seq::filter);
                assert(keys.take(index + 1).drop_last() =~= seen);
                assert(keys.take(index + 1).last() == key);
                assert(keys.contains(key));
                if seen.filter(is_due).contains(key) {
                    seen.lemma_filter_contains_rev(is_due, key);
                    let j = seen.index_of(key);
                    assert(keys[j] == key);
                }
                assert(self.endpoints@[key] == states[key]);
            }
            if self.endpoints.state_at(index).is_due(now) {
                let endpoint_id = self.endpoints.id_at(index).clone();
                let target = self.endpoints.state_at(index).target.clone();
                let generation: u64 = self.next_generation;
                let state = self.endpoints.state_at_mut(index);
                state.in_flight = true;
                state.next_attempt = None;
                state.generation = Some(generation);
                self.next_generation = self.next_generation.saturating_add(1);
                let ghost before = attempts@;
                attempts.push(ConnectAttempt { endpoint_id, generation, target });
                proof {
                    let chosen = seen.filter(is_due);
                    assert(keys.take(index + 1).filter(is_due) =~= chosen.push(key));
                    assert(self.endpoints@.dom() =~= states.dom());
                    assert forall|i: int| 0 <= i < attempts@.len() implies {
                        let k = chosen.push(key)[i];
                        &&& (#[trigger] attempts@[i]).endpoint_id@ == k
                        &&& attempts@[i].generation == generation_after(first, i)
                        &&& attempts@[i].target == states[k].target
                        &&& self.endpoints@[k] == states[k].started(attempts@[i].generation)
                    } by {
                        if i < before.len() {
                            assert(attempts@[i] == before[i]);
                            assert(chosen.contains(chosen[i]));
                        }
                    }
                    assert forall|k: EndpointKey|
                        states.contains_key(k) && !chosen.push(key).contains(
                            k,
                        ) implies #[trigger] self.endpoints@[k] == states[k] by {
                        assert(chosen.push(key)[chosen.len() as int] == key);
                        if chosen.contains(k) {
                            assert(chosen.push(key)[chosen.index_of(k)] == k);
                        }
                    }
                }
            } else {
                proof {
                    assert(keys.take(index + 1).filter(is_due) =~= seen.filter(is_due));
                }
            }
            index = index + 1;
        }
        proof {
            assert(keys.take(count as int) =~= keys);
            let due = keys.filter(is_due);
            let after = after_spawn(keys, states, now, first);
            lemma_filter_no_duplicates(keys, is_due);
            assert forall|k: EndpointKey| states.contains_key(k) implies #[trigger] after[k]
                == self.endpoints@[k] by {
                if due.contains(k) {
                    let i = due.index_of(k);
                    keys.lemma_filter_pred(is_due, i);
                    assert(attempts@[i].endpoint_id@ == k);
                } else if states[k].due(now) {
                    keys.lemma_filter_contains(is_due, keys.index_of(k));
                }
            }
            assert(self.endpoints@ =~= after);
        }
        attempts
    }

    /// Books what an attempt or connection reported. Only the endpoint's
    /// current generation is heard; the result says whether this was it.
    pub fn record_status(
        &mut self,
        endpoint_id: &ClientEndpointId,
        generation: u64,
        status: ClientEndpointStatus,
        now: Instant,
    ) -> (accepted: bool)
        requires
            old(self).wf(),
            retries(status) ==> now.reaches(millis(MAX_RETRY_DELAY_MS as int)),
        ensures
            final(self).wf(),
            final(self).endpoints.keys() == old(self).endpoints.keys(),
            final(self).next_generation == old(self).next_generation,
            accepted == is_current(old(self).endpoints@, endpoint_id@, generation),
            final(self).endpoints@ == after_report(
                old(self).endpoints@,
                endpoint_id@,
                generation,
                status,
                now,
            ),
    {
        let ghost before = self.endpoints@;
        let ghost key = endpoint_id@;
        match self.endpoints.get_mut(endpoint_id) {
            None => false,
            Some(state) => {
                let heard = match state.generation {
                    Some(current) => current == generation,
                    None => false,
                };
                if !heard {
                    assert(before.insert(key, before[key]) =~= before);
                    return false;
                }
                state.in_flight = false;
                match status {
                    ClientEndpointStatus::Online => {
                        state.attempts = 0;
                        state.next_attempt = None;
                        state.fast_reconnect = false;
                    },
                    ClientEndpointStatus::Attention | ClientEndpointStatus::Disabled => {
                        state.next_attempt = None;
                    },
                    ClientEndpointStatus::Connecting | ClientEndpointStatus::Reconnecting => {
                        state.attempts = state.attempts.saturating_add(1);
                        state.next_attempt = Some(now.plus(state.retry_delay()));
                    },
                }
                true
            },
        }
    }

    /// The local transport bridge of this connection reported that the
    /// connection it is closing can be re-dialed without SSH. Caps the backoff
    /// of the reconnect episode that follows; a connection that is no longer
    /// the current generation is ignored. The result says whether the hint was
    /// accepted.
    pub fn expect_fast_reconnect(
        &mut self,
        endpoint_id: &ClientEndpointId,
        generation: u64,
    ) -> (accepted: bool)
        requires
            old(self).wf(),
        ensures
            final(self).wf(),
            final(self).endpoints.keys() == old(self).endpoints.keys(),
            final(self).next_generation == old(self).next_generation,
            accepted == is_current(old(self).endpoints@, endpoint_id@, generation),
            final(self).endpoints@ == after_hint(
                old(self).endpoints@,
                endpoint_id@,
                generation,
            ),
    {
        let ghost before = self.endpoints@;
        let ghost key = endpoint_id@;
        match self.endpoints.get_mut(endpoint_id) {
            None => false,
            Some(state) => {
                let heard = match state.generation {
                    Some(current) => current == generation,
                    None => false,
                };
                if !heard {
                    assert(before.insert(key, before[key]) =~= before);
                    return false;
                }
                state.fast_reconnect = true;
                true
            },
        }
    }

    /// The connection of this generation ended: retry it after a pause.
    pub fn disconnected(
        &mut self,
        endpoint_id: &ClientEndpointId,
        generation: u64,
        now: Instant,
    ) -> (accepted: bool)
        requires
            old(self).wf(),
            now.reaches(millis(MAX_RETRY_DELAY_MS as int)),
        ensures
            final(self).wf(),
            final(self).endpoints.keys() == old(self).endpoints.keys(),
            final(self).next_generation == old(self).next_generation,
            accepted == is_current(old(self).endpoints@, endpoint_id@, generation),
            final(self).endpoints@ == after_report(
                old(self).endpoints@,
                endpoint_id@,
                generation,
                ClientEndpointStatus::Reconnecting,
                now,
            ),
    {
        self.record_status(endpoint_id, generation, ClientEndpointStatus::Reconnecting, now)
    }
}

} // verus!
