//! What holds of the supervised endpoints over any run of operations.
use crate::clock::{millis, Instant};
use crate::profile::{ClientEndpointStatus, ConnectTarget, EndpointKey, SavedSshEndpoint};
use crate::supervisor::{
    adopted, after_hint, after_reconcile, after_report, after_spawn, backoff, chosen, due_keys,
    generation_after, is_current, joined, kept, lemma_backoff_ladder, paced_backoff,
    profile_key, retired_keys, same_machine,
    FAST_RECONNECT_MAX_DELAY_MS, INITIAL_RETRY_DELAY_MS, MAX_RETRY_DELAY_MS,
};
use crate::table::ReconnectState;
use std::path::PathBuf;
use vstd::prelude::*;

verus! {

/// The pause never falls below the initial one nor rises above the cap, and one
/// more failure never shortens it.
pub proof fn law_backoff_is_bounded_and_monotone(fewer: int, more: int)
    requires
        fewer <= more,
    ensures
        millis(INITIAL_RETRY_DELAY_MS as int) <= backoff(fewer) <= backoff(more),
        backoff(more) <= millis(MAX_RETRY_DELAY_MS as int),
{
    lemma_backoff_ladder(fewer);
    lemma_backoff_ladder(more);
}

/// Until the cap is in sight each failure doubles the pause.
pub proof fn law_backoff_doubles(attempt: int)
    requires
        1 <= attempt < 6,
    ensures
        backoff(attempt + 1) == 2 * backoff(attempt),
{
    lemma_backoff_ladder(attempt);
    lemma_backoff_ladder(attempt + 1);
}

/// The hint only ever shortens the pause: to its cap where the ladder is above
/// it, not at all below. Without it the full ladder stands.
pub proof fn law_hint_caps_the_backoff(attempt: int)
    ensures
        paced_backoff(attempt, true) <= millis(FAST_RECONNECT_MAX_DELAY_MS as int),
        paced_backoff(attempt, true) <= paced_backoff(attempt, false),
        attempt <= 4 ==> paced_backoff(attempt, true) == backoff(attempt),
        attempt >= 4 ==> paced_backoff(attempt, true) == millis(
            FAST_RECONNECT_MAX_DELAY_MS as int,
        ),
        paced_backoff(attempt, false) == backoff(attempt),
{
    lemma_backoff_ladder(attempt);
}

/// An endpoint after failing at each of `times` in turn.
pub open spec fn after_failures(state: ReconnectState, times: Seq<Instant>) -> ReconnectState
    decreases times.len(),
{
    if times.len() == 0 {
        state
    } else {
        after_failures(state, times.drop_last()).reported(
            ClientEndpointStatus::Reconnecting,
            times.last(),
        )
    }
}

/// After any number of failures in a row the next attempt waits the pause of
/// that many failures, counted from the last one, and the hint is still in
/// force if it was given.
pub proof fn law_failures_climb_the_ladder(state: ReconnectState, times: Seq<Instant>)
    requires
        times.len() > 0,
        state.attempts + times.len() <= u32::MAX,
        times.last().reaches(millis(MAX_RETRY_DELAY_MS as int)),
    ensures
        ({
            let after = after_failures(state, times);
            let attempts = state.attempts + times.len();
            &&& after.attempts == attempts
            &&& after.fast_reconnect == state.fast_reconnect
            &&& after.generation == state.generation
            &&& after.target == state.target
            &&& !after.in_flight
            &&& after.next_attempt matches Some(deadline)
            &&& deadline.nanos == times.last().nanos + paced_backoff(
                attempts as int,
                state.fast_reconnect,
            )
        }),
{
    lemma_failures_counted(state, times.drop_last());
    lemma_backoff_ladder(state.attempts + times.len());
}

proof fn lemma_failures_counted(state: ReconnectState, times: Seq<Instant>)
    requires
        state.attempts + times.len() <= u32::MAX,
    ensures
        after_failures(state, times).attempts == state.attempts + times.len(),
        after_failures(state, times).fast_reconnect == state.fast_reconnect,
        after_failures(state, times).generation == state.generation,
        after_failures(state, times).target == state.target,
    decreases times.len(),
{
    if times.len() > 0 {
        lemma_failures_counted(state, times.drop_last());
    }
}

/// Coming online forgets the failures and uses up the hint: nothing is due
/// until the connection ends, and then the wait is the initial one.
pub proof fn law_online_starts_over(state: ReconnectState, online: Instant, lost: Instant)
    requires
        lost.reaches(millis(MAX_RETRY_DELAY_MS as int)),
    ensures
        ({
            let live = state.reported(ClientEndpointStatus::Online, online);
            let after = live.reported(ClientEndpointStatus::Reconnecting, lost);
            &&& live.attempts == 0
            &&& !live.fast_reconnect
            &&& forall|now: Instant| !live.due(now)
            &&& after.next_attempt matches Some(deadline)
            &&& deadline.nanos == lost.nanos + millis(INITIAL_RETRY_DELAY_MS as int)
            &&& !after.fast_reconnect
        }),
{
    lemma_backoff_ladder(1);
}

/// A connection that ends after its bridge gave the hint is dialed again within
/// the short cap, however many attempts had failed before.
pub proof fn law_hinted_loss_is_redialed_soon(
    states: Map<EndpointKey, ReconnectState>,
    key: EndpointKey,
    generation: u64,
    now: Instant,
)
    requires
        is_current(states, key, generation),
        now.reaches(millis(MAX_RETRY_DELAY_MS as int)),
    ensures
        ({
            let hinted = after_hint(states, key, generation);
            let lost = after_report(
                hinted,
                key,
                generation,
                ClientEndpointStatus::Reconnecting,
                now,
            );
            lost[key].next_attempt matches Some(at) && now.nanos < at.nanos <= now.nanos + millis(
                FAST_RECONNECT_MAX_DELAY_MS as int,
            ) && lost[key].due(at)
        }),
{
    lemma_backoff_ladder(states[key].attempts_after_failure() as int);
}

/// The hint survives every report but that of being online.
pub proof fn law_hint_lasts_until_online(
    state: ReconnectState,
    status: ClientEndpointStatus,
    now: Instant,
)
    ensures
        state.reported(status, now).fast_reconnect == (state.fast_reconnect && status
            != ClientEndpointStatus::Online),
{
}

/// An endpoint that needs the user, or is disabled, is never due again by
/// waiting.
pub proof fn law_attention_stops_retries(
    state: ReconnectState,
    status: ClientEndpointStatus,
    reported: Instant,
    now: Instant,
)
    requires
        status == ClientEndpointStatus::Attention || status == ClientEndpointStatus::Disabled,
    ensures
        !state.reported(status, reported).due(now),
{
}

/// Reports and hints of any but the current generation change nothing.
pub proof fn law_stale_generations_change_nothing(
    states: Map<EndpointKey, ReconnectState>,
    key: EndpointKey,
    generation: u64,
    status: ClientEndpointStatus,
    now: Instant,
)
    requires
        !is_current(states, key, generation),
    ensures
        after_report(states, key, generation, status, now) == states,
        after_hint(states, key, generation) == states,
{
}

/// A report or hint about one endpoint leaves every other as it was.
pub proof fn law_reports_touch_one_endpoint(
    states: Map<EndpointKey, ReconnectState>,
    key: EndpointKey,
    generation: u64,
    status: ClientEndpointStatus,
    now: Instant,
    other: EndpointKey,
)
    requires
        other != key,
    ensures
        after_report(states, key, generation, status, now).contains_key(other)
            == states.contains_key(other),
        after_report(states, key, generation, status, now)[other] == states[other],
        after_hint(states, key, generation).contains_key(other) == states.contains_key(other),
        after_hint(states, key, generation)[other] == states[other],
{
}

/// An endpoint with an attempt under way is not started again, however late it
/// gets: starting what is due twice in a row starts nothing the second time.
pub proof fn law_started_once(
    keys: Seq<EndpointKey>,
    states: Map<EndpointKey, ReconnectState>,
    now: Instant,
    first: u64,
    later: Instant,
)
    requires
        forall|k: EndpointKey| keys.contains(k) <==> #[trigger] states.contains_key(k),
    ensures
        forall|k: EndpointKey|
            states.contains_key(k) && states[k].due(now) ==> !(#[trigger] after_spawn(
                keys,
                states,
                now,
                first,
            )[k]).due(later),
        due_keys(keys, after_spawn(keys, states, now, first), now).len() == 0,
{
    let after = after_spawn(keys, states, now, first);
    let again = |k: EndpointKey| after[k].due(now);
    if keys.filter(again).len() > 0 {
        keys.lemma_filter_pred(again, 0);
        let k = keys.filter(again)[0];
        assert(keys.filter(again).contains(k));
        keys.lemma_filter_contains_rev(again, k);
        assert(states.contains_key(k));
    }
}

/// Every generation given out so far lies below `next`.
pub open spec fn fenced(states: Map<EndpointKey, ReconnectState>, next: u64) -> bool {
    forall|k: EndpointKey|
        #[trigger] states.contains_key(k) ==> match states[k].generation {
            Some(generation) => generation < next,
            None => true,
        }
}

/// Newly supervised machines have no generation.
pub proof fn law_new_is_fenced(profiles: Seq<SavedSshEndpoint>, now: Instant, next: u64)
    ensures
        fenced(adopted(Map::<EndpointKey, ReconnectState>::empty(), profiles, now), next),
{
}

/// No operation breaks the fence: reports, hints and changes of the saved
/// machines hand out no generation, and starting attempts moves the fence past
/// those it hands out, as long as the count has not run out.
pub proof fn law_fence_is_kept(
    keys: Seq<EndpointKey>,
    states: Map<EndpointKey, ReconnectState>,
    next: u64,
    key: EndpointKey,
    generation: u64,
    status: ClientEndpointStatus,
    profiles: Seq<SavedSshEndpoint>,
    now: Instant,
)
    requires
        fenced(states, next),
        keys.no_duplicates(),
        forall|k: EndpointKey| keys.contains(k) <==> #[trigger] states.contains_key(k),
    ensures
        fenced(after_report(states, key, generation, status, now), next),
        fenced(after_hint(states, key, generation), next),
        fenced(after_reconcile(states, profiles, now), next),
        next + due_keys(keys, states, now).len() <= u64::MAX ==> fenced(
            after_spawn(keys, states, now, next),
            generation_after(next, due_keys(keys, states, now).len() as int),
        ),
{
    let due = due_keys(keys, states, now);
    if next + due.len() <= u64::MAX {
        let pred = |k: EndpointKey| states[k].due(now);
        let after = after_spawn(keys, states, now, next);
        assert forall|k: EndpointKey| #[trigger] after.contains_key(k) implies match after[k].generation {
            Some(g) => g < generation_after(next, due.len() as int),
            None => true,
        } by {
            assert(states.contains_key(k));
            if states[k].due(now) {
                assert(keys.contains(k));
                keys.lemma_filter_contains(pred, keys.index_of(k));
                assert(due.contains(k));
                let i = due.index_of(k);
                assert(0 <= i < due.len());
            }
        }
    }
}

/// Joining the local endpoint keeps the fence where its connection was given
/// out below it.
pub proof fn law_joining_keeps_the_fence(
    states: Map<EndpointKey, ReconnectState>,
    next: u64,
    path: PathBuf,
    generation: Option<u64>,
    now: Instant,
)
    requires
        fenced(states, next),
        generation matches Some(g) ==> g < next,
    ensures
        fenced(states.insert(EndpointKey::Local, joined(path, generation, now)), next),
{
}

/// The attempts started together, and all started before, have distinct
/// generations.
pub proof fn law_generations_are_fresh(
    keys: Seq<EndpointKey>,
    states: Map<EndpointKey, ReconnectState>,
    now: Instant,
    first: u64,
    i: int,
    j: int,
    earlier: EndpointKey,
)
    requires
        fenced(states, first),
        first + due_keys(keys, states, now).len() <= u64::MAX,
        0 <= i < j < due_keys(keys, states, now).len(),
        states.contains_key(earlier),
    ensures
        generation_after(first, i) != generation_after(first, j),
        states[earlier].generation != Some(generation_after(first, i)),
        states[earlier].generation != Some(generation_after(first, j)),
{
}

/// Nothing given out before `floor` can be heard as the endpoint's.
pub open spec fn muted(
    states: Map<EndpointKey, ReconnectState>,
    key: EndpointKey,
    floor: u64,
) -> bool {
    states.contains_key(key) ==> match states[key].generation {
        Some(generation) => floor <= generation,
        None => true,
    }
}

/// Retiring an endpoint mutes every connection it ever had, whether or not the
/// same change adds the endpoint anew.
pub proof fn law_retiring_mutes(
    states: Map<EndpointKey, ReconnectState>,
    key: EndpointKey,
    profiles: Seq<SavedSshEndpoint>,
    now: Instant,
    next: u64,
)
    requires
        states.contains_key(key),
        !kept(states[key], profiles),
    ensures
        muted(after_reconcile(states, profiles, now), key, next),
{
}

/// What is muted is not heard, and stays muted: through reports and hints of
/// any endpoint, through changes of the saved machines that remove the endpoint
/// or bring it back, and through new attempts.
pub proof fn law_muted_connections_stay_silent(
    keys: Seq<EndpointKey>,
    states: Map<EndpointKey, ReconnectState>,
    key: EndpointKey,
    floor: u64,
    stale: u64,
    reporter: EndpointKey,
    generation: u64,
    status: ClientEndpointStatus,
    profiles: Seq<SavedSshEndpoint>,
    now: Instant,
    next: u64,
)
    requires
        muted(states, key, floor),
        stale < floor <= next,
        forall|k: EndpointKey| keys.contains(k) <==> #[trigger] states.contains_key(k),
    ensures
        !is_current(states, key, stale),
        muted(after_report(states, reporter, generation, status, now), key, floor),
        muted(after_hint(states, reporter, generation), key, floor),
        muted(after_reconcile(states, profiles, now), key, floor),
        muted(after_spawn(keys, states, now, next), key, floor),
{
    let due = due_keys(keys, states, now);
    if states.contains_key(key) && states[key].due(now) {
        let pred = |k: EndpointKey| states[k].due(now);
        assert(keys.contains(key));
        keys.lemma_filter_contains(pred, keys.index_of(key));
        assert(due.contains(key));
        assert(due.index_of(key) >= 0);
    }
}

/// Every endpoint dials what its name says: the local one the local socket, a
/// saved machine the profile of that name.
pub open spec fn filed(states: Map<EndpointKey, ReconnectState>) -> bool {
    forall|k: EndpointKey|
        #[trigger] states.contains_key(k) ==> match states[k].target {
            ConnectTarget::Local(_) => k == EndpointKey::Local,
            ConnectTarget::Ssh(profile) => k == profile_key(profile),
        }
}

/// The chosen profile is one of the list, enabled and of that name, and there is
/// one exactly if the list has such a profile.
pub proof fn lemma_chosen(profiles: Seq<SavedSshEndpoint>, key: EndpointKey)
    ensures
        match chosen(profiles, key) {
            Some(profile) => {
                &&& profiles.contains(profile)
                &&& profile.enabled
                &&& profile_key(profile) == key
            },
            None => forall|i: int|
                0 <= i < profiles.len() && (#[trigger] profiles[i]).enabled ==> profile_key(
                    profiles[i],
                ) != key,
        },
    decreases profiles.len(),
{
    if profiles.len() > 0 {
        let rest = profiles.drop_last();
        lemma_chosen(rest, key);
        match chosen(profiles, key) {
            Some(profile) => {
                if profile == profiles.last() {
                    assert(profiles[profiles.len() - 1] == profile);
                } else {
                    let i = rest.index_of(profile);
                    assert(profiles[i] == profile);
                }
            },
            None => {
                assert forall|i: int|
                    0 <= i < profiles.len() && (#[trigger] profiles[i]).enabled implies profile_key(
                    profiles[i],
                ) != key by {
                    if i < rest.len() {
                        assert(rest[i] == profiles[i]);
                    }
                }
            },
        }
    }
}

/// No operation misfiles an endpoint.
pub proof fn law_filing_is_kept(
    keys: Seq<EndpointKey>,
    states: Map<EndpointKey, ReconnectState>,
    next: u64,
    key: EndpointKey,
    generation: u64,
    status: ClientEndpointStatus,
    profiles: Seq<SavedSshEndpoint>,
    path: PathBuf,
    connected: Option<u64>,
    now: Instant,
)
    requires
        filed(states),
    ensures
        filed(Map::<EndpointKey, ReconnectState>::empty()),
        filed(adopted(states, profiles, now)),
        filed(after_reconcile(states, profiles, now)),
        filed(after_report(states, key, generation, status, now)),
        filed(after_hint(states, key, generation)),
        filed(after_spawn(keys, states, now, next)),
        filed(states.insert(EndpointKey::Local, joined(path, connected, now))),
{
    assert forall|k: EndpointKey| true implies match #[trigger] chosen(profiles, k) {
        Some(profile) => profile_key(profile) == k,
        None => true,
    } by {
        lemma_chosen(profiles, k);
    }
}

/// After a change the saved machines under supervision are exactly the enabled
/// profiles, and the local endpoint is there if it was, untouched.
pub proof fn law_reconcile_follows_the_catalog(
    states: Map<EndpointKey, ReconnectState>,
    profiles: Seq<SavedSshEndpoint>,
    now: Instant,
    key: EndpointKey,
)
    requires
        filed(states),
    ensures
        ({
            let after = after_reconcile(states, profiles, now);
            &&& key is Ssh ==> (after.contains_key(key) <==> exists|i: int|
                0 <= i < profiles.len() && (#[trigger] profiles[i]).enabled && profile_key(
                    profiles[i],
                ) == key)
            &&& key is Local ==> after.contains_key(key) == states.contains_key(key)
            &&& key is Local && states.contains_key(key) ==> after[key] == states[key]
        }),
{
    lemma_chosen(profiles, key);
    if key is Ssh {
        match chosen(profiles, key) {
            Some(profile) => {
                let i = profiles.index_of(profile);
                assert(profiles[i].enabled && profile_key(profiles[i]) == key);
            },
            None => {},
        }
    } else {
        match chosen(profiles, key) {
            Some(profile) => {
                assert(profile_key(profile) is Ssh);
            },
            None => {},
        }
    }
}

/// A machine whose profile still leads to the same session on the same
/// destination keeps its connection, its failures and its schedule, and is not
/// retired; only the profile it goes by may differ.
pub proof fn law_renaming_disturbs_nothing(
    keys: Seq<EndpointKey>,
    states: Map<EndpointKey, ReconnectState>,
    profiles: Seq<SavedSshEndpoint>,
    now: Instant,
    key: EndpointKey,
    previous: SavedSshEndpoint,
    i: int,
)
    requires
        states.contains_key(key),
        states[key].target == ConnectTarget::Ssh(previous),
        0 <= i < profiles.len(),
        same_machine(profiles[i], previous),
    ensures
        ({
            let after = after_reconcile(states, profiles, now);
            &&& after.contains_key(key)
            &&& after[key] == ReconnectState { target: after[key].target, ..states[key] }
            &&& !retired_keys(keys, states, profiles).contains(key)
        }),
{
    assert(kept(states[key], profiles));
    let leaves = |k: EndpointKey| !kept(states[k], profiles);
    let retired = keys.filter(leaves);
    if retired.contains(key) {
        keys.lemma_filter_pred(leaves, retired.index_of(key));
    }
}

/// Following the same saved machines twice changes nothing the second time and
/// retires nobody.
pub proof fn law_reconcile_settles(
    keys: Seq<EndpointKey>,
    states: Map<EndpointKey, ReconnectState>,
    profiles: Seq<SavedSshEndpoint>,
    first: Instant,
    second: Instant,
)
    requires
        filed(states),
        forall|k: EndpointKey|
            keys.contains(k) <==> #[trigger] after_reconcile(states, profiles, first).contains_key(
                k,
            ),
    ensures
        ({
            let after = after_reconcile(states, profiles, first);
            &&& after_reconcile(after, profiles, second) == after
            &&& retired_keys(keys, after, profiles).len() == 0
        }),
{
    let after = after_reconcile(states, profiles, first);
    assert forall|k: EndpointKey| #[trigger] after.contains_key(k) implies kept(
        after[k],
        profiles,
    ) by {
        lemma_chosen(profiles, k);
        match chosen(profiles, k) {
            Some(profile) => {
                let i = profiles.index_of(profile);
                assert(same_machine(profiles[i], profile));
            },
            None => {
                assert(states.contains_key(k) && kept(states[k], profiles));
            },
        }
    }
    let leaves = |k: EndpointKey| !kept(after[k], profiles);
    let retired = keys.filter(leaves);
    if retired.len() > 0 {
        keys.lemma_filter_pred(leaves, 0);
        assert(retired.contains(retired[0]));
        keys.lemma_filter_contains_rev(leaves, retired[0]);
        assert(after.contains_key(retired[0]));
    }
    assert(after_reconcile(after, profiles, second) =~= after);
}

} // verus!
