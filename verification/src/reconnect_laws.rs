//! What supervision does for its users, in terms of names, texts and times.
use crate::clock::Instant;
use crate::profile::{ClientEndpointStatus, ConnectTarget, EndpointKey, SavedSshEndpoint};
use crate::supervisor::{
    adopted, after_hint, after_reconcile, after_report, after_spawn, backoff, chosen, due_keys,
    generation_after, is_current, joined, lemma_backoff_ladder, lemma_filter_no_duplicates,
    paced_backoff, retired_keys,
};
use crate::supervisor_laws::lemma_chosen;
use crate::table::ReconnectState;
use std::path::PathBuf;
use vstd::prelude::*;

verus! {

/// Whether the catalog still has the machine where it was: an enabled profile of
/// its name, with the same target text and the same session text.
pub open spec fn still_there(
    profiles: Seq<SavedSshEndpoint>,
    previous: SavedSshEndpoint,
    i: int,
) -> bool {
    &&& 0 <= i < profiles.len()
    &&& profiles[i].enabled
    &&& profiles[i].id@ == previous.id@
    &&& profiles[i].target@ == previous.target@
    &&& profiles[i].session@ == previous.session@
}

proof fn lemma_retired(
    keys: Seq<EndpointKey>,
    states: Map<EndpointKey, ReconnectState>,
    profiles: Seq<SavedSshEndpoint>,
    key: EndpointKey,
    previous: SavedSshEndpoint,
)
    requires
        keys.contains(key),
        states[key].target == ConnectTarget::Ssh(previous),
    ensures
        retired_keys(keys, states, profiles).contains(key) <==> !exists|i: int|
            #[trigger] still_there(profiles, previous, i),
{
    let leaves = |k: EndpointKey| !crate::supervisor::kept(states[k], profiles);
    let retired = keys.filter(leaves);
    if retired.contains(key) {
        keys.lemma_filter_pred(leaves, retired.index_of(key));
        assert forall|i: int| !#[trigger] still_there(profiles, previous, i) by {
            if still_there(profiles, previous, i) {
                assert(crate::supervisor::same_machine(profiles[i], previous));
            }
        }
    } else {
        if leaves(key) {
            keys.lemma_filter_contains(leaves, keys.index_of(key));
        }
        let i = choose|i: int|
            0 <= i < profiles.len() && crate::supervisor::same_machine(
                #[trigger] profiles[i],
                previous,
            );
        assert(still_there(profiles, previous, i));
    }
}

/// A saved machine of which every enabled profile of that name has another target
/// text or another session text is retired. If there is such a profile the
/// endpoint starts over: nothing of its connection counts any more, and it is due
/// at once. If there is none it is gone.
pub proof fn law_moved_machine_starts_over(
    keys: Seq<EndpointKey>,
    states: Map<EndpointKey, ReconnectState>,
    profiles: Seq<SavedSshEndpoint>,
    now: Instant,
    key: EndpointKey,
    previous: SavedSshEndpoint,
)
    requires
        keys.contains(key),
        states.contains_key(key),
        states[key].target == ConnectTarget::Ssh(previous),
        key == EndpointKey::Ssh(previous.id@),
        forall|i: int|
            0 <= i < profiles.len() && (#[trigger] profiles[i]).enabled && profiles[i].id@
                == previous.id@ ==> profiles[i].target@ != previous.target@
                || profiles[i].session@ != previous.session@,
    ensures
        retired_keys(keys, states, profiles).contains(key),
        ({
            let after = after_reconcile(states, profiles, now);
            &&& after.contains_key(key) <==> exists|i: int|
                0 <= i < profiles.len() && (#[trigger] profiles[i]).enabled && profiles[i].id@
                    == previous.id@
            &&& after.contains_key(key) ==> {
                &&& after[key].generation is None
                &&& after[key].next_attempt == Some(now)
                &&& !after[key].in_flight
                &&& after[key].attempts == 0
                &&& !after[key].fast_reconnect
            }
        }),
{
    assert forall|i: int| !#[trigger] still_there(profiles, previous, i) by {
        if still_there(profiles, previous, i) {
            assert(profiles[i].enabled);
        }
    }
    lemma_retired(keys, states, profiles, key, previous);
    lemma_chosen(profiles, key);
    assert(!crate::supervisor::kept(states[key], profiles)) by {
        let leaves = |k: EndpointKey| !crate::supervisor::kept(states[k], profiles);
        let retired = keys.filter(leaves);
        keys.lemma_filter_pred(leaves, retired.index_of(key));
    }
    match chosen(profiles, key) {
        Some(profile) => {
            let i = profiles.index_of(profile);
            assert(profiles[i].enabled && profiles[i].id@ == previous.id@);
        },
        None => {},
    }
}

/// A saved machine that the catalog still has where it was, under whatever label,
/// is not retired, and keeps its connection, its failures, its hint and its
/// schedule.
pub proof fn law_unmoved_machine_is_undisturbed(
    keys: Seq<EndpointKey>,
    states: Map<EndpointKey, ReconnectState>,
    profiles: Seq<SavedSshEndpoint>,
    now: Instant,
    key: EndpointKey,
    previous: SavedSshEndpoint,
    i: int,
)
    requires
        states.contains_key(key),
        states[key].target == ConnectTarget::Ssh(previous),
        0 <= i < profiles.len(),
        profiles[i].enabled,
        profiles[i].id@ == previous.id@,
        profiles[i].target@ == previous.target@,
        profiles[i].session@ == previous.session@,
    ensures
        !retired_keys(keys, states, profiles).contains(key),
        ({
            let after = after_reconcile(states, profiles, now);
            &&& after.contains_key(key)
            &&& after[key].generation == states[key].generation
            &&& after[key].next_attempt == states[key].next_attempt
            &&& after[key].in_flight == states[key].in_flight
            &&& after[key].attempts == states[key].attempts
            &&& after[key].fast_reconnect == states[key].fast_reconnect
        }),
{
    assert(crate::supervisor::same_machine(profiles[i], previous));
    assert(crate::supervisor::kept(states[key], profiles));
    let leaves = |k: EndpointKey| !crate::supervisor::kept(states[k], profiles);
    let retired = keys.filter(leaves);
    if retired.contains(key) {
        keys.lemma_filter_pred(leaves, retired.index_of(key));
    }
}

/// Only endpoints that were supervised can be retired, each once, and the local
/// socket never is; it stays exactly as it was.
pub proof fn law_only_saved_machines_are_retired(
    keys: Seq<EndpointKey>,
    states: Map<EndpointKey, ReconnectState>,
    profiles: Seq<SavedSshEndpoint>,
    now: Instant,
    key: EndpointKey,
)
    requires
        keys.no_duplicates(),
    ensures
        retired_keys(keys, states, profiles).no_duplicates(),
        retired_keys(keys, states, profiles).contains(key) ==> keys.contains(key)
            && states[key].target is Ssh,
        states.contains_key(EndpointKey::Local) && states[EndpointKey::Local].target is Local
            ==> after_reconcile(states, profiles, now).contains_key(EndpointKey::Local)
            && after_reconcile(states, profiles, now)[EndpointKey::Local]
            == states[EndpointKey::Local],
{
    let leaves = |k: EndpointKey| !crate::supervisor::kept(states[k], profiles);
    let retired = keys.filter(leaves);
    lemma_filter_no_duplicates(keys, leaves);
    if retired.contains(key) {
        keys.lemma_filter_pred(leaves, retired.index_of(key));
        keys.lemma_filter_contains_rev(leaves, key);
    }
    lemma_chosen(profiles, EndpointKey::Local);
}

/// A machine that the catalog has enabled and that was not supervised joins,
/// with nothing behind it and due at once. Every enabled machine goes by the last
/// enabled profile of its name; no other machine is there.
pub proof fn law_catalog_is_followed(
    states: Map<EndpointKey, ReconnectState>,
    profiles: Seq<SavedSshEndpoint>,
    now: Instant,
    i: int,
)
    requires
        0 <= i < profiles.len(),
        profiles[i].enabled,
        forall|j: int|
            i < j < profiles.len() && (#[trigger] profiles[j]).enabled ==> profiles[j].id@
                != profiles[i].id@,
    ensures
        ({
            let key = EndpointKey::Ssh(profiles[i].id@);
            let after = after_reconcile(states, profiles, now);
            let fresh = adopted(Map::<EndpointKey, ReconnectState>::empty(), profiles, now);
            &&& after.contains_key(key)
            &&& after[key].target == ConnectTarget::Ssh(profiles[i])
            &&& !states.contains_key(key) ==> {
                &&& after[key].generation is None
                &&& after[key].next_attempt == Some(now)
                &&& !after[key].in_flight
                &&& after[key].attempts == 0
                &&& !after[key].fast_reconnect
            }
            &&& fresh.contains_key(key)
            &&& fresh[key].target == ConnectTarget::Ssh(profiles[i])
            &&& fresh[key].generation is None
            &&& fresh[key].next_attempt == Some(now)
            &&& !fresh[key].in_flight
            &&& fresh[key].attempts == 0
            &&& !fresh[key].fast_reconnect
        }),
{
    lemma_last_is_chosen(profiles, i);
}

proof fn lemma_last_is_chosen(profiles: Seq<SavedSshEndpoint>, i: int)
    requires
        0 <= i < profiles.len(),
        profiles[i].enabled,
        forall|j: int|
            i < j < profiles.len() && (#[trigger] profiles[j]).enabled ==> profiles[j].id@
                != profiles[i].id@,
    ensures
        chosen(profiles, EndpointKey::Ssh(profiles[i].id@)) == Some(profiles[i]),
    decreases profiles.len(),
{
    if i < profiles.len() - 1 {
        let rest = profiles.drop_last();
        assert(profiles.last() == profiles[profiles.len() - 1]);
        assert forall|j: int|
            i < j < rest.len() && (#[trigger] rest[j]).enabled implies rest[j].id@
            != rest[i].id@ by {
            assert(profiles[j].enabled);
        }
        lemma_last_is_chosen(rest, i);
    }
}

/// What a catalog without an enabled profile of this name leaves out.
pub proof fn law_absent_machines_are_left_out(
    profiles: Seq<SavedSshEndpoint>,
    now: Instant,
    name: Seq<char>,
)
    requires
        forall|i: int|
            0 <= i < profiles.len() && (#[trigger] profiles[i]).enabled ==> profiles[i].id@ != name,
    ensures
        !adopted(Map::<EndpointKey, ReconnectState>::empty(), profiles, now).contains_key(
            EndpointKey::Ssh(name),
        ),
        !adopted(Map::<EndpointKey, ReconnectState>::empty(), profiles, now).contains_key(
            EndpointKey::Local,
        ),
{
    lemma_chosen(profiles, EndpointKey::Ssh(name));
    lemma_chosen(profiles, EndpointKey::Local);
}

/// An attempt is due exactly if none is under way and its time has come.
pub proof fn law_due_means_its_time_has_come(state: ReconnectState, now: Instant)
    ensures
        state.due(now) <==> !state.in_flight && state.next_attempt is Some
            && state.next_attempt->0.nanos <= now.nanos,
{
}

/// Starting what is due touches nothing else. Of an endpoint that is due it
/// changes what is under way, what is planned and the generation, and nothing
/// more: its failures, its hint and its target stay. Every attempt that is started
/// has a generation of its own, none below the next one, as long as the count has
/// not run out.
pub proof fn law_starting_changes_only_the_schedule(
    keys: Seq<EndpointKey>,
    states: Map<EndpointKey, ReconnectState>,
    now: Instant,
    first: u64,
    key: EndpointKey,
    other: EndpointKey,
)
    requires
        keys.no_duplicates(),
        forall|k: EndpointKey| keys.contains(k) <==> #[trigger] states.contains_key(k),
        states.contains_key(key),
        states.contains_key(other),
        first + keys.len() <= u64::MAX,
    ensures
        ({
            let after = after_spawn(keys, states, now, first);
            let due = !states[key].in_flight && states[key].next_attempt is Some
                && states[key].next_attempt->0.nanos <= now.nanos;
            let other_due = !states[other].in_flight && states[other].next_attempt is Some
                && states[other].next_attempt->0.nanos <= now.nanos;
            &&& after.dom() == states.dom()
            &&& after[key].attempts == states[key].attempts
            &&& after[key].fast_reconnect == states[key].fast_reconnect
            &&& after[key].target == states[key].target
            &&& !due ==> after[key] == states[key]
            &&& due ==> {
                &&& after[key].in_flight
                &&& after[key].next_attempt is None
                &&& after[key].generation matches Some(generation) && first <= generation < first
                    + due_keys(keys, states, now).len()
            }
            &&& due && other_due && key != other ==> after[key].generation
                != after[other].generation
            &&& due_keys(keys, states, now).contains(key) == due
            &&& due_keys(keys, states, now).no_duplicates()
        }),
{
    let after = after_spawn(keys, states, now, first);
    let pred = |k: EndpointKey| states[k].due(now);
    let due = due_keys(keys, states, now);
    assert(after.dom() =~= states.dom());
    lemma_filter_no_duplicates(keys, pred);
    assert(keys.contains(key));
    assert(keys.contains(other));
    if states[key].due(now) {
        keys.lemma_filter_contains(pred, keys.index_of(key));
        assert(due.contains(key));
    }
    if states[other].due(now) {
        keys.lemma_filter_contains(pred, keys.index_of(other));
        assert(due.contains(other));
    }
    if due.contains(key) {
        keys.lemma_filter_pred(pred, due.index_of(key));
    }
    lemma_filter_is_no_longer(keys, pred);
}

proof fn lemma_filter_is_no_longer(keys: Seq<EndpointKey>, pred: spec_fn(EndpointKey) -> bool)
    ensures
        keys.filter(pred).len() <= keys.len(),
    decreases keys.len(),
{
    reveal(Seq::filter);
    if keys.len() > 0 {
        lemma_filter_is_no_longer(keys.drop_last(), pred);
    }
}

/// The counter of generations moves by as many attempts as are started.
pub proof fn law_counter_moves_past_the_attempts(first: u64, count: int)
    requires
        0 <= count,
        first + count <= u64::MAX,
    ensures
        generation_after(first, count) == first + count,
{
}

/// A report or hint is heard exactly if it carries the generation that the
/// endpoint has now; else nothing changes.
pub proof fn law_only_the_current_generation_is_heard(
    states: Map<EndpointKey, ReconnectState>,
    key: EndpointKey,
    generation: u64,
    status: ClientEndpointStatus,
    now: Instant,
)
    ensures
        is_current(states, key, generation) <==> states.contains_key(key) && states[key].generation
            == Some(generation),
        !(states.contains_key(key) && states[key].generation == Some(generation)) ==> after_report(
            states,
            key,
            generation,
            status,
            now,
        ) == states && after_hint(states, key, generation) == states,
{
}

/// A hint that is heard changes one thing: the pace of the endpoint it is about.
pub proof fn law_hint_changes_only_the_pace(
    states: Map<EndpointKey, ReconnectState>,
    key: EndpointKey,
    generation: u64,
    other: EndpointKey,
)
    requires
        states.contains_key(key),
        states[key].generation == Some(generation),
        other != key,
    ensures
        ({
            let after = after_hint(states, key, generation);
            &&& after.dom() == states.dom()
            &&& after[key].fast_reconnect
            &&& after[key].attempts == states[key].attempts
            &&& after[key].next_attempt == states[key].next_attempt
            &&& after[key].in_flight == states[key].in_flight
            &&& after[key].generation == states[key].generation
            &&& after[key].target == states[key].target
            &&& states.contains_key(other) ==> after[other] == states[other]
        }),
{
    assert(after_hint(states, key, generation).dom() =~= states.dom());
}

/// The pause after the `n`-th failure in a row, in nanoseconds: half a second,
/// doubled with each failure, and thirty seconds from the seventh on; with a hint
/// never more than four seconds.
pub open spec fn pause(n: int, hinted: bool) -> int {
    let full: int = if n <= 1 {
        500_000_000
    } else if n == 2 {
        1_000_000_000
    } else if n == 3 {
        2_000_000_000
    } else if n == 4 {
        4_000_000_000
    } else if n == 5 {
        8_000_000_000
    } else if n == 6 {
        16_000_000_000
    } else {
        30_000_000_000
    };
    if hinted && full > 4_000_000_000 {
        4_000_000_000
    } else {
        full
    }
}

/// The ladder of pauses, hinted at or not.
pub proof fn law_pauses(n: int, hinted: bool)
    ensures
        backoff(n) == pause(n, false),
        paced_backoff(n, hinted) == pause(n, hinted),
{
    lemma_backoff_ladder(n);
}

/// What a report that is heard does to its endpoint. Being online forgets the
/// failures, the plan and the hint. The need for the user, or being disabled,
/// drops the plan alone. Any other report is one more failure, and the next
/// attempt is due after the pause of that many. Nothing else of the endpoint and
/// no other endpoint changes.
pub proof fn law_reports_set_the_plan(
    states: Map<EndpointKey, ReconnectState>,
    key: EndpointKey,
    generation: u64,
    status: ClientEndpointStatus,
    now: Instant,
    other: EndpointKey,
)
    requires
        states.contains_key(key),
        states[key].generation == Some(generation),
        now.nanos + 30_000_000_000 <= u128::MAX,
        other != key,
    ensures
        ({
            let before = states[key];
            let map = after_report(states, key, generation, status, now);
            let after = map[key];
            &&& map.dom() == states.dom()
            &&& states.contains_key(other) ==> map[other] == states[other]
            &&& after.target == before.target
            &&& after.generation == before.generation
            &&& !after.in_flight
            &&& match status {
                ClientEndpointStatus::Online => {
                    &&& after.attempts == 0
                    &&& after.next_attempt is None
                    &&& !after.fast_reconnect
                },
                ClientEndpointStatus::Attention | ClientEndpointStatus::Disabled => {
                    &&& after.attempts == before.attempts
                    &&& after.next_attempt is None
                    &&& after.fast_reconnect == before.fast_reconnect
                },
                _ => {
                    &&& after.attempts == if before.attempts < u32::MAX {
                        before.attempts + 1
                    } else {
                        before.attempts as int
                    }
                    &&& after.fast_reconnect == before.fast_reconnect
                    &&& after.next_attempt matches Some(at) && at.nanos == now.nanos + pause(
                        before.attempts + 1,
                        before.fast_reconnect,
                    )
                },
            }
        }),
{
    lemma_backoff_ladder(states[key].attempts_after_failure() as int);
    assert(after_report(states, key, generation, status, now).dom() =~= states.dom());
}

/// The local endpoint joins at its path, with nothing behind it: connected
/// already, and then with nothing planned, or due at once.
pub proof fn law_local_joins(path: PathBuf, generation: Option<u64>, now: Instant)
    ensures
        ({
            let state = joined(path, generation, now);
            &&& state.target == ConnectTarget::Local(path)
            &&& state.generation == generation
            &&& generation is Some ==> state.next_attempt is None
            &&& generation is None ==> state.next_attempt == Some(now)
            &&& state.attempts == 0
            &&& !state.in_flight
            &&& !state.fast_reconnect
        }),
{
}

/// One thing that happens to the supervised endpoints.
pub enum SupervisionStep {
    /// What is due is started.
    Start { keys: Seq<EndpointKey>, now: Instant, first: u64 },
    Report { key: EndpointKey, generation: u64, status: ClientEndpointStatus, now: Instant },
    Hint { key: EndpointKey, generation: u64 },
}

impl SupervisionStep {
    pub open spec fn applied(self, states: Map<EndpointKey, ReconnectState>) -> Map<
        EndpointKey,
        ReconnectState,
    > {
        match self {
            SupervisionStep::Start { keys, now, first } => after_spawn(keys, states, now, first),
            SupervisionStep::Report { key, generation, status, now } => after_report(
                states,
                key,
                generation,
                status,
                now,
            ),
            SupervisionStep::Hint { key, generation } => after_hint(states, key, generation),
        }
    }

    /// Whether this is a report that the endpoint is online.
    pub open spec fn is_online(self, of: EndpointKey) -> bool {
        self matches SupervisionStep::Report { key, status, .. } && key == of && status
            == ClientEndpointStatus::Online
    }
}

/// The endpoints after the steps, one after another.
pub open spec fn after_steps(
    states: Map<EndpointKey, ReconnectState>,
    steps: Seq<SupervisionStep>,
) -> Map<EndpointKey, ReconnectState>
    decreases steps.len(),
{
    if steps.len() == 0 {
        states
    } else {
        steps.last().applied(after_steps(states, steps.drop_last()))
    }
}

/// An endpoint that was hinted at stays so through any run of started attempts,
/// reports and hints that does not report it online; and every failure reported
/// behind such a run is followed by a pause of at most four seconds.
pub proof fn law_hinted_pauses_stay_short(
    states: Map<EndpointKey, ReconnectState>,
    steps: Seq<SupervisionStep>,
    key: EndpointKey,
    generation: u64,
    status: ClientEndpointStatus,
    now: Instant,
)
    requires
        states.contains_key(key),
        states[key].fast_reconnect,
        forall|i: int| 0 <= i < steps.len() ==> !(#[trigger] steps[i]).is_online(key),
    ensures
        after_steps(states, steps).contains_key(key),
        after_steps(states, steps)[key].fast_reconnect,
        after_steps(states, steps)[key].target == states[key].target,
        ({
            let before = after_steps(states, steps);
            let failed = status == ClientEndpointStatus::Reconnecting || status
                == ClientEndpointStatus::Connecting;
            failed && before[key].generation == Some(generation) && now.nanos + 30_000_000_000
                <= u128::MAX ==> {
                let after = after_report(before, key, generation, status, now);
                after[key].next_attempt matches Some(at) && now.nanos < at.nanos <= now.nanos
                    + 4_000_000_000
            }
        }),
    decreases steps.len(),
{
    if steps.len() > 0 {
        assert forall|i: int| 0 <= i < steps.drop_last().len() implies !(
        #[trigger] steps.drop_last()[i]).is_online(key) by {
            assert(!steps[i].is_online(key));
        }
        law_hinted_pauses_stay_short(states, steps.drop_last(), key, generation, status, now);
        assert(!steps[steps.len() - 1].is_online(key));
    }
    let before = after_steps(states, steps);
    lemma_backoff_ladder(before[key].attempts_after_failure() as int);
}

/// Without a hint the full ladder stands: the pause of an endpoint that was not
/// hinted at is exactly that of its number of failures, through any run of started
/// attempts and reports.
pub proof fn law_no_hint_no_short_pauses(
    states: Map<EndpointKey, ReconnectState>,
    steps: Seq<SupervisionStep>,
    key: EndpointKey,
)
    requires
        states.contains_key(key),
        !states[key].fast_reconnect,
        forall|i: int| 0 <= i < steps.len() ==> !((#[trigger] steps[i]) is Hint),
    ensures
        after_steps(states, steps).contains_key(key),
        !after_steps(states, steps)[key].fast_reconnect,
    decreases steps.len(),
{
    if steps.len() > 0 {
        assert forall|i: int| 0 <= i < steps.drop_last().len() implies !((
        #[trigger] steps.drop_last()[i]) is Hint) by {
            assert(!(steps[i] is Hint));
        }
        law_no_hint_no_short_pauses(states, steps.drop_last(), key);
        assert(!(steps[steps.len() - 1] is Hint));
    }
}

} // verus!
