//! What holds of the caches under the writes of runs.
//!
//! The caches are modelled by their contents. A run is followed through
//! the answers that its driver gives; the writes that went through are
//! what the run has done to the caches.

use crate::cache::aggregate_slot;
use crate::cache::brokers_slot;
use crate::cache::group_slot;
use crate::cache::put;
use crate::cache::put_all;
use crate::cache::topic_slot;
use crate::cache::CacheContents;
use crate::cache::CacheSlot;
use crate::cache::CacheValueView;
use crate::cache::CacheWriteView;
use crate::error::ErrorView;
use crate::error::Phase;
use crate::model::GroupView;
use crate::normalize::described_all;
use crate::normalize::lemma_normalized_partitions_described;
use crate::normalize::lemma_normalized_topics_described;
use crate::normalize::lemma_normalized_topics_sorted;
use crate::normalize::normalized_metadata;
use crate::normalize::normalized_topics;
use crate::upstream::RawTopicView;
use crate::partition_order::lemma_sorted_partitions;
use crate::run::decomposed_writes;
use crate::run::first_step;
use crate::run::group_writes;
use crate::run::next_step;
use crate::run::proceed;
use crate::run::topic_writes;
use crate::run::RequestView;
use crate::run::ResponseView;
use crate::run::RunStateView;
use crate::run::StepView;
use crate::timestamp::Timestamp;
use crate::upstream::RawTopologyView;
use vstd::prelude::*;

verus! {

/// The value of the last write of `writes` that goes to `slot`, if one does.
pub open spec fn last_write(writes: Seq<CacheWriteView>, slot: CacheSlot) -> Option<CacheValueView>
    decreases writes.len(),
{
    if writes.len() == 0 {
        None
    } else if writes.last().slot() == slot {
        Some(writes.last().value())
    } else {
        last_write(writes.drop_last(), slot)
    }
}

/// After a sequence of writes a place holds the value of the last write
/// that went to it, and what it held before if none did. No write empties
/// a place.
pub proof fn lemma_put_all_at(contents: CacheContents, writes: Seq<CacheWriteView>, slot: CacheSlot)
    ensures
        put_all(contents, writes).contains_key(slot) <==> last_write(writes, slot) is Some
            || contents.contains_key(slot),
        put_all(contents, writes)[slot] == match last_write(writes, slot) {
            Some(value) => value,
            None => contents[slot],
        },
    decreases writes.len(),
{
    if writes.len() > 0 {
        lemma_put_all_at(contents, writes.drop_last(), slot);
    }
}

/// A place that no write goes to has no last write.
pub proof fn lemma_last_write_none(writes: Seq<CacheWriteView>, slot: CacheSlot)
    requires
        forall|i: int| 0 <= i < writes.len() ==> (#[trigger] writes[i]).slot() != slot,
    ensures
        last_write(writes, slot) is None,
    decreases writes.len(),
{
    if writes.len() > 0 {
        assert(writes[writes.len() - 1].slot() != slot);
        lemma_last_write_none(writes.drop_last(), slot);
    }
}

/// The last write to a place is one of the writes.
pub proof fn lemma_last_write_some(writes: Seq<CacheWriteView>, slot: CacheSlot)
    requires
        last_write(writes, slot) is Some,
    ensures
        exists|i: int|
            0 <= i < writes.len() && (#[trigger] writes[i]).slot() == slot && writes[i].value()
                == last_write(writes, slot).unwrap(),
    decreases writes.len(),
{
    if writes.last().slot() == slot {
        assert(writes[writes.len() - 1].slot() == slot);
    } else {
        lemma_last_write_some(writes.drop_last(), slot);
        let i = choose|i: int|
            0 <= i < writes.drop_last().len() && (#[trigger] writes.drop_last()[i]).slot() == slot
                && writes.drop_last()[i].value() == last_write(writes.drop_last(), slot).unwrap();
        assert(writes[i].slot() == slot);
    }
}

/// The last write of two sequences made one after the other.
pub proof fn lemma_last_write_add(a: Seq<CacheWriteView>, b: Seq<CacheWriteView>, slot: CacheSlot)
    ensures
        last_write(a + b, slot) == match last_write(b, slot) {
            Some(value) => Some(value),
            None => last_write(a, slot),
        },
    decreases b.len(),
{
    if b.len() == 0 {
        assert(a + b =~= a);
    } else {
        assert((a + b).drop_last() =~= a + b.drop_last());
        assert((a + b).last() == b.last());
        lemma_last_write_add(a, b.drop_last(), slot);
    }
}

/// Writes that are made a second time, on contents that they were the last
/// to change at their places, change nothing.
pub proof fn lemma_repeated_writes(
    contents: CacheContents,
    writes: Seq<CacheWriteView>,
    other: CacheSlot,
    value: CacheValueView,
)
    requires
        forall|i: int| 0 <= i < writes.len() ==> (#[trigger] writes[i]).slot() != other,
    ensures
        put_all(put_all(contents, writes).insert(other, value), writes) == put_all(
            contents,
            writes,
        ).insert(other, value),
{
    let once = put_all(contents, writes).insert(other, value);
    let twice = put_all(once, writes);
    lemma_last_write_none(writes, other);
    assert forall|slot: CacheSlot| twice.contains_key(slot) == once.contains_key(slot) by {
        lemma_put_all_at(once, writes, slot);
        lemma_put_all_at(contents, writes, slot);
    }
    assert forall|slot: CacheSlot| twice.contains_key(slot) implies twice[slot] == once[slot] by {
        lemma_put_all_at(once, writes, slot);
        lemma_put_all_at(contents, writes, slot);
    }
    assert(twice =~= once);
}

/// What became of a run: the writes that went through, in their order, and
/// the outcome, once the run has ended.
pub struct Course {
    pub written: Seq<CacheWriteView>,
    pub outcome: Option<Result<(), ErrorView>>,
}

/// The write that a request asks for, if it asks for one.
pub open spec fn write_of(request: RequestView) -> Option<CacheWriteView> {
    match request {
        RequestView::Write(write) => Some(write),
        _ => None,
    }
}

/// `n` answers, each saying that a write went through.
pub open spec fn written_ok(n: nat) -> Seq<ResponseView> {
    Seq::new(n, |i: int| ResponseView::Written(Ok(())))
}

/// The course of a run from `state` on, where `in_flight` is the write last
/// asked for and `responses` are the answers that the driver gives, one
/// after the other. A write has gone through when its answer says so.
pub open spec fn course_from(
    cluster: Seq<char>,
    state: RunStateView,
    in_flight: Option<CacheWriteView>,
    responses: Seq<ResponseView>,
    now: Timestamp,
) -> Course
    decreases responses.len(),
{
    if responses.len() == 0 {
        Course { written: Seq::empty(), outcome: None }
    } else {
        let done = if responses.first() == ResponseView::Written(Ok(())) && in_flight is Some {
            seq![in_flight.unwrap()]
        } else {
            Seq::empty()
        };
        match next_step(cluster, state, responses.first(), now) {
            StepView::Finished(outcome) => Course { written: done, outcome: Some(outcome) },
            StepView::Continue { state: next, request } => {
                let rest = course_from(
                    cluster,
                    next,
                    write_of(request),
                    responses.drop_first(),
                    now,
                );
                Course { written: done + rest.written, outcome: rest.outcome }
            },
        }
    }
}

/// The course of a run of the task of `cluster` under the given answers.
pub open spec fn course(
    cluster: Seq<char>,
    connected: bool,
    responses: Seq<ResponseView>,
    now: Timestamp,
) -> Course {
    match first_step(cluster, connected) {
        StepView::Finished(outcome) => Course { written: Seq::empty(), outcome: Some(outcome) },
        StepView::Continue { state, request } => course_from(
            cluster,
            state,
            write_of(request),
            responses,
            now,
        ),
    }
}

/// A write of the task of `cluster`: it goes to an entry of that cluster,
/// every partition list in it is sorted by identifier, and every condition
/// that a partition in it carries is described.
pub open spec fn write_sound(cluster: Seq<char>, write: CacheWriteView) -> bool {
    &&& write.cluster() == cluster
    &&& write.value().lists_sorted()
    &&& write.value().conditions_described()
}

/// Every write that a state still holds is a write of the task's cluster.
pub open spec fn state_sound(cluster: Seq<char>, state: RunStateView) -> bool {
    match state {
        RunStateView::Writing { pending, .. } => forall|i: int|
            0 <= i < pending.len() ==> write_sound(cluster, #[trigger] pending[i]),
        _ => true,
    }
}

proof fn lemma_planned_writes_sound(cluster: Seq<char>, topology: RawTopologyView, now: Timestamp)
    ensures
        write_sound(
            cluster,
            CacheWriteView::Aggregate { cluster, metadata: normalized_metadata(topology, now) },
        ),
        forall|i: int|
            0 <= i < decomposed_writes(cluster, topology).len() ==> write_sound(
                cluster,
                #[trigger] decomposed_writes(cluster, topology)[i],
            ),
{
    lemma_normalized_topics_sorted(topology.topics);
    lemma_normalized_topics_described(topology.topics);
    let planned = decomposed_writes(cluster, topology);
    assert forall|i: int| 0 <= i < planned.len() implies write_sound(
        cluster,
        #[trigger] planned[i],
    ) by {
        if i > 0 {
            assert(planned[i] == topic_writes(cluster, topology.topics)[i - 1]);
            lemma_sorted_partitions(described_all(topology.topics[i - 1].partitions));
            lemma_normalized_partitions_described(topology.topics[i - 1].partitions);
        }
    }
}

/// A step from a sound state asks only for a write of the task's cluster,
/// and leaves a sound state.
pub proof fn lemma_step_sound(
    cluster: Seq<char>,
    state: RunStateView,
    response: ResponseView,
    now: Timestamp,
)
    requires
        state_sound(cluster, state),
    ensures
        match next_step(cluster, state, response, now) {
            StepView::Continue { state: next, request } => {
                &&& state_sound(cluster, next)
                &&& write_of(request) matches Some(write) ==> write_sound(cluster, write)
            },
            StepView::Finished(_) => true,
        },
{
    match state {
        RunStateView::AwaitAggregate => {
            if let ResponseView::Topology(Ok(topology)) = response {
                lemma_planned_writes_sound(cluster, topology, now);
            }
        },
        RunStateView::AwaitDecomposed => {
            if let ResponseView::Topology(Ok(topology)) = response {
                lemma_planned_writes_sound(cluster, topology, now);
                let planned = decomposed_writes(cluster, topology);
                assert(write_sound(cluster, planned[0]));
                assert forall|i: int| 0 <= i < planned.drop_first().len() implies write_sound(
                    cluster,
                    #[trigger] planned.drop_first()[i],
                ) by {
                    assert(planned.drop_first()[i] == planned[i + 1]);
                }
            }
        },
        RunStateView::AwaitGroups => {
            if let ResponseView::Groups(Ok(groups)) = response {
                let planned = group_writes(cluster, groups);
                if planned.len() > 0 {
                    assert(write_sound(cluster, planned[0]));
                    assert forall|i: int| 0 <= i < planned.drop_first().len() implies write_sound(
                        cluster,
                        #[trigger] planned.drop_first()[i],
                    ) by {
                        assert(planned.drop_first()[i] == planned[i + 1]);
                    }
                }
            }
        },
        RunStateView::Writing { phase, cache, key, pending } => {
            if pending.len() > 0 {
                assert(write_sound(cluster, pending[0]));
                assert forall|i: int| 0 <= i < pending.drop_first().len() implies write_sound(
                    cluster,
                    #[trigger] pending.drop_first()[i],
                ) by {
                    assert(pending.drop_first()[i] == pending[i + 1]);
                }
            }
        },
    }
}

/// Whatever the answers, every write of a run that went through is a write
/// of the task's cluster.
pub proof fn lemma_course_from_sound(
    cluster: Seq<char>,
    state: RunStateView,
    in_flight: Option<CacheWriteView>,
    responses: Seq<ResponseView>,
    now: Timestamp,
)
    requires
        state_sound(cluster, state),
        in_flight matches Some(write) ==> write_sound(cluster, write),
    ensures
        forall|i: int|
            0 <= i < course_from(cluster, state, in_flight, responses, now).written.len()
                ==> write_sound(
                cluster,
                #[trigger] course_from(cluster, state, in_flight, responses, now).written[i],
            ),
    decreases responses.len(),
{
    if responses.len() > 0 {
        lemma_step_sound(cluster, state, responses.first(), now);
        match next_step(cluster, state, responses.first(), now) {
            StepView::Finished(_) => {},
            StepView::Continue { state: next, request } => {
                lemma_course_from_sound(
                    cluster,
                    next,
                    write_of(request),
                    responses.drop_first(),
                    now,
                );
            },
        }
    }
}

/// Every write of a run that went through is a write of the task's
/// cluster, whatever answers the run got.
pub proof fn lemma_course_sound(
    cluster: Seq<char>,
    connected: bool,
    responses: Seq<ResponseView>,
    now: Timestamp,
)
    ensures
        forall|i: int|
            0 <= i < course(cluster, connected, responses, now).written.len() ==> write_sound(
                cluster,
                #[trigger] course(cluster, connected, responses, now).written[i],
            ),
{
    if connected {
        lemma_course_from_sound(cluster, RunStateView::AwaitAggregate, None, responses, now);
    }
}

/// The course of what follows a phase whose last write went through.
pub open spec fn after_phase(
    cluster: Seq<char>,
    phase: Phase,
    responses: Seq<ResponseView>,
    now: Timestamp,
) -> Course {
    match proceed(phase, Seq::empty()) {
        StepView::Finished(outcome) => Course { written: Seq::empty(), outcome: Some(outcome) },
        StepView::Continue { state, request } => course_from(
            cluster,
            state,
            write_of(request),
            responses,
            now,
        ),
    }
}

/// When the write under way and all that are pending go through, they are
/// written in their order, and the run goes on behind the phase.
pub proof fn lemma_drain(
    cluster: Seq<char>,
    phase: Phase,
    write: CacheWriteView,
    pending: Seq<CacheWriteView>,
    rest: Seq<ResponseView>,
    now: Timestamp,
)
    ensures
        course_from(
            cluster,
            RunStateView::Writing { phase, cache: write.cache(), key: write.key(), pending },
            Some(write),
            written_ok((pending.len() + 1) as nat) + rest,
            now,
        ) == (Course {
            written: seq![write] + pending + after_phase(cluster, phase, rest, now).written,
            outcome: after_phase(cluster, phase, rest, now).outcome,
        }),
    decreases pending.len(),
{
    let state = RunStateView::Writing { phase, cache: write.cache(), key: write.key(), pending };
    let responses = written_ok((pending.len() + 1) as nat) + rest;
    let got = course_from(cluster, state, Some(write), responses, now);
    let after = after_phase(cluster, phase, rest, now);
    assert(responses.first() == ResponseView::Written(Ok(())));
    assert(responses.drop_first() =~= written_ok(pending.len()) + rest);
    if pending.len() > 0 {
        lemma_drain(cluster, phase, pending.first(), pending.drop_first(), rest, now);
        assert(written_ok((pending.drop_first().len() + 1) as nat) =~= written_ok(pending.len()));
        assert(got.written =~= seq![write] + pending + after.written);
    } else {
        assert(written_ok(0) + rest =~= rest);
        assert(got.written =~= seq![write] + pending + after.written);
    }
}

/// The answers of a cluster and of the caches when nothing fails: the
/// topology of the first phase, the topology of the second, the groups,
/// and after each write the word that it went through.
pub open spec fn answers_ok(
    first: RawTopologyView,
    second: RawTopologyView,
    groups: Seq<GroupView>,
) -> Seq<ResponseView> {
    seq![ResponseView::Topology(Ok(first)), ResponseView::Written(Ok(()))] + (seq![
        ResponseView::Topology(Ok(second)),
    ] + written_ok((second.topics.len() + 1) as nat)) + (seq![ResponseView::Groups(Ok(groups))]
        + written_ok(groups.len()))
}

/// The writes of a run in which nothing fails: the aggregate snapshot of
/// the first topology, then the brokers and the topics of the second, then
/// the groups.
pub open spec fn run_writes(
    cluster: Seq<char>,
    first: RawTopologyView,
    now: Timestamp,
    second: RawTopologyView,
    groups: Seq<GroupView>,
) -> Seq<CacheWriteView> {
    seq![CacheWriteView::Aggregate { cluster, metadata: normalized_metadata(first, now) }]
        + decomposed_writes(cluster, second) + group_writes(cluster, groups)
}

proof fn lemma_groups_phase(cluster: Seq<char>, groups: Seq<GroupView>, now: Timestamp)
    ensures
        course_from(
            cluster,
            RunStateView::AwaitGroups,
            None,
            seq![ResponseView::Groups(Ok(groups))] + written_ok(groups.len()),
            now,
        ) == (Course { written: group_writes(cluster, groups), outcome: Some(Ok(())) }),
{
    let responses = seq![ResponseView::Groups(Ok(groups))] + written_ok(groups.len());
    let planned = group_writes(cluster, groups);
    let got = course_from(cluster, RunStateView::AwaitGroups, None, responses, now);
    assert(responses.first() == ResponseView::Groups(Ok(groups)));
    assert(responses.drop_first() =~= written_ok(groups.len()));
    if planned.len() > 0 {
        lemma_drain(
            cluster,
            Phase::Groups,
            planned.first(),
            planned.drop_first(),
            Seq::empty(),
            now,
        );
        assert(written_ok((planned.drop_first().len() + 1) as nat) + Seq::<ResponseView>::empty()
            =~= written_ok(groups.len()));
        assert(got.written =~= planned);
    } else {
        assert(got.written =~= planned);
    }
}

proof fn lemma_decomposed_phase(
    cluster: Seq<char>,
    second: RawTopologyView,
    groups: Seq<GroupView>,
    now: Timestamp,
)
    ensures
        course_from(
            cluster,
            RunStateView::AwaitDecomposed,
            None,
            (seq![ResponseView::Topology(Ok(second))] + written_ok(
                (second.topics.len() + 1) as nat,
            )) + (seq![ResponseView::Groups(Ok(groups))] + written_ok(groups.len())),
            now,
        ) == (Course {
            written: decomposed_writes(cluster, second) + group_writes(cluster, groups),
            outcome: Some(Ok(())),
        }),
{
    let tail = seq![ResponseView::Groups(Ok(groups))] + written_ok(groups.len());
    let responses = (seq![ResponseView::Topology(Ok(second))] + written_ok(
        (second.topics.len() + 1) as nat,
    )) + tail;
    let planned = decomposed_writes(cluster, second);
    let got = course_from(cluster, RunStateView::AwaitDecomposed, None, responses, now);
    assert(responses.first() == ResponseView::Topology(Ok(second)));
    assert(responses.drop_first() =~= written_ok((second.topics.len() + 1) as nat) + tail);
    assert(planned.len() == second.topics.len() + 1);
    lemma_drain(cluster, Phase::Decomposed, planned.first(), planned.drop_first(), tail, now);
    lemma_groups_phase(cluster, groups, now);
    assert(seq![planned.first()] + planned.drop_first() =~= planned);
    assert(got.written =~= planned + group_writes(cluster, groups));
}

/// A run in which nothing fails ends well, and has made the writes of its
/// three phases, in their order.
pub proof fn lemma_successful_run(
    cluster: Seq<char>,
    first: RawTopologyView,
    second: RawTopologyView,
    groups: Seq<GroupView>,
    now: Timestamp,
)
    ensures
        course(cluster, true, answers_ok(first, second, groups), now) == (Course {
            written: run_writes(cluster, first, now, second, groups),
            outcome: Some(Ok(())),
        }),
{
    let tail = (seq![ResponseView::Topology(Ok(second))] + written_ok(
        (second.topics.len() + 1) as nat,
    )) + (seq![ResponseView::Groups(Ok(groups))] + written_ok(groups.len()));
    let responses = answers_ok(first, second, groups);
    let snapshot = CacheWriteView::Aggregate { cluster, metadata: normalized_metadata(first, now) };
    let got = course(cluster, true, responses, now);
    assert(responses.first() == ResponseView::Topology(Ok(first)));
    assert(responses.drop_first() =~= written_ok(1) + tail);
    lemma_drain(cluster, Phase::Aggregate, snapshot, Seq::empty(), tail, now);
    lemma_decomposed_phase(cluster, second, groups, now);
    assert(got.written =~= run_writes(cluster, first, now, second, groups));
}

/// A task without a connection does not run: nothing is written and the
/// outcome is `ClientUninitialized`.
pub proof fn lemma_run_without_connection(
    cluster: Seq<char>,
    responses: Seq<ResponseView>,
    now: Timestamp,
)
    ensures
        course(cluster, false, responses, now) == (Course {
            written: Seq::empty(),
            outcome: Some(Err(ErrorView::ClientUninitialized { cluster })),
        }),
{
}

/// A run whose first fetch fails writes nothing.
pub proof fn lemma_first_fetch_fails(
    cluster: Seq<char>,
    cause: Seq<char>,
    rest: Seq<ResponseView>,
    now: Timestamp,
)
    ensures
        course(cluster, true, seq![ResponseView::Topology(Err(cause))] + rest, now) == (Course {
            written: Seq::empty(),
            outcome: Some(
                Err(ErrorView::FetchFailed { cluster, phase: Phase::Aggregate, cause }),
            ),
        }),
{
    let responses = seq![ResponseView::Topology(Err(cause))] + rest;
    assert(responses.first() == ResponseView::Topology(Err(cause)));
    assert(course(cluster, true, responses, now).written =~= Seq::empty());
}

/// A run whose second fetch fails has written the aggregate snapshot, and
/// the snapshot stays: nothing is taken back.
pub proof fn lemma_second_fetch_fails(
    cluster: Seq<char>,
    first: RawTopologyView,
    cause: Seq<char>,
    rest: Seq<ResponseView>,
    now: Timestamp,
)
    ensures
        course(
            cluster,
            true,
            seq![ResponseView::Topology(Ok(first)), ResponseView::Written(Ok(()))] + (seq![
                ResponseView::Topology(Err(cause)),
            ] + rest),
            now,
        ) == (Course {
            written: seq![
                CacheWriteView::Aggregate { cluster, metadata: normalized_metadata(first, now) },
            ],
            outcome: Some(
                Err(ErrorView::FetchFailed { cluster, phase: Phase::Decomposed, cause }),
            ),
        }),
{
    let tail = seq![ResponseView::Topology(Err(cause))] + rest;
    let responses = seq![ResponseView::Topology(Ok(first)), ResponseView::Written(Ok(()))] + tail;
    let snapshot = CacheWriteView::Aggregate { cluster, metadata: normalized_metadata(first, now) };
    assert(responses.first() == ResponseView::Topology(Ok(first)));
    assert(responses.drop_first() =~= written_ok(1) + tail);
    lemma_drain(cluster, Phase::Aggregate, snapshot, Seq::empty(), tail, now);
    assert(tail.first() == ResponseView::Topology(Err(cause)));
    let after = after_phase(cluster, Phase::Aggregate, tail, now);
    assert(after.written =~= Seq::empty());
    assert(course(cluster, true, responses, now).written =~= seq![snapshot]);
}

/// A refused write ends the run. The writes before it have gone through
/// and stay; the refused one and those behind it are not made; the error
/// names the cache and the key of the refused one.
pub proof fn lemma_refused_write(
    cluster: Seq<char>,
    phase: Phase,
    write: CacheWriteView,
    pending: Seq<CacheWriteView>,
    k: nat,
    cause: Seq<char>,
    rest: Seq<ResponseView>,
    now: Timestamp,
)
    requires
        k <= pending.len(),
    ensures
        course_from(
            cluster,
            RunStateView::Writing { phase, cache: write.cache(), key: write.key(), pending },
            Some(write),
            written_ok(k) + (seq![ResponseView::Written(Err(cause))] + rest),
            now,
        ) == (Course {
            written: (seq![write] + pending).take(k as int),
            outcome: Some(
                Err(
                    ErrorView::CacheWriteFailed {
                        cluster,
                        cache: (seq![write] + pending)[k as int].cache(),
                        key: (seq![write] + pending)[k as int].key(),
                        cause,
                    },
                ),
            ),
        }),
    decreases k,
{
    let state = RunStateView::Writing { phase, cache: write.cache(), key: write.key(), pending };
    let tail = seq![ResponseView::Written(Err(cause))] + rest;
    let responses = written_ok(k) + tail;
    let all = seq![write] + pending;
    let got = course_from(cluster, state, Some(write), responses, now);
    if k == 0 {
        assert(responses.first() == ResponseView::Written(Err(cause)));
        assert(got.written =~= all.take(0));
    } else {
        assert(responses.first() == ResponseView::Written(Ok(())));
        assert(responses.drop_first() =~= written_ok((k - 1) as nat) + tail);
        lemma_refused_write(
            cluster,
            phase,
            pending.first(),
            pending.drop_first(),
            (k - 1) as nat,
            cause,
            rest,
            now,
        );
        let behind = seq![pending.first()] + pending.drop_first();
        assert(behind =~= pending);
        assert(all[k as int] == behind[k - 1]);
        assert(got.written =~= all.take(k as int));
    }
}

/// In every filled place, every partition list is sorted by identifier.
pub open spec fn contents_sorted(contents: CacheContents) -> bool {
    forall|slot: CacheSlot|
        contents.contains_key(slot) ==> (#[trigger] contents[slot]).lists_sorted()
}

/// Sorted lists stay: if every partition list in the caches is sorted by
/// identifier, it is so after a run, whatever the cluster listed and
/// wherever the run ended.
pub proof fn lemma_lists_stay_sorted(
    contents: CacheContents,
    cluster: Seq<char>,
    connected: bool,
    responses: Seq<ResponseView>,
    now: Timestamp,
)
    requires
        contents_sorted(contents),
    ensures
        contents_sorted(put_all(contents, course(cluster, connected, responses, now).written)),
{
    let written = course(cluster, connected, responses, now).written;
    let after = put_all(contents, written);
    lemma_course_sound(cluster, connected, responses, now);
    assert forall|slot: CacheSlot| after.contains_key(slot) implies (#[trigger] after[slot]).lists_sorted() by {
        lemma_put_all_at(contents, written, slot);
        if last_write(written, slot) is Some {
            lemma_last_write_some(written, slot);
            let i = choose|i: int|
                0 <= i < written.len() && (#[trigger] written[i]).slot() == slot
                    && written[i].value() == last_write(written, slot).unwrap();
            assert(write_sound(cluster, written[i]));
        }
    }
}

/// In every filled place, every condition that a partition carries is
/// described by a text that is not empty.
pub open spec fn contents_described(contents: CacheContents) -> bool {
    forall|slot: CacheSlot|
        contents.contains_key(slot) ==> (#[trigger] contents[slot]).conditions_described()
}

/// Conditions stay described: a run stores no partition whose condition
/// has an empty text, whatever the cluster listed and wherever the run
/// ended.
pub proof fn lemma_conditions_stay_described(
    contents: CacheContents,
    cluster: Seq<char>,
    connected: bool,
    responses: Seq<ResponseView>,
    now: Timestamp,
)
    requires
        contents_described(contents),
    ensures
        contents_described(put_all(contents, course(cluster, connected, responses, now).written)),
{
    let written = course(cluster, connected, responses, now).written;
    let after = put_all(contents, written);
    lemma_course_sound(cluster, connected, responses, now);
    assert forall|slot: CacheSlot| after.contains_key(slot) implies (#[trigger] after[slot]).conditions_described() by {
        lemma_put_all_at(contents, written, slot);
        if last_write(written, slot) is Some {
            lemma_last_write_some(written, slot);
            let i = choose|i: int|
                0 <= i < written.len() && (#[trigger] written[i]).slot() == slot
                    && written[i].value() == last_write(written, slot).unwrap();
            assert(write_sound(cluster, written[i]));
        }
    }
}

/// Isolation: a run of one cluster, however it goes and wherever it fails,
/// leaves every entry of every other cluster as it was.
pub proof fn lemma_other_clusters_untouched(
    contents: CacheContents,
    cluster: Seq<char>,
    connected: bool,
    responses: Seq<ResponseView>,
    now: Timestamp,
    slot: CacheSlot,
)
    requires
        slot.key.cluster != cluster,
    ensures
        put_all(contents, course(cluster, connected, responses, now).written).contains_key(slot)
            == contents.contains_key(slot),
        put_all(contents, course(cluster, connected, responses, now).written)[slot]
            == contents[slot],
{
    let written = course(cluster, connected, responses, now).written;
    lemma_course_sound(cluster, connected, responses, now);
    assert forall|i: int| 0 <= i < written.len() implies (#[trigger] written[i]).slot() != slot by {
        assert(write_sound(cluster, written[i]));
    }
    lemma_last_write_none(written, slot);
    lemma_put_all_at(contents, written, slot);
}

/// A task with a connection starts its run whatever became of any run
/// before, its own or another cluster's: no outcome is held against it.
pub proof fn lemma_connected_task_starts(cluster: Seq<char>)
    ensures
        first_step(cluster, true) == (StepView::Continue {
            state: RunStateView::AwaitAggregate,
            request: RequestView::FetchTopology { timeout_ms: crate::run::FETCH_TIMEOUT_MS },
        }),
{
}

/// No write removes an entry: what a place held before a sequence of
/// writes it holds afterwards, or a value written since.
pub proof fn lemma_nothing_removed(
    contents: CacheContents,
    writes: Seq<CacheWriteView>,
    slot: CacheSlot,
)
    requires
        contents.contains_key(slot),
    ensures
        put_all(contents, writes).contains_key(slot),
{
    lemma_put_all_at(contents, writes, slot);
}

/// Accretion of topics: a topic that the cluster no longer lists keeps its
/// entry, unchanged, through a run in which nothing fails.
pub proof fn lemma_unlisted_topic_stays(
    contents: CacheContents,
    cluster: Seq<char>,
    first: RawTopologyView,
    second: RawTopologyView,
    groups: Seq<GroupView>,
    now: Timestamp,
    topic: Seq<char>,
)
    requires
        contents.contains_key(topic_slot(cluster, topic)),
        forall|i: int| 0 <= i < second.topics.len() ==> (#[trigger] second.topics[i]).name != topic,
    ensures
        put_all(contents, run_writes(cluster, first, now, second, groups)).contains_key(
            topic_slot(cluster, topic),
        ),
        put_all(contents, run_writes(cluster, first, now, second, groups))[topic_slot(
            cluster,
            topic,
        )] == contents[topic_slot(cluster, topic)],
{
    let writes = run_writes(cluster, first, now, second, groups);
    let slot = topic_slot(cluster, topic);
    assert forall|i: int| 0 <= i < writes.len() implies (#[trigger] writes[i]).slot() != slot by {
        if 2 <= i < 2 + second.topics.len() {
            assert(writes[i] == topic_writes(cluster, second.topics)[i - 2]);
            assert(second.topics[i - 2].name != topic);
        }
    }
    lemma_last_write_none(writes, slot);
    lemma_put_all_at(contents, writes, slot);
}

/// Accretion of groups: a group that the cluster no longer lists keeps its
/// entry, unchanged, through a run in which nothing fails.
pub proof fn lemma_unlisted_group_stays(
    contents: CacheContents,
    cluster: Seq<char>,
    first: RawTopologyView,
    second: RawTopologyView,
    groups: Seq<GroupView>,
    now: Timestamp,
    group: Seq<char>,
)
    requires
        contents.contains_key(group_slot(cluster, group)),
        forall|i: int| 0 <= i < groups.len() ==> (#[trigger] groups[i]).name != group,
    ensures
        put_all(contents, run_writes(cluster, first, now, second, groups)).contains_key(
            group_slot(cluster, group),
        ),
        put_all(contents, run_writes(cluster, first, now, second, groups))[group_slot(
            cluster,
            group,
        )] == contents[group_slot(cluster, group)],
{
    let writes = run_writes(cluster, first, now, second, groups);
    let slot = group_slot(cluster, group);
    let base = 2 + second.topics.len();
    assert forall|i: int| 0 <= i < writes.len() implies (#[trigger] writes[i]).slot() != slot by {
        if i >= base {
            assert(writes[i] == group_writes(cluster, groups)[i - base]);
            assert(groups[i - base].name != group);
        } else if i >= 2 {
            assert(writes[i] == topic_writes(cluster, second.topics)[i - 2]);
        }
    }
    lemma_last_write_none(writes, slot);
    lemma_put_all_at(contents, writes, slot);
}

/// Idempotence: a second run on what the cluster listed before changes
/// one thing, the aggregate snapshot, and of the snapshot only its time.
pub proof fn lemma_second_run_changes_time_only(
    contents: CacheContents,
    cluster: Seq<char>,
    first: RawTopologyView,
    second: RawTopologyView,
    groups: Seq<GroupView>,
    earlier: Timestamp,
    later: Timestamp,
)
    ensures
        ({
            let once = put_all(contents, run_writes(cluster, first, earlier, second, groups));
            let twice = put_all(once, run_writes(cluster, first, later, second, groups));
            &&& once[aggregate_slot(cluster)] == CacheValueView::Aggregate(
                normalized_metadata(first, earlier),
            )
            &&& twice == once.insert(
                aggregate_slot(cluster),
                CacheValueView::Aggregate(normalized_metadata(first, later)),
            )
            &&& normalized_metadata(first, later) == (crate::snapshot::MetadataView {
                refresh_time: later,
                ..normalized_metadata(first, earlier)
            })
            &&& later.at_or_after(earlier) ==> twice[aggregate_slot(
                cluster,
            )]->Aggregate_0.refresh_time.at_or_after(
                once[aggregate_slot(cluster)]->Aggregate_0.refresh_time,
            )
        }),
{
    let slot = aggregate_slot(cluster);
    let rest = decomposed_writes(cluster, second) + group_writes(cluster, groups);
    let snapshot_before = CacheWriteView::Aggregate { cluster, metadata: normalized_metadata(first, earlier) };
    let snapshot_after = CacheWriteView::Aggregate { cluster, metadata: normalized_metadata(first, later) };
    let writes_before = run_writes(cluster, first, earlier, second, groups);
    let writes_after = run_writes(cluster, first, later, second, groups);
    assert(writes_before =~= seq![snapshot_before] + rest);
    assert(writes_after =~= seq![snapshot_after] + rest);
    assert forall|i: int| 0 <= i < rest.len() implies (#[trigger] rest[i]).slot() != slot by {
        if i >= 1 + second.topics.len() {
            assert(rest[i] == group_writes(cluster, groups)[i - 1 - second.topics.len()]);
        } else if i >= 1 {
            assert(rest[i] == topic_writes(cluster, second.topics)[i - 1]);
        }
    }
    lemma_last_write_none(rest, slot);
    let once = put_all(contents, writes_before);
    let twice = put_all(once, writes_after);
    lemma_put_all_split(contents, seq![snapshot_before], rest);
    lemma_put_all_split(once, seq![snapshot_after], rest);
    lemma_put_all_one(contents, snapshot_before);
    lemma_put_all_one(once, snapshot_after);
    let base = put(contents, snapshot_before);
    assert(once == put_all(base, rest));
    lemma_put_all_at(base, rest, slot);
    assert(twice == put_all(once.insert(slot, snapshot_after.value()), rest));
    lemma_repeated_writes(base, rest, slot, snapshot_after.value());
}

/// Writes made in two parts come to the same as made in one.
pub proof fn lemma_put_all_split(
    contents: CacheContents,
    a: Seq<CacheWriteView>,
    b: Seq<CacheWriteView>,
)
    ensures
        put_all(contents, a + b) == put_all(put_all(contents, a), b),
    decreases b.len(),
{
    if b.len() == 0 {
        assert(a + b =~= a);
    } else {
        assert((a + b).drop_last() =~= a + b.drop_last());
        assert((a + b).last() == b.last());
        lemma_put_all_split(contents, a, b.drop_last());
    }
}

/// A sequence of one write comes to that write.
pub proof fn lemma_put_all_one(contents: CacheContents, write: CacheWriteView)
    ensures
        put_all(contents, seq![write]) == put(contents, write),
{
    assert(seq![write].drop_last() =~= Seq::<CacheWriteView>::empty());
    assert(put_all(contents, Seq::<CacheWriteView>::empty()) == contents);
    assert(seq![write].last() == write);
}

/// The last topic write to a topic's place is the one for the partition
/// list that the aggregate snapshot of the same listing holds for the topic.
pub proof fn lemma_topic_writes_match_snapshot(
    cluster: Seq<char>,
    topics: Seq<RawTopicView>,
    topic: Seq<char>,
)
    ensures
        last_write(topic_writes(cluster, topics), topic_slot(cluster, topic)) == if normalized_topics(
            topics,
        ).contains_key(topic) {
            Some(CacheValueView::Partitions(normalized_topics(topics)[topic]))
        } else {
            None
        },
    decreases topics.len(),
{
    let writes = topic_writes(cluster, topics);
    if topics.len() > 0 {
        assert(writes.drop_last() =~= topic_writes(cluster, topics.drop_last()));
        lemma_topic_writes_match_snapshot(cluster, topics.drop_last(), topic);
    }
}

/// After a run in which nothing fails, the caches hold what the cluster
/// listed: the snapshot of the first topology, the brokers of the second,
/// and for every topic of the second the partition list that a snapshot of
/// the second would hold for it. Every such list is sorted by identifier,
/// and every condition in it is described by a text that is not empty.
pub proof fn lemma_contents_after_run(
    contents: CacheContents,
    cluster: Seq<char>,
    first: RawTopologyView,
    second: RawTopologyView,
    groups: Seq<GroupView>,
    now: Timestamp,
)
    ensures
        ({
            let after = put_all(contents, run_writes(cluster, first, now, second, groups));
            &&& after.contains_key(aggregate_slot(cluster))
            &&& after[aggregate_slot(cluster)] == CacheValueView::Aggregate(
                normalized_metadata(first, now),
            )
            &&& after[aggregate_slot(cluster)].lists_sorted()
            &&& after[aggregate_slot(cluster)].conditions_described()
            &&& after.contains_key(brokers_slot(cluster))
            &&& after[brokers_slot(cluster)] == CacheValueView::Brokers(second.brokers)
            &&& forall|topic: Seq<char>| #[trigger]
                normalized_topics(second.topics).contains_key(topic) ==> {
                    &&& after.contains_key(topic_slot(cluster, topic))
                    &&& after[topic_slot(cluster, topic)] == CacheValueView::Partitions(
                        normalized_topics(second.topics)[topic],
                    )
                    &&& after[topic_slot(cluster, topic)].lists_sorted()
                    &&& after[topic_slot(cluster, topic)].conditions_described()
                }
        }),
{
    lemma_normalized_topics_sorted(first.topics);
    lemma_normalized_topics_described(first.topics);
    lemma_normalized_topics_sorted(second.topics);
    lemma_normalized_topics_described(second.topics);
    let snapshot = CacheWriteView::Aggregate { cluster, metadata: normalized_metadata(first, now) };
    let brokers = CacheWriteView::Brokers { cluster, brokers: second.brokers };
    let topics = topic_writes(cluster, second.topics);
    let listed = group_writes(cluster, groups);
    let writes = run_writes(cluster, first, now, second, groups);
    let after = put_all(contents, writes);
    assert(writes =~= ((seq![snapshot] + seq![brokers]) + topics) + listed);
    assert forall|slot: CacheSlot| slot.cache != crate::cache::CacheKind::Groups implies last_write(
        listed,
        slot,
    ) is None by {
        assert forall|i: int| 0 <= i < listed.len() implies (#[trigger] listed[i]).slot()
            != slot by {}
        lemma_last_write_none(listed, slot);
    }
    assert forall|slot: CacheSlot| slot.cache != crate::cache::CacheKind::Topics implies last_write(
        topics,
        slot,
    ) is None by {
        assert forall|i: int| 0 <= i < topics.len() implies (#[trigger] topics[i]).slot()
            != slot by {}
        lemma_last_write_none(topics, slot);
    }
    assert forall|slot: CacheSlot|
        last_write(writes, slot) == match last_write(listed, slot) {
            Some(value) => Some(value),
            None => match last_write(topics, slot) {
                Some(value) => Some(value),
                None => last_write(seq![snapshot] + seq![brokers], slot),
            },
        } by {
        lemma_last_write_add((seq![snapshot] + seq![brokers]) + topics, listed, slot);
        lemma_last_write_add(seq![snapshot] + seq![brokers], topics, slot);
    }
    let two = seq![snapshot] + seq![brokers];
    assert(two.last() == brokers);
    assert(two.drop_last() =~= seq![snapshot]);
    assert(seq![snapshot].last() == snapshot);
    assert(last_write(two, brokers_slot(cluster)) == Some(brokers.value()));
    assert(last_write(seq![snapshot], aggregate_slot(cluster)) == Some(snapshot.value()));
    assert(brokers.slot() != aggregate_slot(cluster));
    assert(last_write(two, aggregate_slot(cluster)) == Some(snapshot.value()));
    lemma_put_all_at(contents, writes, aggregate_slot(cluster));
    lemma_put_all_at(contents, writes, brokers_slot(cluster));
    assert forall|topic: Seq<char>| #[trigger]
        normalized_topics(second.topics).contains_key(topic) implies {
        &&& after.contains_key(topic_slot(cluster, topic))
        &&& after[topic_slot(cluster, topic)] == CacheValueView::Partitions(
            normalized_topics(second.topics)[topic],
        )
        &&& after[topic_slot(cluster, topic)].lists_sorted()
        &&& after[topic_slot(cluster, topic)].conditions_described()
    } by {
        lemma_topic_writes_match_snapshot(cluster, second.topics, topic);
        lemma_put_all_at(contents, writes, topic_slot(cluster, topic));
    }
}

} // verus!
