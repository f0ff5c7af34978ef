//! From what a cluster reports to the domain model.
//!
//! Brokers, topics and groups keep the order of the listing. Within a
//! topic the partitions are sorted by identifier. A condition that the
//! cluster reports for a partition is kept with the partition, as text; it
//! never stops the conversion.

use crate::model::copy_ids;
use crate::model::lemma_views_push;
use crate::model::text_of;
use crate::model::views;
use crate::model::Broker;
use crate::model::Group;
use crate::model::GroupMember;
use crate::model::Partition;
use crate::model::PartitionView;
use crate::model::TopicName;
use crate::partition_order::lemma_sorted_partitions;
use crate::partition_order::lemma_sorted_partitions_members;
use crate::partition_order::sort_by_id;
use crate::partition_order::sorted_partitions;
use crate::snapshot::errors_described;
use crate::snapshot::every_error_described;
use crate::snapshot::every_list_sorted;
use crate::snapshot::Metadata;
use crate::snapshot::MetadataView;
use crate::timestamp::Timestamp;
use crate::topic_map::TopicMap;
use crate::upstream::RawBroker;
use crate::upstream::RawGroup;
use crate::upstream::RawGroupMember;
use crate::upstream::RawPartition;
use crate::upstream::RawPartitionView;
use crate::upstream::RawTopic;
use crate::upstream::RawTopicView;
use crate::upstream::RawTopology;
use crate::upstream::RawTopologyView;
use vstd::prelude::*;

verus! {

/// The text that the client library has for a response error code, or
/// `None` for a code that it does not know.
pub uninterp spec fn resp_err_text(code: i32) -> Option<Seq<char>>;

/// Asks the client library for the text of a response error code:
/// `rdkafka::types::RDKafkaRespErr::try_from` tells whether it knows the
/// code, `rdkafka::error::RDKafkaErrorCode::from` and `to_string` give the
/// text. The contract claims only that the answer is a function of the
/// code.
#[verifier::external_body]
fn resp_err_description(code: i32) -> (r: Option<String>)
    ensures
        text_of(r) == resp_err_text(code),
{
    match rdkafka::types::RDKafkaRespErr::try_from(code) {
        Ok(err) => Some(rdkafka::error::RDKafkaErrorCode::from(err).to_string()),
        Err(_) => None,
    }
}

/// The text that stands for a code without a text of its own.
pub open spec fn unknown_error_text() -> Seq<char> {
    "Unknown error"@
}

/// The text that is known for a condition, or the fixed text where none is.
pub open spec fn text_or_unknown(known: Option<Seq<char>>) -> Seq<char> {
    match known {
        Some(text) => text,
        None => unknown_error_text(),
    }
}

/// The description of a condition, given the text that is known for it:
/// that text, or the fixed text where none is known or the known one is
/// empty. A description is never empty.
pub open spec fn description_text(known: Option<Seq<char>>) -> Seq<char> {
    if text_or_unknown(known).len() > 0 {
        text_or_unknown(known)
    } else {
        unknown_error_text()
    }
}

/// The description of the condition that a response error code stands for.
pub open spec fn error_text(code: i32) -> Seq<char> {
    description_text(resp_err_text(code))
}

/// The fixed text is not empty.
pub proof fn lemma_unknown_error_text()
    ensures
        unknown_error_text().len() > 0,
{
    reveal_strlit("Unknown error");
}

/// Whatever code a cluster reports, its description is not empty.
pub proof fn lemma_error_text_nonempty(code: i32)
    ensures
        error_text(code).len() > 0,
{
    lemma_unknown_error_text();
}

/// The text that is known for a condition, or the fixed text where none
/// is. A known text is handed on as it is, an empty one too.
pub fn description_or_unknown(known: Option<String>) -> (r: String)
    ensures
        r@ == text_or_unknown(text_of(known)),
{
    match known {
        Some(text) => text,
        None => "Unknown error".to_owned(),
    }
}

/// The description of a condition, given the text that is known for it:
/// that text, or the fixed text where none is known or the known one is
/// empty.
pub fn description_of(known: Option<String>) -> (r: String)
    ensures
        r@ == description_text(text_of(known)),
        r@.len() > 0,
{
    proof {
        lemma_unknown_error_text();
    }
    let text = description_or_unknown(known);
    if text.as_str().is_empty() {
        "Unknown error".to_owned()
    } else {
        text
    }
}

/// The description of the condition that a response error code stands for.
pub fn describe_error(code: i32) -> (r: String)
    ensures
        r@ == error_text(code),
        r@.len() > 0,
{
    description_of(resp_err_description(code))
}

/// The partition that a listed partition describes: the same identifier,
/// leader and replica sets, and the condition, if one is reported, as text.
pub open spec fn described(p: RawPartitionView) -> PartitionView {
    PartitionView {
        id: p.id,
        leader: p.leader,
        replicas: p.replicas,
        isr: p.isr,
        error: match p.error {
            Some(code) => Some(error_text(code)),
            None => None,
        },
    }
}

/// The partitions that a listing describes, in its order.
pub open spec fn described_all(s: Seq<RawPartitionView>) -> Seq<PartitionView> {
    Seq::new(s.len(), |i: int| described(s[i]))
}

/// The partition list of a topic: what the listing describes, sorted by
/// identifier.
pub open spec fn normalized_partitions(s: Seq<RawPartitionView>) -> Seq<PartitionView> {
    sorted_partitions(described_all(s))
}

/// The topics of a snapshot: every listed name with its partition list.
/// Of two listed topics with one name the later one stays.
pub open spec fn normalized_topics(topics: Seq<RawTopicView>) -> Map<Seq<char>, Seq<PartitionView>>
    decreases topics.len(),
{
    if topics.len() == 0 {
        Map::empty()
    } else {
        normalized_topics(topics.drop_last()).insert(
            topics.last().name,
            normalized_partitions(topics.last().partitions),
        )
    }
}

/// The snapshot that a topology answer gives at `refresh_time`.
pub open spec fn normalized_metadata(raw: RawTopologyView, refresh_time: Timestamp) -> MetadataView {
    MetadataView { brokers: raw.brokers, topics: normalized_topics(raw.topics), refresh_time }
}

/// Whatever a cluster lists, every partition list of the snapshot is sorted
/// by identifier.
pub proof fn lemma_normalized_topics_sorted(topics: Seq<RawTopicView>)
    ensures
        every_list_sorted(normalized_topics(topics)),
    decreases topics.len(),
{
    if topics.len() > 0 {
        lemma_normalized_topics_sorted(topics.drop_last());
        lemma_sorted_partitions(described_all(topics.last().partitions));
    }
}

/// Whatever a cluster lists, every condition in a topic's partition list
/// is described.
pub proof fn lemma_normalized_partitions_described(listed: Seq<RawPartitionView>)
    ensures
        errors_described(normalized_partitions(listed)),
{
    let all = described_all(listed);
    let list = normalized_partitions(listed);
    assert forall|j: int| 0 <= j < list.len() implies ((#[trigger] list[j]).error matches Some(
        text,
    ) ==> text.len() > 0) by {
        assert(list.contains(list[j]));
        lemma_sorted_partitions_members(all, list[j]);
        let i = choose|i: int| 0 <= i < all.len() && all[i] == list[j];
        if let Some(code) = listed[i].error {
            lemma_error_text_nonempty(code);
        }
    }
}

/// Whatever a cluster lists, every condition in the snapshot is described.
pub proof fn lemma_normalized_topics_described(topics: Seq<RawTopicView>)
    ensures
        every_error_described(normalized_topics(topics)),
    decreases topics.len(),
{
    if topics.len() > 0 {
        lemma_normalized_topics_described(topics.drop_last());
        lemma_normalized_partitions_described(topics.last().partitions);
    }
}

/// A partition for which the cluster reports a condition is in its topic's
/// list like any other, with the condition as its error, described by a
/// text that is not empty; a partition without a condition has no error.
pub proof fn lemma_condition_is_kept(listed: Seq<RawPartitionView>, i: int)
    requires
        0 <= i < listed.len(),
    ensures
        normalized_partitions(listed).contains(described(listed[i])),
        described(listed[i]).id == listed[i].id,
        described(listed[i]).error is Some <==> listed[i].error is Some,
        described(listed[i]).error matches Some(text) ==> text.len() > 0,
{
    if let Some(code) = listed[i].error {
        lemma_error_text_nonempty(code);
    }
    let all = described_all(listed);
    assert(all[i] == described(listed[i]));
    assert(all.contains(described(listed[i])));
    lemma_sorted_partitions_members(all, described(listed[i]));
}

/// Converts one listed partition.
pub fn describe_partition(raw: &RawPartition) -> (p: Partition)
    ensures
        p@ == described(raw@),
        p@.error matches Some(text) ==> text.len() > 0,
{
    let error = match raw.error {
        Some(code) => Some(describe_error(code)),
        None => None,
    };
    Partition {
        id: raw.id,
        leader: raw.leader,
        replicas: copy_ids(&raw.replicas),
        isr: copy_ids(&raw.isr),
        error,
    }
}

/// Converts the partitions of one topic and sorts them by identifier.
pub fn normalize_partitions(raw: &Vec<RawPartition>) -> (list: Vec<Partition>)
    ensures
        views(list@) == normalized_partitions(views(raw@)),
        crate::partition_order::sorted_by_id(views(list@)),
        errors_described(views(list@)),
        list@.len() == raw@.len(),
{
    proof {
        lemma_normalized_partitions_described(views(raw@));
    }
    let mut list: Vec<Partition> = Vec::with_capacity(raw.len());
    let mut i: usize = 0;
    while i < raw.len()
        invariant
            i <= raw.len(),
            views(list@) == described_all(views(raw@)).take(i as int),
        decreases raw.len() - i,
    {
        let p = describe_partition(&raw[i]);
        proof {
            lemma_views_push(list@, p);
            assert(described_all(views(raw@)).take(i as int).push(p@) =~= described_all(
                views(raw@),
            ).take(i as int + 1));
        }
        list.push(p);
        i += 1;
    }
    proof {
        assert(described_all(views(raw@)).take(raw.len() as int) =~= described_all(views(raw@)));
    }
    sort_by_id(&mut list);
    list
}

/// Converts the listed brokers, in the order of the listing.
pub fn normalize_brokers(raw: &Vec<RawBroker>) -> (brokers: Vec<Broker>)
    ensures
        views(brokers@) == views(raw@),
{
    let mut brokers: Vec<Broker> = Vec::new();
    let mut i: usize = 0;
    while i < raw.len()
        invariant
            i <= raw.len(),
            views(brokers@) == views(raw@).take(i as int),
        decreases raw.len() - i,
    {
        let b = Broker::new(raw[i].id, raw[i].host.clone(), raw[i].port);
        proof {
            lemma_views_push(brokers@, b);
            assert(views(raw@).take(i as int).push(b@) =~= views(raw@).take(i as int + 1));
        }
        brokers.push(b);
        i += 1;
    }
    proof {
        assert(views(raw@).take(raw.len() as int) =~= views(raw@));
    }
    brokers
}

/// Converts the listed topics into the topics of a snapshot.
pub fn normalize_topics(raw: &Vec<RawTopic>) -> (topics: TopicMap)
    ensures
        topics@ == normalized_topics(views(raw@)),
        every_list_sorted(topics@),
        every_error_described(topics@),
{
    proof {
        lemma_normalized_topics_described(views(raw@));
    }
    let mut topics = TopicMap::new();
    let mut i: usize = 0;
    while i < raw.len()
        invariant
            i <= raw.len(),
            topics@ == normalized_topics(views(raw@).take(i as int)),
        decreases raw.len() - i,
    {
        let partitions = normalize_partitions(&raw[i].partitions);
        proof {
            let next = views(raw@).take(i as int + 1);
            assert(next.drop_last() =~= views(raw@).take(i as int));
            assert(next.last() == raw@[i as int]@);
        }
        topics.insert(raw[i].name.clone(), partitions);
        i += 1;
    }
    proof {
        assert(views(raw@).take(raw.len() as int) =~= views(raw@));
        lemma_normalized_topics_sorted(views(raw@));
    }
    topics
}

/// The snapshot that a topology answer gives at `refresh_time`.
pub fn metadata_of(raw: &RawTopology, refresh_time: Timestamp) -> (m: Metadata)
    ensures
        m@ == normalized_metadata(raw@, refresh_time),
        every_list_sorted(m@.topics),
        every_error_described(m@.topics),
{
    let brokers = normalize_brokers(&raw.brokers);
    let topics = normalize_topics(&raw.topics);
    Metadata::at(brokers, topics, refresh_time)
}

/// Converts one listed topic: its name and its sorted partition list.
pub fn normalize_topic(raw: &RawTopic) -> (r: (TopicName, Vec<Partition>))
    ensures
        r.0@ == raw@.name,
        views(r.1@) == normalized_partitions(raw@.partitions),
        errors_described(views(r.1@)),
{
    (raw.name.clone(), normalize_partitions(&raw.partitions))
}

/// Converts one listed group member.
pub fn normalize_member(raw: &RawGroupMember) -> (m: GroupMember)
    ensures
        m@ == raw@,
{
    GroupMember {
        id: raw.id.clone(),
        client_id: raw.client_id.clone(),
        client_host: raw.client_host.clone(),
    }
}

/// Converts one listed group, with its members in the order of the listing.
pub fn normalize_group(raw: &RawGroup) -> (g: Group)
    ensures
        g@ == raw@,
{
    let mut members: Vec<GroupMember> = Vec::new();
    let mut i: usize = 0;
    while i < raw.members.len()
        invariant
            i <= raw.members.len(),
            views(members@) == views(raw.members@).take(i as int),
        decreases raw.members.len() - i,
    {
        let m = normalize_member(&raw.members[i]);
        proof {
            lemma_views_push(members@, m);
            assert(views(raw.members@).take(i as int).push(m@) =~= views(raw.members@).take(
                i as int + 1,
            ));
        }
        members.push(m);
        i += 1;
    }
    proof {
        assert(views(raw.members@).take(raw.members.len() as int) =~= views(raw.members@));
    }
    Group { name: raw.name.clone(), state: raw.state.clone(), members }
}

/// Converts the listed groups, in the order of the listing.
pub fn groups_of(raw: &Vec<RawGroup>) -> (groups: Vec<Group>)
    ensures
        views(groups@) == views(raw@),
{
    let mut groups: Vec<Group> = Vec::new();
    let mut i: usize = 0;
    while i < raw.len()
        invariant
            i <= raw.len(),
            views(groups@) == views(raw@).take(i as int),
        decreases raw.len() - i,
    {
        let g = normalize_group(&raw[i]);
        proof {
            lemma_views_push(groups@, g);
            assert(views(raw@).take(i as int).push(g@) =~= views(raw@).take(i as int + 1));
        }
        groups.push(g);
        i += 1;
    }
    proof {
        assert(views(raw@).take(raw.len() as int) =~= views(raw@));
    }
    groups
}

} // verus!
