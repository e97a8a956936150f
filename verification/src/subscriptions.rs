//! The subscriptions a broker keeps for each of its consumer topics, and the notifications
//! that an incoming message on such a topic turns into.
use vstd::prelude::*;
use vstd::string::*;
use crate::config::{ClientTopicsConfiguration, last_match};
use std::collections::HashMap;
use crate::structs::{
    BackendStatusCodes, BackendToRestContext, HttpMethod, MessagingResult, RESTRequestParams,
    SubscribeRequest, SubscribeRequestView, subscribe_request_text,
};
use crate::text::{decimal, decimal_string};

verus! {

/// The position of the first occurrence of `x` in `s`, or -1.
pub open spec fn first_index<A>(s: Seq<A>, x: A) -> int
    decreases s.len(),
{
    if s.len() == 0 {
        -1
    } else if s[0] == x {
        0
    } else {
        let r = first_index(s.drop_first(), x);
        if r < 0 {
            -1
        } else {
            r + 1
        }
    }
}

pub proof fn lemma_first_index_found<A>(s: Seq<A>, x: A, i: int)
    requires
        0 <= i < s.len(),
        s[i] == x,
        forall|j: int| 0 <= j < i ==> s[j] != x,
    ensures
        first_index(s, x) == i,
    decreases s.len(),
{
    if i > 0 {
        assert forall|j: int| 0 <= j < i - 1 implies s.drop_first()[j] != x by {
            assert(s.drop_first()[j] == s[j + 1]);
        }
        lemma_first_index_found(s.drop_first(), x, i - 1);
    }
}

pub proof fn lemma_first_index_absent<A>(s: Seq<A>, x: A)
    requires
        forall|j: int| 0 <= j < s.len() ==> s[j] != x,
    ensures
        first_index(s, x) == -1,
    decreases s.len(),
{
    if s.len() > 0 {
        assert forall|j: int| 0 <= j < s.drop_first().len() implies s.drop_first()[j] != x by {
            assert(s.drop_first()[j] == s[j + 1]);
        }
        lemma_first_index_absent(s.drop_first(), x);
    }
}

pub proof fn lemma_first_index_props<A>(s: Seq<A>, x: A)
    ensures
        -1 <= first_index(s, x) < s.len(),
        first_index(s, x) >= 0 ==> s[first_index(s, x)] == x,
        first_index(s, x) == -1 <==> !s.contains(x),
    decreases s.len(),
{
    if s.len() > 0 && s[0] != x {
        lemma_first_index_props(s.drop_first(), x);
        if s.contains(x) {
            let j = choose|j: int| 0 <= j < s.len() && s[j] == x;
            assert(j > 0);
            assert(s.drop_first()[j - 1] == x);
        }
        if s.drop_first().contains(x) {
            let j = choose|j: int| 0 <= j < s.drop_first().len() && s.drop_first()[j] == x;
            assert(s[j + 1] == x);
        }
    } else if s.len() > 0 {
        assert(s[0] == x);
    }
}

/// The subscriptions of one backend topic, in the order they were made.
pub type TopicEntry = (Seq<char>, Seq<SubscribeRequestView>);

/// The topics of a registry, in order.
pub open spec fn topics_of(s: Seq<TopicEntry>) -> Seq<Seq<char>> {
    s.map_values(|e: TopicEntry| e.0)
}

/// The position of a topic's entry, or -1.
pub open spec fn topic_index(s: Seq<TopicEntry>, topic: Seq<char>) -> int {
    first_index(topics_of(s), topic)
}

pub open spec fn no_duplicates_in<A>(s: Seq<A>) -> bool {
    forall|i: int, j: int| 0 <= i < s.len() && 0 <= j < s.len() && i != j ==> s[i] != s[j]
}

/// A registry is well formed when each topic appears once and each of its lists is
/// non-empty and holds no subscription twice.
pub open spec fn registry_wf(s: Seq<TopicEntry>) -> bool {
    &&& no_duplicates_in(topics_of(s))
    &&& forall|i: int| 0 <= i < s.len() ==> #[trigger] s[i].1.len() > 0 && no_duplicates_in(s[i].1)
}

/// Whether `k` is subscribed to `topic`.
pub open spec fn is_subscribed(s: Seq<TopicEntry>, topic: Seq<char>, k: SubscribeRequestView) -> bool {
    topic_index(s, topic) >= 0 && s[topic_index(s, topic)].1.contains(k)
}

/// The registry after `k` subscribes to `topic`: appended to its list unless already there;
/// a topic seen for the first time gets a list of its own.
pub open spec fn spec_subscribe(s: Seq<TopicEntry>, topic: Seq<char>, k: SubscribeRequestView) -> Seq<TopicEntry> {
    let i = topic_index(s, topic);
    if i >= 0 {
        if s[i].1.contains(k) {
            s
        } else {
            s.update(i, (topic, s[i].1.push(k)))
        }
    } else {
        s.push((topic, seq![k]))
    }
}

/// The registry after `k` unsubscribes from `topic`; a topic left without subscriptions is
/// dropped.
pub open spec fn spec_unsubscribe(s: Seq<TopicEntry>, topic: Seq<char>, k: SubscribeRequestView) -> Seq<TopicEntry> {
    let i = topic_index(s, topic);
    if i >= 0 && s[i].1.contains(k) {
        let rest = s[i].1.remove(first_index(s[i].1, k));
        if rest.len() == 0 {
            s.remove(i)
        } else {
            s.update(i, (topic, rest))
        }
    } else {
        s
    }
}

/// The `{b} has {n} susbscriptions for topic {t}` message.
pub open spec fn count_message(broker: Seq<char>, n: nat, client_topic: Seq<char>) -> Seq<char> {
    broker + " has "@ + decimal(n) + " susbscriptions for topic "@ + client_topic
}

pub open spec fn first_subscription_message(broker: Seq<char>, client_topic: Seq<char>) -> Seq<char> {
    broker + " has one susbscription for topic "@ + client_topic
}

pub open spec fn duplicate_message(broker: Seq<char>, client_topic: Seq<char>) -> Seq<char> {
    broker + ": Duplicate subscription for topic "@ + client_topic
}

pub open spec fn no_topic_message(broker: Seq<char>, client_topic: Seq<char>) -> Seq<char> {
    broker + " has no topic "@ + client_topic
}

pub open spec fn no_subscription_message(broker: Seq<char>, client_topic: Seq<char>) -> Seq<char> {
    broker + " has no subscription for topic "@ + client_topic
}

/// A status seen through the text it carries.
pub enum StatusView {
    OK(Seq<char>),
    Error(Seq<char>),
    NoTopic(Seq<char>),
    NoService(Seq<char>),
}

pub open spec fn status_view(s: BackendStatusCodes) -> StatusView {
    match s {
        BackendStatusCodes::OK(m) => StatusView::OK(m@),
        BackendStatusCodes::Error(m) => StatusView::Error(m@),
        BackendStatusCodes::NoTopic(m) => StatusView::NoTopic(m@),
        BackendStatusCodes::NoService(m) => StatusView::NoService(m@),
    }
}

/// The status a subscribe request is answered with, given the registry before it and the
/// backend topic that its client topic maps to.
pub open spec fn subscribe_status(
    s: Seq<TopicEntry>,
    topic: Option<Seq<char>>,
    k: SubscribeRequestView,
    broker: Seq<char>,
) -> StatusView {
    match topic {
        None => StatusView::NoTopic(no_topic_message(broker, k.client_topic)),
        Some(t) => {
            let i = topic_index(s, t);
            if i >= 0 {
                if s[i].1.contains(k) {
                    StatusView::NoTopic(duplicate_message(broker, k.client_topic))
                } else {
                    StatusView::OK(count_message(broker, s[i].1.len() + 1, k.client_topic))
                }
            } else {
                StatusView::OK(first_subscription_message(broker, k.client_topic))
            }
        },
    }
}

/// The status an unsubscribe request is answered with; `None` where the broker sends no
/// answer at all (the backend topic has no subscriptions).
pub open spec fn unsubscribe_status(
    s: Seq<TopicEntry>,
    topic: Option<Seq<char>>,
    k: SubscribeRequestView,
    broker: Seq<char>,
) -> Option<StatusView> {
    match topic {
        None => Some(StatusView::NoTopic(no_topic_message(broker, k.client_topic))),
        Some(t) => {
            let i = topic_index(s, t);
            if i >= 0 {
                if s[i].1.contains(k) {
                    Some(StatusView::OK(count_message(broker, (s[i].1.len() - 1) as nat, k.client_topic)))
                } else {
                    Some(StatusView::NoTopic(no_subscription_message(broker, k.client_topic)))
                }
            } else {
                None
            }
        },
    }
}

proof fn lemma_topics_update(s: Seq<TopicEntry>, i: int, e: TopicEntry)
    requires
        0 <= i < s.len(),
        e.0 == s[i].0,
    ensures
        topics_of(s.update(i, e)) == topics_of(s),
{
    assert(topics_of(s.update(i, e)) =~= topics_of(s));
}

proof fn lemma_topic_index_push(s: Seq<TopicEntry>, e: TopicEntry)
    requires
        topic_index(s, e.0) == -1,
    ensures
        topic_index(s.push(e), e.0) == s.len(),
{
    lemma_first_index_props(topics_of(s), e.0);
    assert(topics_of(s.push(e)) =~= topics_of(s).push(e.0));
    assert forall|j: int| 0 <= j < s.len() implies topics_of(s.push(e))[j] != e.0 by {
        assert(topics_of(s.push(e))[j] == topics_of(s)[j]);
    }
    lemma_first_index_found(topics_of(s.push(e)), e.0, s.len() as int);
}

proof fn lemma_first_index_push<A>(l: Seq<A>, x: A)
    requires
        !l.contains(x),
    ensures
        first_index(l.push(x), x) == l.len(),
{
    assert forall|j: int| 0 <= j < l.len() implies l.push(x)[j] != x by {
        assert(l.push(x)[j] == l[j]);
    }
    lemma_first_index_found(l.push(x), x, l.len() as int);
}

/// Unsubscribing right after a subscription that was not there before gives the registry back
/// as it was.
pub proof fn law_unsubscribe_undoes_subscribe(s: Seq<TopicEntry>, topic: Seq<char>, k: SubscribeRequestView)
    requires
        registry_wf(s),
        !is_subscribed(s, topic, k),
    ensures
        spec_unsubscribe(spec_subscribe(s, topic, k), topic, k) == s,
{
    let i = topic_index(s, topic);
    lemma_first_index_props(topics_of(s), topic);
    if i >= 0 {
        let l = s[i].1;
        assert(topics_of(s)[i] == s[i].0);
        let s1 = s.update(i, (topic, l.push(k)));
        lemma_topics_update(s, i, (topic, l.push(k)));
        assert(s1[i].1.contains(k)) by {
            assert(s1[i].1[l.len() as int] == k);
        }
        lemma_first_index_push(l, k);
        assert(l.push(k).remove(l.len() as int) =~= l);
        assert(s[i].1.len() > 0);
        assert(s1.update(i, (topic, l)) =~= s);
    } else {
        let s1 = s.push((topic, seq![k]));
        lemma_topic_index_push(s, (topic, seq![k]));
        assert(s1[s.len() as int].1.contains(k)) by {
            assert(s1[s.len() as int].1[0] == k);
        }
        assert(first_index(seq![k], k) == 0);
        assert(seq![k].remove(0).len() == 0);
        assert(s1.remove(s.len() as int) =~= s);
    }
}

/// The number of subscriptions a topic has.
pub open spec fn subscription_count(s: Seq<TopicEntry>, topic: Seq<char>) -> nat {
    if topic_index(s, topic) >= 0 {
        s[topic_index(s, topic)].1.len()
    } else {
        0
    }
}

/// Unsubscribing right after a subscription that was not there before is answered with the
/// number of subscriptions the topic had before both.
pub proof fn law_unsubscribe_after_subscribe_reports_count(
    s: Seq<TopicEntry>,
    topic: Seq<char>,
    k: SubscribeRequestView,
    broker: Seq<char>,
)
    requires
        registry_wf(s),
        !is_subscribed(s, topic, k),
    ensures
        unsubscribe_status(spec_subscribe(s, topic, k), Some(topic), k, broker) == Some(
            StatusView::OK(count_message(broker, subscription_count(s, topic), k.client_topic)),
        ),
{
    let i = topic_index(s, topic);
    lemma_first_index_props(topics_of(s), topic);
    if i >= 0 {
        let l = s[i].1;
        assert(topics_of(s)[i] == s[i].0);
        let s1 = s.update(i, (topic, l.push(k)));
        lemma_topics_update(s, i, (topic, l.push(k)));
        assert(topic_index(s1, topic) == i);
        assert(s1[i].1.contains(k)) by {
            assert(s1[i].1[l.len() as int] == k);
        }
        assert((s1[i].1.len() - 1) as nat == l.len());
    } else {
        let s1 = s.push((topic, seq![k]));
        lemma_topic_index_push(s, (topic, seq![k]));
        assert(s1[s.len() as int].1.contains(k)) by {
            assert(s1[s.len() as int].1[0] == k);
        }
        assert((s1[s.len() as int].1.len() - 1) as nat == 0);
    }
}

/// Subscribing the same request twice leaves the registry as one subscription does, and the
/// second request is answered as a duplicate.
pub proof fn law_subscribe_is_idempotent(s: Seq<TopicEntry>, topic: Seq<char>, k: SubscribeRequestView, broker: Seq<char>)
    requires
        registry_wf(s),
    ensures
        spec_subscribe(spec_subscribe(s, topic, k), topic, k) == spec_subscribe(s, topic, k),
        subscribe_status(spec_subscribe(s, topic, k), Some(topic), k, broker) == StatusView::NoTopic(
            duplicate_message(broker, k.client_topic),
        ),
{
    law_subscribed_after_subscribe(s, topic, k);
}

/// After a subscribe, the request is subscribed to its topic.
pub proof fn law_subscribed_after_subscribe(s: Seq<TopicEntry>, topic: Seq<char>, k: SubscribeRequestView)
    ensures
        is_subscribed(spec_subscribe(s, topic, k), topic, k),
{
    let i = topic_index(s, topic);
    lemma_first_index_props(topics_of(s), topic);
    if i >= 0 {
        assert(topics_of(s)[i] == s[i].0);
        let l = s[i].1;
        if !l.contains(k) {
            lemma_topics_update(s, i, (topic, l.push(k)));
            assert(l.push(k)[l.len() as int] == k);
        }
    } else {
        lemma_topic_index_push(s, (topic, seq![k]));
        assert(seq![k][0] == k);
    }
}

/// After an unsubscribe, the request is no longer subscribed to its topic.
pub proof fn law_unsubscribed_after_unsubscribe(s: Seq<TopicEntry>, topic: Seq<char>, k: SubscribeRequestView)
    requires
        registry_wf(s),
    ensures
        !is_subscribed(spec_unsubscribe(s, topic, k), topic, k),
{
    let i = topic_index(s, topic);
    lemma_first_index_props(topics_of(s), topic);
    if i >= 0 && s[i].1.contains(k) {
        assert(topics_of(s)[i] == s[i].0);
        let l = s[i].1;
        lemma_first_index_props(l, k);
        let j = first_index(l, k);
        let rest = l.remove(j);
        if rest.len() == 0 {
            let s1 = s.remove(i);
            lemma_first_index_props(topics_of(s1), topic);
            if topic_index(s1, topic) >= 0 {
                let a = topic_index(s1, topic);
                let aa = if a < i { a } else { a + 1 };
                assert(topics_of(s1)[a] == s1[a].0);
                assert(s1[a] == s[aa]);
                assert(topics_of(s)[aa] == topic);
                assert(topics_of(s)[i] == topic);
            }
        } else {
            lemma_topics_update(s, i, (topic, rest));
            if rest.contains(k) {
                let x = choose|x: int| 0 <= x < rest.len() && rest[x] == k;
                let xx = if x < j { x } else { x + 1 };
                assert(rest[x] == l[xx]);
                assert(l[j] == k);
            }
        }
    } else {
    }
}

proof fn lemma_first_index_unique<A>(l: Seq<A>, x: A, j: int)
    requires
        no_duplicates_in(l),
        0 <= j < l.len(),
        l[j] == x,
    ensures
        first_index(l, x) == j,
{
    lemma_first_index_found(l, x, j);
}

proof fn lemma_first_index_push_other<A>(l: Seq<A>, x: A, y: A)
    requires
        x != y,
    ensures
        first_index(l.push(x), y) == first_index(l, y),
{
    lemma_first_index_props(l, y);
    let a = first_index(l, y);
    if a >= 0 {
        lemma_first_index_props(l.push(x), y);
        let b = first_index(l.push(x), y);
        assert(l.push(x)[a] == y);
        if b < a {
            assert(l[b] == y);
            assert forall|c: int| 0 <= c < b implies l[c] != y by {
                if l[c] == y {
                    lemma_first_index_props(l.push(x), y);
                    assert(l.push(x)[c] == y);
                    // a first occurrence before b would contradict b's minimality
                    lemma_first_index_min(l.push(x), y, c);
                }
            }
            lemma_first_index_found(l, y, b);
        } else {
            assert forall|c: int| 0 <= c < a implies l.push(x)[c] != y by {
                assert(l.push(x)[c] == l[c]);
                if l[c] == y {
                    lemma_first_index_min(l, y, c);
                }
            }
            lemma_first_index_found(l.push(x), y, a);
        }
    } else {
        assert forall|c: int| 0 <= c < l.push(x).len() implies l.push(x)[c] != y by {
            if c < l.len() {
                assert(l.push(x)[c] == l[c]);
                assert(l.contains(l[c]));
            }
        }
        lemma_first_index_absent(l.push(x), y);
    }
}

pub proof fn lemma_first_index_min<A>(l: Seq<A>, x: A, c: int)
    requires
        0 <= c < l.len(),
        l[c] == x,
    ensures
        0 <= first_index(l, x) <= c,
    decreases l.len(),
{
    if l[0] != x {
        assert(l.drop_first()[c - 1] == x);
        lemma_first_index_min(l.drop_first(), x, c - 1);
    }
}

/// Subscribing to or unsubscribing from one topic leaves the subscriptions of every other
/// topic as they were.
pub proof fn law_other_topics_untouched(
    s: Seq<TopicEntry>,
    topic: Seq<char>,
    k: SubscribeRequestView,
    other: Seq<char>,
    m: SubscribeRequestView,
)
    requires
        registry_wf(s),
        other != topic,
    ensures
        is_subscribed(spec_subscribe(s, topic, k), other, m) == is_subscribed(s, other, m),
        is_subscribed(spec_unsubscribe(s, topic, k), other, m) == is_subscribed(s, other, m),
{
    let i = topic_index(s, topic);
    let a = topic_index(s, other);
    lemma_first_index_props(topics_of(s), topic);
    lemma_first_index_props(topics_of(s), other);
    if i >= 0 {
        assert(topics_of(s)[i] == s[i].0);
    }
    if a >= 0 {
        assert(topics_of(s)[a] == s[a].0);
    }
    // subscribe
    if i >= 0 {
        if !s[i].1.contains(k) {
            lemma_topics_update(s, i, (topic, s[i].1.push(k)));
        }
    } else {
        let s1 = s.push((topic, seq![k]));
        assert(topics_of(s1) =~= topics_of(s).push(topic));
        lemma_first_index_push_other(topics_of(s), topic, other);
        if a >= 0 {
            assert(s1[a] == s[a]);
        }
    }
    // unsubscribe
    if i >= 0 && s[i].1.contains(k) {
        let l = s[i].1;
        let rest = l.remove(first_index(l, k));
        if rest.len() == 0 {
            let s1 = s.remove(i);
            assert(topics_of(s1) =~= topics_of(s).remove(i));
            assert(no_duplicates_in(topics_of(s1))) by {
                assert forall|x: int, y: int| 0 <= x < topics_of(s1).len() && 0 <= y < topics_of(s1).len() && x != y implies topics_of(s1)[x] != topics_of(s1)[y] by {
                    let xx = if x < i { x } else { x + 1 };
                    let yy = if y < i { y } else { y + 1 };
                    assert(topics_of(s1)[x] == topics_of(s)[xx]);
                    assert(topics_of(s1)[y] == topics_of(s)[yy]);
                }
            }
            if a >= 0 {
                let b = if a < i { a } else { a - 1 };
                assert(topics_of(s1)[b] == other);
                lemma_first_index_unique(topics_of(s1), other, b);
                assert(s1[b] == s[a]);
            } else {
                lemma_first_index_props(topics_of(s1), other);
                if topic_index(s1, other) >= 0 {
                    let b = topic_index(s1, other);
                    let bb = if b < i { b } else { b + 1 };
                    assert(topics_of(s1)[b] == topics_of(s)[bb]);
                    assert(topics_of(s).contains(other));
                }
            }
        } else {
            lemma_topics_update(s, i, (topic, rest));
        }
    }
}

/// One backend topic and its subscriptions.
pub struct TopicSubscriptions {
    pub topic: String,
    pub subscribers: Vec<SubscribeRequest>,
}

/// A broker's subscriptions, per backend topic.
pub struct Subscriptions {
    entries: Vec<TopicSubscriptions>,
}

pub open spec fn subscribers_view(v: Seq<SubscribeRequest>) -> Seq<SubscribeRequestView> {
    v.map_values(|r: SubscribeRequest| r@)
}

impl View for Subscriptions {
    type V = Seq<TopicEntry>;

    closed spec fn view(&self) -> Seq<TopicEntry> {
        self.entries@.map_values(|e: TopicSubscriptions| (e.topic@, subscribers_view(e.subscribers@)))
    }
}

/// A copy of a byte buffer.
pub fn copy_bytes(v: &Vec<u8>) -> (r: Vec<u8>)
    ensures
        r@ == v@,
{
    let mut out: Vec<u8> = Vec::new();
    let mut i: usize = 0;
    while i < v.len()
        invariant
            i <= v@.len(),
            out@ == v@.take(i as int),
        decreases v@.len() - i,
    {
        out.push(v[i]);
        i = i + 1;
        assert(out@ =~= v@.take(i as int));
    }
    assert(v@.take(v@.len() as int) =~= v@);
    out
}

fn status_message(prefix: &str, middle: &str, suffix: &str) -> (r: String)
    ensures
        r@ == prefix@ + middle@ + suffix@,
{
    let mut s = String::from_str(prefix);
    s.append(middle);
    s.append(suffix);
    s
}

impl Subscriptions {
    pub open spec fn wf(&self) -> bool {
        registry_wf(self@)
    }

    /// A registry with no subscriptions.
    pub fn new() -> (r: Subscriptions)
        ensures
            r@ == Seq::<TopicEntry>::empty(),
            r.wf(),
    {
        let r = Subscriptions { entries: Vec::new() };
        assert(r@ =~= Seq::<TopicEntry>::empty());
        r
    }

    fn find_topic(&self, topic: &String) -> (r: Option<usize>)
        ensures
            match r {
                Some(i) => topic_index(self@, topic@) == i as int && i < self@.len(),
                None => topic_index(self@, topic@) == -1,
            },
    {
        let ghost keys = topics_of(self@);
        let mut i: usize = 0;
        while i < self.entries.len()
            invariant
                i <= self.entries@.len(),
                keys == topics_of(self@),
                keys.len() == self.entries@.len(),
                forall|j: int| 0 <= j < i ==> keys[j] != topic@,
            decreases self.entries@.len() - i,
        {
            assert(keys[i as int] == self.entries@[i as int].topic@);
            if self.entries[i].topic == *topic {
                proof { lemma_first_index_found(keys, topic@, i as int); }
                return Some(i);
            }
            i = i + 1;
        }
        proof { lemma_first_index_absent(keys, topic@); }
        None
    }

    fn find_subscriber(list: &Vec<SubscribeRequest>, req: &SubscribeRequest) -> (r: Option<usize>)
        ensures
            match r {
                Some(i) => first_index(subscribers_view(list@), req@) == i as int && i < list@.len(),
                None => first_index(subscribers_view(list@), req@) == -1,
            },
    {
        let ghost vs = subscribers_view(list@);
        let mut i: usize = 0;
        while i < list.len()
            invariant
                i <= list@.len(),
                vs == subscribers_view(list@),
                vs.len() == list@.len(),
                forall|j: int| 0 <= j < i ==> vs[j] != req@,
            decreases list@.len() - i,
        {
            if list[i].same_subscription(req) {
                proof { lemma_first_index_found(vs, req@, i as int); }
                return Some(i);
            }
            i = i + 1;
        }
        proof { lemma_first_index_absent(vs, req@); }
        None
    }

    /// Registers `req` with the backend topic its client topic maps to, and says how it went,
    /// as a broker answers a subscribe job.
    pub fn subscribe<C: ClientTopicsConfiguration>(
        &mut self,
        config: &C,
        broker_type: &str,
        req: SubscribeRequest,
    ) -> (r: MessagingResult)
        requires
            old(self).wf(),
        ensures
            final(self).wf(),
            final(self)@ == match last_match(config.consumer_topic_pairs(), req.client_topic@) {
                Some(t) => spec_subscribe(old(self)@, t, req@),
                None => old(self)@,
            },
            r.correlation_id@ == req.correlation_id@,
            status_view(r.status) == subscribe_status(
                old(self)@,
                last_match(config.consumer_topic_pairs(), req.client_topic@),
                req@,
                broker_type@,
            ),
    {
        let correlation_id = req.correlation_id.clone();
        let client_topic = req.client_topic.clone();
        let maybe_topic = config.get_consumer_topic_for_client_topic(req.client_topic.as_str());
        match maybe_topic {
            None => {
                MessagingResult {
                    correlation_id,
                    status: BackendStatusCodes::NoTopic(
                        status_message(broker_type, " has no topic ", client_topic.as_str()),
                    ),
                }
            },
            Some(topic) => {
                let ghost s0 = self@;
                proof { lemma_first_index_props(topics_of(s0), topic@); }
                match self.find_topic(&topic) {
                    Some(i) => {
                        let ghost old_list = s0[i as int].1;
                        proof { assert(old_list == subscribers_view(self.entries@[i as int].subscribers@)); }
                        match Self::find_subscriber(&self.entries[i].subscribers, &req) {
                            Some(_) => {
                                proof { lemma_first_index_props(old_list, req@); }
                                MessagingResult {
                                    correlation_id,
                                    status: BackendStatusCodes::NoTopic(
                                        status_message(broker_type, ": Duplicate subscription for topic ", client_topic.as_str()),
                                    ),
                                }
                            },
                            None => {
                                proof { lemma_first_index_props(old_list, req@); }
                                let mut entry = self.entries.remove(i);
                                entry.subscribers.push(req);
                                let n = entry.subscribers.len();
                                self.entries.insert(i, entry);
                                proof {
                                    let s1 = self@;
                                    assert(s1 =~= s0.update(i as int, (topic@, old_list.push(req@)))) by {
                                        assert(subscribers_view(entry.subscribers@) =~= old_list.push(req@));
                                    }
                                    assert(topics_of(s1) =~= topics_of(s0));
                                    assert forall|a: int| 0 <= a < s1.len() implies #[trigger] s1[a].1.len() > 0 && no_duplicates_in(s1[a].1) by {
                                        if a == i {
                                            assert forall|x: int, y: int| 0 <= x < s1[a].1.len() && 0 <= y < s1[a].1.len() && x != y implies s1[a].1[x] != s1[a].1[y] by {
                                                if x < old_list.len() && y < old_list.len() {
                                                } else if x < old_list.len() {
                                                    assert(old_list.contains(s1[a].1[x]));
                                                } else {
                                                    assert(old_list.contains(s1[a].1[y]));
                                                }
                                            }
                                        } else {
                                            assert(s1[a] == s0[a]);
                                        }
                                    }
                                }
                                let mut msg = String::from_str(broker_type);
                                msg.append(" has ");
                                let count = decimal_string(n);
                                msg.append(count.as_str());
                                msg.append(" susbscriptions for topic ");
                                msg.append(client_topic.as_str());
                                MessagingResult { correlation_id, status: BackendStatusCodes::OK(msg) }
                            },
                        }
                    },
                    None => {
                        let mut list: Vec<SubscribeRequest> = Vec::new();
                        list.push(req);
                        self.entries.push(TopicSubscriptions { topic, subscribers: list });
                        proof {
                            let s1 = self@;
                            assert(s1 =~= s0.push((topic@, seq![req@]))) by {
                                assert(subscribers_view(list@) =~= seq![req@]);
                            }
                            assert(topics_of(s1) =~= topics_of(s0).push(topic@));
                            assert forall|a: int| 0 <= a < s1.len() implies #[trigger] s1[a].1.len() > 0 && no_duplicates_in(s1[a].1) by {
                                if a < s0.len() {
                                    assert(s1[a] == s0[a]);
                                }
                            }
                        }
                        MessagingResult {
                            correlation_id,
                            status: BackendStatusCodes::OK(
                                status_message(broker_type, " has one susbscription for topic ", client_topic.as_str()),
                            ),
                        }
                    },
                }
            },
        }
    }

    /// Removes `req` from the backend topic its client topic maps to, as a broker answers an
    /// unsubscribe job; `None` where the broker sends no answer.
    pub fn unsubscribe<C: ClientTopicsConfiguration>(
        &mut self,
        config: &C,
        broker_type: &str,
        req: SubscribeRequest,
    ) -> (r: Option<MessagingResult>)
        requires
            old(self).wf(),
        ensures
            final(self).wf(),
            final(self)@ == match last_match(config.consumer_topic_pairs(), req.client_topic@) {
                Some(t) => spec_unsubscribe(old(self)@, t, req@),
                None => old(self)@,
            },
            match r {
                Some(m) => m.correlation_id@ == req.correlation_id@ && unsubscribe_status(
                    old(self)@,
                    last_match(config.consumer_topic_pairs(), req.client_topic@),
                    req@,
                    broker_type@,
                ) == Some(status_view(m.status)),
                None => unsubscribe_status(
                    old(self)@,
                    last_match(config.consumer_topic_pairs(), req.client_topic@),
                    req@,
                    broker_type@,
                ) is None,
            },
    {
        let correlation_id = req.correlation_id.clone();
        let client_topic = req.client_topic.clone();
        let maybe_topic = config.get_consumer_topic_for_client_topic(req.client_topic.as_str());
        match maybe_topic {
            None => {
                Some(MessagingResult {
                    correlation_id,
                    status: BackendStatusCodes::NoTopic(
                        status_message(broker_type, " has no topic ", client_topic.as_str()),
                    ),
                })
            },
            Some(topic) => {
                let ghost s0 = self@;
                proof { lemma_first_index_props(topics_of(s0), topic@); }
                match self.find_topic(&topic) {
                    None => None,
                    Some(i) => {
                        let ghost old_list = s0[i as int].1;
                        proof { assert(old_list == subscribers_view(self.entries@[i as int].subscribers@)); }
                        match Self::find_subscriber(&self.entries[i].subscribers, &req) {
                            None => {
                                proof { lemma_first_index_props(old_list, req@); }
                                Some(MessagingResult {
                                    correlation_id,
                                    status: BackendStatusCodes::NoTopic(
                                        status_message(broker_type, " has no subscription for topic ", client_topic.as_str()),
                                    ),
                                })
                            },
                            Some(j) => {
                                proof { lemma_first_index_props(old_list, req@); }
                                let mut entry = self.entries.remove(i);
                                let _removed = entry.subscribers.remove(j);
                                let n = entry.subscribers.len();
                                let ghost rest = old_list.remove(j as int);
                                proof {
                                    assert(subscribers_view(entry.subscribers@) =~= rest);
                                    assert(topics_of(s0.remove(i as int)) =~= topics_of(s0).remove(i as int));
                                }
                                if n == 0 {
                                    proof {
                                        let s1 = self@;
                                        assert(s1 =~= s0.remove(i as int));
                                        assert forall|a: int| 0 <= a < s1.len() implies #[trigger] s1[a].1.len() > 0 && no_duplicates_in(s1[a].1) by {
                                            if a < i {
                                                assert(s1[a] == s0[a]);
                                            } else {
                                                assert(s1[a] == s0[a + 1]);
                                            }
                                        }
                                        assert forall|x: int, y: int| 0 <= x < topics_of(s1).len() && 0 <= y < topics_of(s1).len() && x != y implies topics_of(s1)[x] != topics_of(s1)[y] by {
                                            let xx = if x < i { x } else { x + 1 };
                                            let yy = if y < i { y } else { y + 1 };
                                            assert(topics_of(s1)[x] == topics_of(s0)[xx]);
                                            assert(topics_of(s1)[y] == topics_of(s0)[yy]);
                                        }
                                    }
                                } else {
                                    self.entries.insert(i, entry);
                                    proof {
                                        let s1 = self@;
                                        assert(s1 =~= s0.update(i as int, (topic@, rest)));
                                        assert(topics_of(s1) =~= topics_of(s0));
                                        assert forall|a: int| 0 <= a < s1.len() implies #[trigger] s1[a].1.len() > 0 && no_duplicates_in(s1[a].1) by {
                                            if a == i {
                                                assert forall|x: int, y: int| 0 <= x < rest.len() && 0 <= y < rest.len() && x != y implies rest[x] != rest[y] by {
                                                    let xx = if x < j { x } else { x + 1 };
                                                    let yy = if y < j { y } else { y + 1 };
                                                    assert(rest[x] == old_list[xx]);
                                                    assert(rest[y] == old_list[yy]);
                                                }
                                            } else {
                                                assert(s1[a] == s0[a]);
                                            }
                                        }
                                    }
                                }
                                let mut msg = String::from_str(broker_type);
                                msg.append(" has ");
                                let count = decimal_string(n);
                                msg.append(count.as_str());
                                msg.append(" susbscriptions for topic ");
                                msg.append(client_topic.as_str());
                                Some(MessagingResult { correlation_id, status: BackendStatusCodes::OK(msg) })
                            },
                        }
                    },
                }
            },
        }
    }

    /// The notification requests that a message with `payload` arriving on the backend
    /// `topic` turns into: one POST to each subscriber's endpoint, in subscription order,
    /// carrying the subscription's text as correlation id. None where the topic has no
    /// subscriptions.
    pub fn notifications_for(&self, topic: &String, payload: &Vec<u8>) -> (r: Vec<BackendToRestContext>)
        requires
            self.wf(),
        ensures
            topic_index(self@, topic@) < 0 ==> r@.len() == 0,
            topic_index(self@, topic@) >= 0 ==> r@.len() == self@[topic_index(self@, topic@)].1.len(),
            topic_index(self@, topic@) >= 0 ==> forall|k: int| 0 <= k < r@.len() ==> {
                let sub = #[trigger] self@[topic_index(self@, topic@)].1[k];
                &&& r@[k].correlation_id@ == subscribe_request_text(sub)
                &&& r@[k].request_params.uri@ == sub.url
                &&& r@[k].request_params.payload@ == payload@
                &&& r@[k].request_params.method == HttpMethod::POST
                &&& r@[k].request_params.headers@ == Map::<String, String>::empty()
            },
    {
        let mut out: Vec<BackendToRestContext> = Vec::new();
        proof { lemma_first_index_props(topics_of(self@), topic@); }
        match self.find_topic(topic) {
            None => out,
            Some(i) => {
                let list = &self.entries[i].subscribers;
                let ghost vs = subscribers_view(list@);
                assert(vs == self@[i as int].1);
                let mut k: usize = 0;
                while k < list.len()
                    invariant
                        k <= list@.len(),
                        vs == subscribers_view(list@),
                        out@.len() == k,
                        forall|j: int| 0 <= j < k ==> {
                            let sub = #[trigger] vs[j];
                            &&& out@[j].correlation_id@ == subscribe_request_text(sub)
                            &&& out@[j].request_params.uri@ == sub.url
                            &&& out@[j].request_params.payload@ == payload@
                            &&& out@[j].request_params.method == HttpMethod::POST
                            &&& out@[j].request_params.headers@ == Map::<String, String>::empty()
                        },
                    decreases list@.len() - k,
                {
                    let sub = &list[k];
                    let ctx = BackendToRestContext {
                        correlation_id: sub.to_string(),
                        request_params: RESTRequestParams {
                            payload: copy_bytes(payload),
                            uri: sub.endpoint.url.clone(),
                            headers: HashMap::new(),
                            method: HttpMethod::POST,
                        },
                    };
                    out.push(ctx);
                    k = k + 1;
                }
                out
            },
        }
    }
}

} // verus!
