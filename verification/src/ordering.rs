//! The order of subscriptions: by correlation id, then client topic, then endpoint (URL,
//! then client id), then interface type (REST before gRPC). Texts are ordered as `str` orders
//! them, character by character.
use std::cmp::Ordering;
use vstd::prelude::*;
use crate::structs::{CustomerInterfaceType, SubscribeRequest, SubscribeRequestView};

verus! {

/// Comparison outcomes, as numbers: -1 less, 0 equal, 1 greater.
pub open spec fn char_order(a: char, b: char) -> int {
    if a < b {
        -1
    } else if a == b {
        0
    } else {
        1
    }
}

/// The lexicographic order of two texts.
pub open spec fn text_order(a: Seq<char>, b: Seq<char>) -> int
    decreases a.len(),
{
    if a.len() == 0 {
        if b.len() == 0 {
            0
        } else {
            -1
        }
    } else if b.len() == 0 {
        1
    } else if a[0] != b[0] {
        char_order(a[0], b[0])
    } else {
        text_order(a.drop_first(), b.drop_first())
    }
}

pub open spec fn interface_order(a: CustomerInterfaceType, b: CustomerInterfaceType) -> int {
    if a == b {
        0
    } else if a == CustomerInterfaceType::REST {
        -1
    } else {
        1
    }
}

/// The order of two subscriptions.
pub open spec fn subscription_order(a: SubscribeRequestView, b: SubscribeRequestView) -> int {
    if text_order(a.correlation_id, b.correlation_id) != 0 {
        text_order(a.correlation_id, b.correlation_id)
    } else if text_order(a.client_topic, b.client_topic) != 0 {
        text_order(a.client_topic, b.client_topic)
    } else if text_order(a.url, b.url) != 0 {
        text_order(a.url, b.url)
    } else if text_order(a.client_id, b.client_id) != 0 {
        text_order(a.client_id, b.client_id)
    } else {
        interface_order(a.client_interface_type, b.client_interface_type)
    }
}

pub open spec fn order_of(o: Ordering) -> int {
    match o {
        Ordering::Less => -1,
        Ordering::Equal => 0,
        Ordering::Greater => 1,
    }
}

proof fn lemma_text_order_equal(a: Seq<char>, b: Seq<char>)
    ensures
        text_order(a, b) == 0 <==> a == b,
    decreases a.len(),
{
    if a.len() > 0 && b.len() > 0 && a[0] == b[0] {
        lemma_text_order_equal(a.drop_first(), b.drop_first());
        if a.drop_first() == b.drop_first() {
            assert(a =~= seq![a[0]] + a.drop_first());
            assert(b =~= seq![b[0]] + b.drop_first());
        }
    } else if a.len() == 0 && b.len() == 0 {
        assert(a =~= b);
    }
}

fn text_order_of(a: &str, b: &str) -> (r: i8)
    ensures
        r == text_order(a@, b@),
{
    let n = a.unicode_len();
    let m = b.unicode_len();
    let mut i: usize = 0;
    assert(a@.subrange(0, n as int) =~= a@);
    assert(b@.subrange(0, m as int) =~= b@);
    while i < n && i < m
        invariant
            n == a@.len(),
            m == b@.len(),
            i <= n,
            i <= m,
            text_order(a@, b@) == text_order(a@.subrange(i as int, n as int), b@.subrange(i as int, m as int)),
        decreases n - i,
    {
        let ghost x = a@.subrange(i as int, n as int);
        let ghost y = b@.subrange(i as int, m as int);
        let ca = a.get_char(i);
        let cb = b.get_char(i);
        assert(x[0] == ca);
        assert(y[0] == cb);
        if ca < cb {
            return -1;
        }
        if cb < ca {
            return 1;
        }
        assert(x.drop_first() =~= a@.subrange(i + 1, n as int));
        assert(y.drop_first() =~= b@.subrange(i + 1, m as int));
        i = i + 1;
    }
    if i < n {
        1
    } else if i < m {
        -1
    } else {
        assert(a@.subrange(i as int, n as int).len() == 0);
        0
    }
}

proof fn lemma_text_order_range(a: Seq<char>, b: Seq<char>)
    ensures
        -1 <= text_order(a, b) <= 1,
    decreases a.len(),
{
    if a.len() > 0 && b.len() > 0 && a[0] == b[0] {
        lemma_text_order_range(a.drop_first(), b.drop_first());
    }
}

fn compare_text(a: &str, b: &str) -> (r: Ordering)
    ensures
        order_of(r) == text_order(a@, b@),
{
    proof { lemma_text_order_range(a@, b@); }
    let o = text_order_of(a, b);
    if o < 0 {
        Ordering::Less
    } else if o == 0 {
        Ordering::Equal
    } else {
        Ordering::Greater
    }
}

fn compare_interface(a: CustomerInterfaceType, b: CustomerInterfaceType) -> (r: Ordering)
    ensures
        order_of(r) == interface_order(a, b),
{
    match (a, b) {
        (CustomerInterfaceType::REST, CustomerInterfaceType::GRPC) => Ordering::Less,
        (CustomerInterfaceType::GRPC, CustomerInterfaceType::REST) => Ordering::Greater,
        _ => Ordering::Equal,
    }
}

/// Compares two subscriptions in subscription order.
pub fn compare(a: &SubscribeRequest, b: &SubscribeRequest) -> (r: Ordering)
    ensures
        order_of(r) == subscription_order(a@, b@),
{
    match compare_text(a.correlation_id.as_str(), b.correlation_id.as_str()) {
        Ordering::Less => { return Ordering::Less; },
        Ordering::Greater => { return Ordering::Greater; },
        Ordering::Equal => {},
    }
    match compare_text(a.client_topic.as_str(), b.client_topic.as_str()) {
        Ordering::Less => { return Ordering::Less; },
        Ordering::Greater => { return Ordering::Greater; },
        Ordering::Equal => {},
    }
    match compare_text(a.endpoint.url.as_str(), b.endpoint.url.as_str()) {
        Ordering::Less => { return Ordering::Less; },
        Ordering::Greater => { return Ordering::Greater; },
        Ordering::Equal => {},
    }
    match compare_text(a.endpoint.client_id.as_str(), b.endpoint.client_id.as_str()) {
        Ordering::Less => { return Ordering::Less; },
        Ordering::Greater => { return Ordering::Greater; },
        Ordering::Equal => {},
    }
    compare_interface(a.client_interface_type, b.client_interface_type)
}

/// Two subscriptions compare equal exactly when they are the same subscription.
pub proof fn law_order_equal_iff_same(a: SubscribeRequestView, b: SubscribeRequestView)
    ensures
        subscription_order(a, b) == 0 <==> a == b,
{
    lemma_text_order_equal(a.correlation_id, b.correlation_id);
    lemma_text_order_equal(a.client_topic, b.client_topic);
    lemma_text_order_equal(a.url, b.url);
    lemma_text_order_equal(a.client_id, b.client_id);
}

proof fn lemma_text_order_flip(a: Seq<char>, b: Seq<char>)
    ensures
        text_order(a, b) == -text_order(b, a),
    decreases a.len(),
{
    if a.len() > 0 && b.len() > 0 && a[0] == b[0] {
        lemma_text_order_flip(a.drop_first(), b.drop_first());
    }
}

/// Swapping two subscriptions reverses their order.
pub proof fn law_order_antisymmetric(a: SubscribeRequestView, b: SubscribeRequestView)
    ensures
        subscription_order(a, b) == -subscription_order(b, a),
{
    lemma_text_order_flip(a.correlation_id, b.correlation_id);
    lemma_text_order_flip(a.client_topic, b.client_topic);
    lemma_text_order_flip(a.url, b.url);
    lemma_text_order_flip(a.client_id, b.client_id);
}

proof fn lemma_text_order_transitive(a: Seq<char>, b: Seq<char>, c: Seq<char>)
    requires
        text_order(a, b) <= 0,
        text_order(b, c) <= 0,
    ensures
        text_order(a, c) <= 0,
        text_order(a, b) < 0 || text_order(b, c) < 0 ==> text_order(a, c) < 0,
    decreases a.len(),
{
    lemma_text_order_equal(a, b);
    lemma_text_order_equal(b, c);
    if a.len() > 0 && b.len() > 0 && c.len() > 0 && a[0] == b[0] && b[0] == c[0] {
        lemma_text_order_transitive(a.drop_first(), b.drop_first(), c.drop_first());
    }
}

/// Subscription order is transitive: what sorts before something that sorts before a third
/// subscription sorts before that third one too, and strictly so where either step is strict.
pub proof fn law_order_transitive(a: SubscribeRequestView, b: SubscribeRequestView, c: SubscribeRequestView)
    requires
        subscription_order(a, b) <= 0,
        subscription_order(b, c) <= 0,
    ensures
        subscription_order(a, c) <= 0,
        subscription_order(a, b) < 0 || subscription_order(b, c) < 0 ==> subscription_order(a, c) < 0,
{
    lemma_text_order_range(a.correlation_id, b.correlation_id);
    lemma_text_order_range(b.correlation_id, c.correlation_id);
    lemma_text_order_range(a.client_topic, b.client_topic);
    lemma_text_order_range(b.client_topic, c.client_topic);
    lemma_text_order_range(a.url, b.url);
    lemma_text_order_range(b.url, c.url);
    lemma_text_order_range(a.client_id, b.client_id);
    lemma_text_order_range(b.client_id, c.client_id);
    lemma_text_order_equal(a.correlation_id, b.correlation_id);
    lemma_text_order_equal(b.correlation_id, c.correlation_id);
    lemma_text_order_equal(a.client_topic, b.client_topic);
    lemma_text_order_equal(b.client_topic, c.client_topic);
    lemma_text_order_equal(a.url, b.url);
    lemma_text_order_equal(b.url, c.url);
    lemma_text_order_equal(a.client_id, b.client_id);
    lemma_text_order_equal(b.client_id, c.client_id);
    if text_order(a.correlation_id, b.correlation_id) <= 0 && text_order(b.correlation_id, c.correlation_id) <= 0 {
        lemma_text_order_transitive(a.correlation_id, b.correlation_id, c.correlation_id);
    }
    if text_order(a.client_topic, b.client_topic) <= 0 && text_order(b.client_topic, c.client_topic) <= 0 {
        lemma_text_order_transitive(a.client_topic, b.client_topic, c.client_topic);
    }
    if text_order(a.url, b.url) <= 0 && text_order(b.url, c.url) <= 0 {
        lemma_text_order_transitive(a.url, b.url, c.url);
    }
    if text_order(a.client_id, b.client_id) <= 0 && text_order(b.client_id, c.client_id) <= 0 {
        lemma_text_order_transitive(a.client_id, b.client_id, c.client_id);
    }
}

/// Subscriptions are ordered field by field: first by correlation id, then by client topic,
/// then by endpoint URL, then by client id, then REST before gRPC. A field decides only where
/// all fields before it are the same, and then it decides alone, whatever the fields after it
/// hold.
pub proof fn law_order_is_field_by_field(a: SubscribeRequestView, b: SubscribeRequestView)
    ensures
        a.correlation_id != b.correlation_id ==> subscription_order(a, b) == text_order(a.correlation_id, b.correlation_id),
        a.correlation_id == b.correlation_id && a.client_topic != b.client_topic
            ==> subscription_order(a, b) == text_order(a.client_topic, b.client_topic),
        a.correlation_id == b.correlation_id && a.client_topic == b.client_topic && a.url != b.url
            ==> subscription_order(a, b) == text_order(a.url, b.url),
        a.correlation_id == b.correlation_id && a.client_topic == b.client_topic && a.url == b.url
            && a.client_id != b.client_id ==> subscription_order(a, b) == text_order(a.client_id, b.client_id),
        a.correlation_id == b.correlation_id && a.client_topic == b.client_topic && a.url == b.url
            && a.client_id == b.client_id && a.client_interface_type == CustomerInterfaceType::REST
            && b.client_interface_type == CustomerInterfaceType::GRPC ==> subscription_order(a, b) == -1,
{
    lemma_text_order_equal(a.correlation_id, b.correlation_id);
    lemma_text_order_equal(a.client_topic, b.client_topic);
    lemma_text_order_equal(a.url, b.url);
    lemma_text_order_equal(a.client_id, b.client_id);
}

/// Texts are ordered lexicographically, character by character: a text sorts before another
/// exactly where it is a proper prefix of it, or where at the first position where they
/// differ its character is the smaller.
pub proof fn law_text_order_is_lexicographic(a: Seq<char>, b: Seq<char>)
    ensures
        text_order(a, b) == -1 <==> (a.len() < b.len() && a == b.subrange(0, a.len() as int)) || exists|i: int|
            0 <= i < a.len() && i < b.len() && a.subrange(0, i) == b.subrange(0, i) && #[trigger] a[i] < b[i],
        text_order(a, b) == 0 <==> a == b,
    decreases a.len(),
{
    lemma_text_order_equal(a, b);
    lemma_text_order_range(a, b);
    if a.len() == 0 {
        if b.len() > 0 {
            assert(a =~= b.subrange(0, 0));
        }
    } else if b.len() == 0 {
    } else if a[0] != b[0] {
        if a[0] < b[0] {
            assert(a.subrange(0, 0) =~= b.subrange(0, 0));
        } else {
            assert(!(a.len() < b.len() && a == b.subrange(0, a.len() as int))) by {
                if a.len() < b.len() && a == b.subrange(0, a.len() as int) {
                    assert(a[0] == b.subrange(0, a.len() as int)[0]);
                }
            }
            assert forall|i: int| 0 <= i < a.len() && i < b.len() && a.subrange(0, i) == b.subrange(0, i) implies !(#[trigger] a[i] < b[i]) by {
                if i > 0 {
                    assert(a.subrange(0, i)[0] == b.subrange(0, i)[0]);
                }
            }
        }
    } else {
        let a1 = a.drop_first();
        let b1 = b.drop_first();
        law_text_order_is_lexicographic(a1, b1);
        // prefix
        if a1.len() < b1.len() && a1 == b1.subrange(0, a1.len() as int) {
            assert forall|k: int| 0 <= k < a.len() implies a[k] == b.subrange(0, a.len() as int)[k] by {
                if k > 0 {
                    assert(a[k] == a1[k - 1]);
                    assert(a1[k - 1] == b1.subrange(0, a1.len() as int)[k - 1]);
                }
            }
            assert(a =~= b.subrange(0, a.len() as int));
        }
        if a.len() < b.len() && a == b.subrange(0, a.len() as int) {
            assert(a1 =~= b1.subrange(0, a1.len() as int));
        }
        // first difference
        if exists|i: int| 0 <= i < a1.len() && i < b1.len() && a1.subrange(0, i) == b1.subrange(0, i) && #[trigger] a1[i] < b1[i] {
            let i = choose|i: int| 0 <= i < a1.len() && i < b1.len() && a1.subrange(0, i) == b1.subrange(0, i) && #[trigger] a1[i] < b1[i];
            assert(a.subrange(0, i + 1) =~= seq![a[0]] + a1.subrange(0, i));
            assert(b.subrange(0, i + 1) =~= seq![b[0]] + b1.subrange(0, i));
            assert(a[i + 1] == a1[i]);
        }
        if exists|i: int| 0 <= i < a.len() && i < b.len() && a.subrange(0, i) == b.subrange(0, i) && #[trigger] a[i] < b[i] {
            let i = choose|i: int| 0 <= i < a.len() && i < b.len() && a.subrange(0, i) == b.subrange(0, i) && #[trigger] a[i] < b[i];
            assert(i > 0);
            assert(a1.subrange(0, i - 1) =~= a.subrange(0, i).drop_first());
            assert(b1.subrange(0, i - 1) =~= b.subrange(0, i).drop_first());
            assert(a1[i - 1] == a[i]);
        }
    }
}

} // verus!
