//! The session list: each session's recency and the most-recent-first order.
use vstd::prelude::*;

use crate::timestamp::{timestamp_millis, DateTime};

verus! {

/// The timestamps a session carries, as the agent reports them.
pub struct SessionTimes {
    pub name: String,
    pub last_message_at: String,
    pub updated_at: String,
    pub created_at: String,
}

/// A timestamp field's epoch milliseconds: nothing when it is empty or does
/// not read as a timestamp.
pub open spec fn stamp_millis(field: Seq<char>) -> Option<int> {
    if field.len() == 0 {
        None
    } else {
        timestamp_millis(vstd::utf8::encode_utf8(field))
    }
}

/// A session's recency in epoch milliseconds: its last message time, else its
/// update time, else its creation time, the first of them that reads as a
/// timestamp; zero when none does.
pub open spec fn recency_of(s: SessionTimes) -> int {
    match stamp_millis(s.last_message_at@) {
        Some(v) => v,
        None => match stamp_millis(s.updated_at@) {
            Some(v) => v,
            None => match stamp_millis(s.created_at@) {
                Some(v) => v,
                None => 0,
            },
        },
    }
}

fn stamp(field: &String) -> (r: Option<i64>)
    ensures
        match r {
            Some(v) => stamp_millis(field@) == Some(v as int),
            None => stamp_millis(field@) is None,
        },
{
    if field.as_str().is_empty() {
        return None;
    }
    match DateTime::parse(field.as_str()) {
        Ok(t) => Some(t.millis),
        Err(()) => None,
    }
}

/// A session's epoch-ms recency: lastMessageAt -> updatedAt -> createdAt.
pub fn session_recency(s: &SessionTimes) -> (r: i64)
    ensures
        r == recency_of(*s),
{
    if let Some(v) = stamp(&s.last_message_at) {
        return v;
    }
    if let Some(v) = stamp(&s.updated_at) {
        return v;
    }
    if let Some(v) = stamp(&s.created_at) {
        return v;
    }
    0
}

/// Session `i` comes before session `j`: it is more recent, or as recent and
/// listed earlier.
pub open spec fn comes_before(keys: Seq<int>, i: int, j: int) -> bool {
    keys[i] > keys[j] || (keys[i] == keys[j] && i < j)
}

/// `order` lists every index of `keys` once, most recent first, equally recent
/// ones in the order they were listed.
pub open spec fn is_recency_order(keys: Seq<int>, order: Seq<int>) -> bool {
    &&& order.len() == keys.len()
    &&& forall|a: int| 0 <= a < order.len() ==> 0 <= #[trigger] order[a] < keys.len()
    &&& forall|a: int, b: int|
        0 <= a < b < order.len() ==> comes_before(keys, #[trigger] order[a], #[trigger] order[b])
    &&& forall|j: int| 0 <= j < keys.len() ==> #[trigger] order.contains(j)
}

pub open spec fn recencies(sessions: Seq<SessionTimes>) -> Seq<int> {
    sessions.map_values(|s: SessionTimes| recency_of(s))
}

pub open spec fn as_ints(v: Seq<usize>) -> Seq<int> {
    v.map_values(|x: usize| x as int)
}

/// The indices `0..keys.len()` in recency order.
fn recency_order(keys: &Vec<i64>) -> (order: Vec<usize>)
    ensures
        is_recency_order(keys@.map_values(|k: i64| k as int), as_ints(order@)),
{
    let ghost ks = keys@.map_values(|k: i64| k as int);
    let mut order: Vec<usize> = Vec::new();
    let mut i: usize = 0;
    while i < keys.len()
        invariant
            i <= keys.len(),
            ks == keys@.map_values(|k: i64| k as int),
            order@.len() == i,
            forall|a: int| 0 <= a < order@.len() ==> #[trigger] order@[a] < i,
            forall|a: int, b: int|
                0 <= a < b < order@.len() ==> comes_before(
                    ks,
                    #[trigger] order@[a] as int,
                    #[trigger] order@[b] as int,
                ),
            forall|j: int| 0 <= j < i ==> #[trigger] as_ints(order@).contains(j),
        decreases keys.len() - i,
    {
        let k = keys[i];
        let mut p: usize = 0;
        while p < order.len() && keys[order[p]] >= k
            invariant
                p <= order@.len(),
                i < keys@.len(),
                k == keys@[i as int],
                forall|a: int| 0 <= a < order@.len() ==> #[trigger] order@[a] < i,
                forall|q: int| 0 <= q < p ==> keys@[#[trigger] order@[q] as int] >= k,
            decreases order.len() - p,
        {
            p += 1;
        }
        let ghost before = order@;
        order.insert(p, i);
        proof {
            assert forall|a: int, b: int| 0 <= a < b < order@.len() implies comes_before(
                ks,
                #[trigger] order@[a] as int,
                #[trigger] order@[b] as int,
            ) by {
                if b < p {
                    assert(order@[a] == before[a] && order@[b] == before[b]);
                } else if b == p {
                    assert(order@[a] == before[a]);
                } else if a == p {
                    assert(order@[b] == before[b - 1]);
                    assert(keys@[before[p as int] as int] < k);
                    if b - 1 > p {
                        assert(comes_before(ks, before[p as int] as int, before[b - 1] as int));
                    }
                } else if a < p {
                    assert(order@[a] == before[a] && order@[b] == before[b - 1]);
                } else {
                    assert(order@[a] == before[a - 1] && order@[b] == before[b - 1]);
                }
            }
            assert forall|j: int| 0 <= j < i + 1 implies #[trigger] as_ints(order@).contains(j) by {
                if j == i {
                    assert(as_ints(order@)[p as int] == j);
                } else {
                    assert(as_ints(before).contains(j));
                    let a = choose|a: int| 0 <= a < before.len() && as_ints(before)[a] == j;
                    if a < p {
                        assert(as_ints(order@)[a] == j);
                    } else {
                        assert(as_ints(order@)[a + 1] == j);
                    }
                }
            }
            assert forall|a: int| 0 <= a < order@.len() implies #[trigger] order@[a] < i + 1 by {
                if a < p {
                    assert(order@[a] == before[a]);
                } else if a > p {
                    assert(order@[a] == before[a - 1]);
                }
            }
        }
        i += 1;
    }
    order
}

/// Session names ordered most-recent-first (lastMessageAt -> updatedAt ->
/// createdAt), equally recent sessions in the order they came in.
pub fn order_sessions(sessions: &Vec<SessionTimes>) -> (names: Vec<String>)
    ensures
        exists|order: Seq<int>|
            is_recency_order(recencies(sessions@), order) && names@.len() == order.len() && (
            forall|a: int|
                0 <= a < order.len() ==> #[trigger] names@[a]@ == sessions@[order[a]].name@),
{
    let mut keys: Vec<i64> = Vec::new();
    let mut i: usize = 0;
    while i < sessions.len()
        invariant
            i <= sessions@.len(),
            keys@.len() == i,
            forall|j: int| 0 <= j < i ==> #[trigger] keys@[j] as int == recency_of(sessions@[j]),
        decreases sessions@.len() - i,
    {
        keys.push(session_recency(&sessions[i]));
        i += 1;
    }
    let order = recency_order(&keys);
    assert(keys@.map_values(|k: i64| k as int) =~= recencies(sessions@));
    assert forall|b: int| 0 <= b < order@.len() implies #[trigger] order@[b] < sessions@.len() by {
        assert(as_ints(order@)[b] == order@[b] as int);
    }
    let mut names: Vec<String> = Vec::new();
    let mut a: usize = 0;
    while a < order.len()
        invariant
            a <= order@.len(),
            order@.len() == sessions@.len(),
            forall|b: int| 0 <= b < order@.len() ==> #[trigger] order@[b] < sessions@.len(),
            names@.len() == a,
            forall|b: int|
                0 <= b < a ==> #[trigger] names@[b]@ == sessions@[order@[b] as int].name@,
        decreases order@.len() - a,
    {
        names.push(sessions[order[a]].name.clone());
        a += 1;
    }
    assert(is_recency_order(recencies(sessions@), as_ints(order@)));
    assert(forall|b: int|
        0 <= b < as_ints(order@).len() ==> #[trigger] names@[b]@ == sessions@[as_ints(
            order@,
        )[b]].name@);
    names
}


proof fn lemma_ordered_sequences_agree(keys: Seq<int>, p: Seq<int>, q: Seq<int>)
    requires
        forall|a: int, b: int|
            0 <= a < b < p.len() ==> comes_before(keys, #[trigger] p[a], #[trigger] p[b]),
        forall|a: int, b: int|
            0 <= a < b < q.len() ==> comes_before(keys, #[trigger] q[a], #[trigger] q[b]),
        forall|x: int| p.contains(x) <==> q.contains(x),
    ensures
        p == q,
    decreases p.len(),
{
    if p.len() == 0 {
        if q.len() > 0 {
            assert(q.contains(q[0]));
        }
        assert(q =~= p);
    } else {
        assert(p.contains(p[0]));
        let k = choose|k: int| 0 <= k < q.len() && q[k] == p[0];
        if k > 0 {
            assert(comes_before(keys, q[0], q[k]));
            assert(q.contains(q[0]));
            let m = choose|m: int| 0 <= m < p.len() && p[m] == q[0];
            if m > 0 {
                assert(comes_before(keys, p[0], p[m]));
            }
        }
        assert(q[0] == p[0]);
        let p1 = p.drop_first();
        let q1 = q.drop_first();
        assert forall|x: int| p1.contains(x) <==> q1.contains(x) by {
            if p1.contains(x) {
                let a = choose|a: int| 0 <= a < p1.len() && p1[a] == x;
                assert(comes_before(keys, p[0], p[a + 1]));
                assert(p.contains(x));
                let b = choose|b: int| 0 <= b < q.len() && q[b] == x;
                assert(b != 0);
                assert(q1[b - 1] == x);
            }
            if q1.contains(x) {
                let a = choose|a: int| 0 <= a < q1.len() && q1[a] == x;
                assert(comes_before(keys, q[0], q[a + 1]));
                assert(q.contains(x));
                let b = choose|b: int| 0 <= b < p.len() && p[b] == x;
                assert(b != 0);
                assert(p1[b - 1] == x);
            }
        }
        assert forall|a: int, b: int| 0 <= a < b < p1.len() implies comes_before(
            keys,
            #[trigger] p1[a],
            #[trigger] p1[b],
        ) by {
            assert(p1[a] == p[a + 1] && p1[b] == p[b + 1]);
        }
        assert forall|a: int, b: int| 0 <= a < b < q1.len() implies comes_before(
            keys,
            #[trigger] q1[a],
            #[trigger] q1[b],
        ) by {
            assert(q1[a] == q[a + 1] && q1[b] == q[b + 1]);
        }
        lemma_ordered_sequences_agree(keys, p1, q1);
        assert(p =~= seq![p[0]] + p1);
        assert(q =~= seq![q[0]] + q1);
    }
}

/// The session order is fully determined: two orders that both list every
/// session once, most recent first and equally recent ones in the order they
/// were listed, are the same order.
pub proof fn law_recency_order_is_unique(keys: Seq<int>, p: Seq<int>, q: Seq<int>)
    requires
        is_recency_order(keys, p),
        is_recency_order(keys, q),
    ensures
        p == q,
{
    assert forall|x: int| p.contains(x) <==> q.contains(x) by {
        if p.contains(x) {
            let a = choose|a: int| 0 <= a < p.len() && p[a] == x;
            assert(0 <= p[a] < keys.len());
        }
        if q.contains(x) {
            let a = choose|a: int| 0 <= a < q.len() && q[a] == x;
            assert(0 <= q[a] < keys.len());
        }
    }
    lemma_ordered_sequences_agree(keys, p, q);
}


/// Whether a timestamp field is usable: non-empty and read as a timestamp.
pub open spec fn field_reads(f: Seq<char>) -> bool {
    f.len() > 0 && timestamp_millis(vstd::utf8::encode_utf8(f)) is Some
}

/// A session's recency is the epoch milliseconds of its first usable field in
/// the order lastMessageAt, updatedAt, createdAt: a later field counts only
/// when every earlier one is empty or does not read as a timestamp, whatever
/// the later fields hold, and a session with no usable field has recency 0.
pub proof fn law_recency_field_precedence(s: SessionTimes)
    ensures
        field_reads(s.last_message_at@) ==> recency_of(s) == timestamp_millis(
            vstd::utf8::encode_utf8(s.last_message_at@),
        ).unwrap(),
        !field_reads(s.last_message_at@) && field_reads(s.updated_at@) ==> recency_of(s)
            == timestamp_millis(vstd::utf8::encode_utf8(s.updated_at@)).unwrap(),
        !field_reads(s.last_message_at@) && !field_reads(s.updated_at@) && field_reads(
            s.created_at@,
        ) ==> recency_of(s) == timestamp_millis(vstd::utf8::encode_utf8(s.created_at@)).unwrap(),
        !field_reads(s.last_message_at@) && !field_reads(s.updated_at@) && !field_reads(
            s.created_at@,
        ) ==> recency_of(s) == 0,
{
}

/// In the session order a strictly more recent session comes first, and of
/// two equally recent sessions the one listed first comes first.
pub proof fn law_order_puts_recent_first(keys: Seq<int>, order: Seq<int>, a: int, b: int)
    requires
        is_recency_order(keys, order),
        0 <= a < order.len(),
        0 <= b < order.len(),
        keys[order[a]] > keys[order[b]] || (keys[order[a]] == keys[order[b]] && order[a] < order[b]),
    ensures
        a < b,
{
    if a == b {
    } else if b < a {
        assert(comes_before(keys, order[b], order[a]));
    }
}

} // verus!
