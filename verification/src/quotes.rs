//! Quotes, the series a provider returns for one symbol, and their order in
//! time.

use crate::signal::Price;
use vstd::prelude::*;

verus! {

/// One sample of a price series: the closing price at a point in time.
#[derive(Clone, Copy, Debug, PartialEq, Eq, Structural)]
pub struct Quote {
    /// Seconds since the Unix epoch.
    pub timestamp: u64,
    pub close: Price,
}

/// The quotes that one fetch returned for a symbol, in the order in which
/// they arrived. An empty series means that no data was available.
#[derive(Clone, Debug, PartialEq, Eq)]
pub struct Quotes {
    pub symbol: String,
    pub quotes: Vec<Quote>,
}

/// A request for the quotes of one symbol between two points in time, both
/// in seconds since the Unix epoch.
#[derive(Clone, Debug, PartialEq, Eq)]
pub struct QuoteRequest {
    pub symbol: String,
    pub from: i64,
    pub to: i64,
}

/// The test "this quote was taken at time `t`".
pub open spec fn stamped(t: u64) -> spec_fn(Quote) -> bool {
    |q: Quote| q.timestamp == t
}

/// The quotes of `s` taken at time `t`, in the order in which `s` holds them.
pub open spec fn at_time(s: Seq<Quote>, t: u64) -> Seq<Quote> {
    s.filter(stamped(t))
}

/// No quote of `s` stands before an earlier one.
pub open spec fn ascending(s: Seq<Quote>) -> bool {
    forall|i: int, j: int| 0 <= i <= j < s.len() ==> s[i].timestamp <= s[j].timestamp
}

/// `t` holds the quotes of `s` in ascending order of time, and the quotes of
/// any one time in the order in which `s` holds them.
pub open spec fn is_time_ordering_of(t: Seq<Quote>, s: Seq<Quote>) -> bool {
    &&& ascending(t)
    &&& forall|k: u64| #[trigger] at_time(t, k) == at_time(s, k)
}

/// The time ordering of `s`. There is exactly one: `lemma_time_ordered` and
/// `lemma_time_ordering_unique`.
pub open spec fn time_ordered(s: Seq<Quote>) -> Seq<Quote> {
    choose|t: Seq<Quote>| is_time_ordering_of(t, s)
}

/// The closing prices of a series, quote by quote.
pub open spec fn closes_of(s: Seq<Quote>) -> Seq<Price> {
    s.map_values(|q: Quote| q.close)
}

proof fn lemma_at_time_push(s: Seq<Quote>, q: Quote, t: u64)
    ensures
        at_time(s.push(q), t) == if q.timestamp == t {
            at_time(s, t).push(q)
        } else {
            at_time(s, t)
        },
{
    reveal(Seq::filter);
    assert(s.push(q).drop_last() =~= s);
}

proof fn lemma_at_time_absent(s: Seq<Quote>, t: u64)
    requires
        forall|i: int| 0 <= i < s.len() ==> s[i].timestamp != t,
    ensures
        at_time(s, t).len() == 0,
    decreases s.len(),
{
    reveal(Seq::filter);
    if s.len() > 0 {
        lemma_at_time_absent(s.drop_last(), t);
    }
}

proof fn lemma_at_time_present(s: Seq<Quote>, t: u64)
    requires
        at_time(s, t).len() > 0,
    ensures
        exists|i: int| 0 <= i < s.len() && s[i].timestamp == t,
{
    if forall|i: int| 0 <= i < s.len() ==> s[i].timestamp != t {
        lemma_at_time_absent(s, t);
    }
}

/// Two time orderings of one series are the same sequence.
pub proof fn lemma_time_ordering_unique(a: Seq<Quote>, b: Seq<Quote>, s: Seq<Quote>)
    requires
        is_time_ordering_of(a, s),
        is_time_ordering_of(b, s),
    ensures
        a == b,
{
    assert forall|k: u64| #[trigger] at_time(a, k) == at_time(b, k) by {
        assert(at_time(a, k) == at_time(s, k));
        assert(at_time(b, k) == at_time(s, k));
    }
    lemma_same_times_same_order(a, b);
}

proof fn lemma_same_times_same_order(a: Seq<Quote>, b: Seq<Quote>)
    requires
        ascending(a),
        ascending(b),
        forall|k: u64| #[trigger] at_time(a, k) == at_time(b, k),
    ensures
        a == b,
    decreases a.len(),
{
    if a.len() == 0 {
        if b.len() > 0 {
            let k = b.last().timestamp;
            lemma_at_time_push(b.drop_last(), b.last(), k);
            assert(b.drop_last().push(b.last()) =~= b);
            assert(at_time(a, k) == at_time(b, k));
            lemma_at_time_absent(a, k);
        }
        assert(a =~= b);
    } else {
        let x = a.last();
        let k = x.timestamp;
        assert(a.drop_last().push(x) =~= a);
        lemma_at_time_push(a.drop_last(), x, k);
        assert(at_time(a, k) == at_time(b, k));
        assert(at_time(b, k).len() > 0);
        lemma_at_time_present(b, k);
        let y = b.last();
        let l = y.timestamp;
        assert(b.drop_last().push(y) =~= b);
        lemma_at_time_push(b.drop_last(), y, l);
        assert(at_time(a, l) == at_time(b, l));
        lemma_at_time_present(a, l);
        assert(k == l);
        assert(at_time(a, k).last() == x);
        assert(at_time(b, k).last() == y);
        assert(x == y);
        assert(ascending(a.drop_last()));
        assert(ascending(b.drop_last()));
        assert forall|t: u64| #[trigger]
            at_time(a.drop_last(), t) == at_time(b.drop_last(), t) by {
            lemma_at_time_push(a.drop_last(), x, t);
            lemma_at_time_push(b.drop_last(), y, t);
            assert(at_time(a, t) == at_time(b, t));
            if t == k {
                assert(at_time(a.drop_last(), t) =~= at_time(a, t).drop_last());
                assert(at_time(b.drop_last(), t) =~= at_time(b, t).drop_last());
            }
        }
        lemma_same_times_same_order(a.drop_last(), b.drop_last());
    }
}

/// Where a quote taken at time `at` goes in an ascending series: behind the
/// last quote that is not later.
spec fn slot(t: Seq<Quote>, at: u64) -> int
    decreases t.len(),
{
    if t.len() == 0 {
        0
    } else if t.last().timestamp <= at {
        t.len() as int
    } else {
        slot(t.drop_last(), at)
    }
}

proof fn lemma_slot(t: Seq<Quote>, at: u64)
    requires
        ascending(t),
    ensures
        0 <= slot(t, at) <= t.len(),
        forall|i: int| 0 <= i < slot(t, at) ==> t[i].timestamp <= at,
        forall|i: int| slot(t, at) <= i < t.len() ==> t[i].timestamp > at,
    decreases t.len(),
{
    if t.len() > 0 && t.last().timestamp > at {
        let rest = t.drop_last();
        assert(ascending(rest)) by {
            assert forall|i: int, j: int| 0 <= i <= j < rest.len() implies rest[i].timestamp
                <= rest[j].timestamp by {
                assert(t[i].timestamp <= t[j].timestamp);
            }
        }
        lemma_slot(rest, at);
        assert forall|i: int| 0 <= i < slot(t, at) implies t[i].timestamp <= at by {
            assert(rest[i] == t[i]);
        }
        assert forall|i: int| slot(t, at) <= i < t.len() implies t[i].timestamp > at by {
            if i < rest.len() {
                assert(rest[i] == t[i]);
            }
        }
    }
}

proof fn lemma_insert_in_order(t: Seq<Quote>, s: Seq<Quote>, q: Quote, p: int)
    requires
        is_time_ordering_of(t, s),
        0 <= p <= t.len(),
        forall|i: int| 0 <= i < p ==> t[i].timestamp <= q.timestamp,
        forall|i: int| p <= i < t.len() ==> t[i].timestamp > q.timestamp,
    ensures
        is_time_ordering_of(t.insert(p, q), s.push(q)),
{
    let front = t.take(p);
    let back = t.skip(p);
    let placed = t.insert(p, q);
    assert(t =~= front + back);
    assert(placed =~= front.push(q) + back);
    assert forall|k: u64| #[trigger] at_time(placed, k) == at_time(s.push(q), k) by {
        Seq::filter_distributes_over_add(front, back, stamped(k));
        Seq::filter_distributes_over_add(front.push(q), back, stamped(k));
        lemma_at_time_push(front, q, k);
        lemma_at_time_push(s, q, k);
        assert(at_time(t, k) == at_time(s, k));
        if k == q.timestamp {
            lemma_at_time_absent(back, k);
            assert(at_time(front, k) + at_time(back, k) =~= at_time(front, k));
            assert(at_time(front, k).push(q) + at_time(back, k) =~= at_time(front, k).push(q));
        }
    }
    assert forall|i: int, j: int| 0 <= i <= j < placed.len() implies placed[i].timestamp
        <= placed[j].timestamp by {
        if i < p && j > p {
            assert(t[i].timestamp <= t[j - 1].timestamp);
        } else if i < p && j < p {
            assert(t[i].timestamp <= t[j].timestamp);
        } else if i > p {
            assert(t[i - 1].timestamp <= t[j - 1].timestamp);
        }
    }
}

/// Every series has a time ordering, and `time_ordered` names it.
pub proof fn lemma_time_ordered(s: Seq<Quote>)
    ensures
        is_time_ordering_of(time_ordered(s), s),
    decreases s.len(),
{
    if s.len() == 0 {
        assert(is_time_ordering_of(s, s));
    } else {
        let rest = s.drop_last();
        let q = s.last();
        lemma_time_ordered(rest);
        let t = time_ordered(rest);
        lemma_slot(t, q.timestamp);
        lemma_insert_in_order(t, rest, q, slot(t, q.timestamp));
        assert(rest.push(q) =~= s);
        assert(is_time_ordering_of(t.insert(slot(t, q.timestamp), q), s));
    }
}

proof fn lemma_count_at_time(s: Seq<Quote>, q: Quote)
    ensures
        s.to_multiset().count(q) == at_time(s, q.timestamp).to_multiset().count(q),
    decreases s.len(),
{
    broadcast use vstd::seq_lib::group_to_multiset_ensures;

    if s.len() == 0 {
        lemma_at_time_absent(s, q.timestamp);
        assert(at_time(s, q.timestamp) =~= s);
    } else {
        let rest = s.drop_last();
        let x = s.last();
        assert(rest.push(x) =~= s);
        lemma_count_at_time(rest, q);
        lemma_at_time_push(rest, x, q.timestamp);
        assert(s.to_multiset() =~= rest.to_multiset().insert(x));
        if x.timestamp == q.timestamp {
            assert(at_time(s, q.timestamp).to_multiset() =~= at_time(
                rest,
                q.timestamp,
            ).to_multiset().insert(x));
        }
    }
}

/// A time ordering holds the quotes of the series, each as often as the
/// series does, and so as many.
pub proof fn lemma_time_ordering_permutes(t: Seq<Quote>, s: Seq<Quote>)
    requires
        is_time_ordering_of(t, s),
    ensures
        t.to_multiset() == s.to_multiset(),
        t.len() == s.len(),
{
    broadcast use vstd::seq_lib::group_to_multiset_ensures;

    assert forall|q: Quote| t.to_multiset().count(q) == s.to_multiset().count(q) by {
        lemma_count_at_time(t, q);
        lemma_count_at_time(s, q);
        assert(at_time(t, q.timestamp) == at_time(s, q.timestamp));
    }
    assert(t.to_multiset() =~= s.to_multiset());
    t.to_multiset_ensures();
    s.to_multiset_ensures();
}

proof fn lemma_swap_keeps_times(s: Seq<Quote>, a: int, t: u64)
    requires
        0 <= a,
        a + 1 < s.len(),
        s[a].timestamp != s[a + 1].timestamp,
    ensures
        at_time(s.update(a, s[a + 1]).update(a + 1, s[a]), t) == at_time(s, t),
{
    let swapped = s.update(a, s[a + 1]).update(a + 1, s[a]);
    let front = s.take(a);
    let back = s.skip(a + 2);
    let pair = seq![s[a], s[a + 1]];
    let riap = seq![s[a + 1], s[a]];
    assert(s =~= front + pair + back);
    assert(swapped =~= front + riap + back);
    Seq::filter_distributes_over_add(front + pair, back, stamped(t));
    Seq::filter_distributes_over_add(front, pair, stamped(t));
    Seq::filter_distributes_over_add(front + riap, back, stamped(t));
    Seq::filter_distributes_over_add(front, riap, stamped(t));
    assert(at_time(pair, t) == at_time(riap, t)) by {
        let none = Seq::<Quote>::empty();
        assert(pair =~= none.push(s[a]).push(s[a + 1]));
        assert(riap =~= none.push(s[a + 1]).push(s[a]));
        lemma_at_time_absent(none, t);
        assert(at_time(none, t) =~= none);
        lemma_at_time_push(none, s[a], t);
        lemma_at_time_push(none.push(s[a]), s[a + 1], t);
        lemma_at_time_push(none, s[a + 1], t);
        lemma_at_time_push(none.push(s[a + 1]), s[a], t);
    }
}

/// Puts the quotes in ascending order of time; quotes of one time keep the
/// order in which they arrived. A series that is already in order is left
/// as it is after one pass.
pub fn sort_by_time(quotes: &mut Vec<Quote>)
    ensures
        is_time_ordering_of(final(quotes)@, old(quotes)@),
        final(quotes)@ == time_ordered(old(quotes)@),
        final(quotes)@.len() == old(quotes)@.len(),
        final(quotes)@.to_multiset() == old(quotes)@.to_multiset(),
{
    let ghost arrived = quotes@;
    let n: usize = quotes.len();
    let mut i: usize = 0;
    while i < n
        invariant
            quotes@.len() == n,
            i <= n,
            ascending(quotes@.take(i as int)),
            forall|k: u64| #[trigger] at_time(quotes@, k) == at_time(arrived, k),
        decreases n - i,
    {
        let mut j: usize = i;
        proof {
            let sorted = quotes@.take(i as int);
            assert forall|a: int, b: int| 0 <= a <= b < i implies quotes@[a].timestamp
                <= quotes@[b].timestamp by {
                assert(sorted[a].timestamp <= sorted[b].timestamp);
            }
        }
        while j > 0 && quotes[j - 1].timestamp > quotes[j].timestamp
            invariant
                quotes@.len() == n,
                j <= i < n,
                forall|k: u64| #[trigger] at_time(quotes@, k) == at_time(arrived, k),
                forall|a: int, b: int|
                    0 <= a <= b <= i && a != j && b != j ==> quotes@[a].timestamp
                        <= quotes@[b].timestamp,
                forall|b: int| j < b <= i ==> quotes@[j as int].timestamp < quotes@[b].timestamp,
            decreases j,
        {
            let ghost before = quotes@;
            let earlier: Quote = quotes[j];
            let later: Quote = quotes[j - 1];
            quotes[j - 1] = earlier;
            quotes[j] = later;
            proof {
                assert(quotes@ =~= before.update(j - 1, before[j as int]).update(
                    j as int,
                    before[j - 1],
                ));
                assert forall|k: u64| #[trigger] at_time(quotes@, k) == at_time(arrived, k) by {
                    lemma_swap_keeps_times(before, j - 1, k);
                    assert(at_time(before, k) == at_time(arrived, k));
                }
            }
            j -= 1;
        }
        proof {
            let next = quotes@.take(i + 1);
            assert forall|a: int, b: int| 0 <= a <= b < next.len() implies next[a].timestamp
                <= next[b].timestamp by {
                if a != j && b != j {
                } else if a == j && b != j {
                } else if a != j && b == j {
                    if j > 0 {
                        assert(quotes@[a].timestamp <= quotes@[j - 1].timestamp);
                    }
                }
            }
        }
        i += 1;
    }
    proof {
        assert(quotes@.take(n as int) =~= quotes@);
        lemma_time_ordering_unique(quotes@, time_ordered(arrived), arrived);
        lemma_time_ordering_permutes(quotes@, arrived);
    }
}

/// The closing prices of a series, quote by quote.
pub fn closes(quotes: &[Quote]) -> (r: Vec<Price>)
    ensures
        r@ == closes_of(quotes@),
{
    let mut r: Vec<Price> = Vec::new();
    let mut i: usize = 0;
    while i < quotes.len()
        invariant
            i <= quotes@.len(),
            r@ == closes_of(quotes@.take(i as int)),
        decreases quotes@.len() - i,
    {
        r.push(quotes[i].close);
        assert(r@ =~= closes_of(quotes@.take(i + 1)));
        i += 1;
    }
    assert(quotes@.take(i as int) =~= quotes@);
    r
}

} // verus!
