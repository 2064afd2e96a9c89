//! The valuation engine: price samples and holding events of one asset are
//! laid onto a grid of time buckets, gaps are filled forward, and the series
//! of several assets are merged by time.

use std::collections::BTreeMap;
use vstd::arithmetic::div_mod::{
    lemma_div_is_ordered,
    lemma_fundamental_div_mod,
    lemma_fundamental_div_mod_converse,
};
use vstd::arithmetic::mul::{lemma_mul_inequality, lemma_mul_strict_inequality};
use vstd::prelude::*;

verus! {

broadcast use {vstd::laws_cmp::group_laws_cmp, vstd::std_specs::btree::group_btree_axioms};

/// The number of points that a value series aims at.
pub const POINTS_NUM: i64 = 100;

/// Width of a bucket in seconds: the window divided into `points_num` parts, at least 1.
pub open spec fn bucket_size_spec(origin_ts: int, end_ts: int, points_num: int) -> int {
    if (end_ts - origin_ts) / points_num >= 1 {
        (end_ts - origin_ts) / points_num
    } else {
        1
    }
}

/// The bucket that the time `t` falls into: `t / size`, rounded down.
pub open spec fn bucket_index(t: int, size: int) -> int {
    t / size
}

/// Number of points of a series over the window from `origin_ts` to `end_ts`:
/// one for each bucket from the one of `origin_ts` up to, not including, the one of `end_ts`.
pub open spec fn point_count(origin_ts: int, end_ts: int, points_num: int) -> int {
    let size = bucket_size_spec(origin_ts, end_ts, points_num);
    if bucket_index(end_ts, size) > bucket_index(origin_ts, size) {
        bucket_index(end_ts, size) - bucket_index(origin_ts, size)
    } else {
        0
    }
}

/// The window can be laid out in times that an `i64` holds: its length
/// fits, and so does the time at which its first bucket begins.
pub open spec fn window_fits(origin_ts: int, end_ts: int, points_num: int) -> bool {
    let size = bucket_size_spec(origin_ts, end_ts, points_num);
    &&& points_num > 0
    &&& end_ts - origin_ts <= i64::MAX
    &&& bucket_index(origin_ts, size) * size >= i64::MIN
}

/// Computes the width of a bucket for the window from `origin_ts` to `end_ts`.
pub fn bucket_size(origin_ts: i64, end_ts: i64, points_num: i64) -> (size: i64)
    requires
        points_num > 0,
        end_ts - origin_ts <= i64::MAX,
    ensures
        size == bucket_size_spec(origin_ts as int, end_ts as int, points_num as int),
        size >= 1,
{
    let span: i128 = end_ts as i128 - origin_ts as i128;
    if span < points_num as i128 {
        proof {
            if span >= 0 {
                lemma_fundamental_div_mod_converse(span as int, points_num as int, 0, span as int);
            } else {
                lemma_div_is_ordered(span as int, 0, points_num as int);
            }
        }
        1
    } else {
        let q: i128 = span / points_num as i128;
        proof {
            lemma_div_is_ordered(points_num as int, span as int, points_num as int);
            lemma_fundamental_div_mod_converse(points_num as int, points_num as int, 1, 0);
            lemma_fundamental_div_mod(span as int, points_num as int);
            assert(q <= span) by (nonlinear_arith)
                requires
                    span == points_num * q + (span as int % points_num as int),
                    (span as int % points_num as int) >= 0,
                    points_num >= 1,
                    q >= 1,
            ;
        }
        q as i64
    }
}

/// Computes the bucket that `t` falls into.
pub fn bucket_of(t: i64, size: i64) -> (k: i64)
    requires
        size > 0,
    ensures
        k == bucket_index(t as int, size as int),
        k as int * size as int <= t < (k as int + 1) * size as int,
{
    proof {
        lemma_fundamental_div_mod(t as int, size as int);
        assert(size * (t as int / size as int) == (t as int / size as int) * size)
            by (nonlinear_arith);
        assert((t as int / size as int + 1) * size == (t as int / size as int) * size + size)
            by (nonlinear_arith);
    }
    if t >= 0 {
        t / size
    } else {
        let m: i64 = -(t + 1);
        let q: i64 = m / size;
        proof {
            lemma_fundamental_div_mod(m as int, size as int);
            let r = m as int % size as int;
            assert(t as int == (-(q as int) - 1) * size + (size - r - 1)) by (nonlinear_arith)
                requires
                    m as int == size * q + r,
                    t as int == -(m as int) - 1,
            ;
            lemma_fundamental_div_mod_converse(
                t as int,
                size as int,
                -(q as int) - 1,
                size - r - 1,
            );
        }
        -q - 1
    }
}

/// The event at `i` is in force at `t`: `t` is not before its time, and is
/// before the time of the event after it, if there is one.
pub open spec fn in_force<A>(states: Seq<(i64, A)>, i: int, t: int) -> bool {
    &&& 0 <= i < states.len()
    &&& states[i].0 <= t
    &&& (i + 1 == states.len() || t < states[i + 1].0)
}

/// The first event from `i` on that is in force at `t`, if there is one.
pub open spec fn held_from<A>(states: Seq<(i64, A)>, i: int, t: int) -> Option<int>
    decreases states.len() - i,
{
    if i < 0 || i >= states.len() {
        None
    } else if in_force(states, i, t) {
        Some(i)
    } else {
        held_from(states, i + 1, t)
    }
}

/// The event whose amount is held at `t`: the first one that is in force at
/// `t`. None is held at a time before the first event.
pub open spec fn held_index<A>(states: Seq<(i64, A)>, t: int) -> Option<int> {
    held_from(states, 0, t)
}

/// The amount held at `t`: that of the event in force, or `no_amount` where none is.
pub open spec fn amount_at<A>(states: Seq<(i64, A)>, t: int, no_amount: A) -> A {
    match held_index(states, t) {
        Some(h) => states[h].1,
        None => no_amount,
    }
}

/// The event times never go down.
pub open spec fn ascending<A>(states: Seq<(i64, A)>) -> bool {
    forall|i: int, j: int| 0 <= i <= j < states.len() ==> states[i].0 <= states[j].0
}

/// `held_from` yields the first event from `i` on that is in force, and
/// none only where no event from `i` on is in force.
pub proof fn lemma_held_from<A>(states: Seq<(i64, A)>, i: int, t: int)
    requires
        0 <= i,
    ensures
        match held_from(states, i, t) {
            Some(h) => i <= h < states.len() && in_force(states, h, t) && forall|j: int|
                i <= j < h ==> !in_force(states, j, t),
            None => forall|j: int| i <= j < states.len() ==> !in_force(states, j, t),
        },
    decreases states.len() - i,
{
    if i < states.len() && !in_force(states, i, t) {
        lemma_held_from(states, i + 1, t);
    }
}

/// An amount is held from the time of its event on, never before: the event
/// that is held at `t` is at or before `t`, and no amount is held before the
/// first event.
pub proof fn lemma_held_is_due<A>(states: Seq<(i64, A)>, t: int)
    ensures
        held_index(states, t) matches Some(h) ==> 0 <= h < states.len() && states[h].0 <= t,
        states.len() > 0 && t < states[0].0 && ascending(states) ==> held_index(states, t)
            is None,
{
    lemma_held_from(states, 0, t);
    if states.len() > 0 && t < states[0].0 && ascending(states) {
        if held_index(states, t) is Some {
            let h = held_index(states, t)->Some_0;
            assert(states[0].0 <= states[h].0);
        }
    }
}

/// Holdings are a step function: where the event times ascend and `t` is not
/// before the first event, an event is held, it is at or before `t`, and the
/// event after it, if there is one, is later than `t`.
pub proof fn lemma_held_is_step<A>(states: Seq<(i64, A)>, t: int)
    requires
        states.len() > 0,
        ascending(states),
        states[0].0 <= t,
    ensures
        held_index(states, t) matches Some(h) && 0 <= h < states.len() && states[h].0 <= t && (h
            + 1 < states.len() ==> t < states[h + 1].0),
{
    lemma_held_from(states, 0, t);
    if held_index(states, t) is None {
        lemma_step_exists(states, t, states.len() - 1);
    }
}

/// Where event `0` is at or before `t`, an event up to `h` is in force, or
/// the event at `h` is at or before `t` too.
proof fn lemma_step_exists<A>(states: Seq<(i64, A)>, t: int, h: int)
    requires
        0 <= h < states.len(),
        states[0].0 <= t,
    ensures
        (exists|j: int| 0 <= j <= h && in_force(states, j, t)) || (h + 1 < states.len()
            && states[h + 1].0 <= t),
    decreases h,
{
    if h == 0 {
        if !(h + 1 < states.len() && states[h + 1].0 <= t) {
            assert(in_force(states, 0, t));
        }
    } else {
        lemma_step_exists(states, t, h - 1);
        if exists|j: int| 0 <= j <= h - 1 && in_force(states, j, t) {
            let j = choose|j: int| 0 <= j <= h - 1 && in_force(states, j, t);
            assert(0 <= j <= h && in_force(states, j, t));
        } else if !(h + 1 < states.len() && states[h + 1].0 <= t) {
            assert(in_force(states, h, t));
        }
    }
}

/// Finds the event whose amount is held at `t`.
pub fn held_at<A: Copy>(states: &Vec<(i64, A)>, t: i64) -> (r: Option<usize>)
    ensures
        match r {
            Some(i) => held_index(states@, t as int) == Some(i as int) && i < states@.len(),
            None => held_index(states@, t as int) is None,
        },
{
    let n: usize = states.len();
    let mut i: usize = 0;
    while i < n
        invariant
            0 <= i <= n == states@.len(),
            held_from(states@, i as int, t as int) == held_index(states@, t as int),
        decreases n - i,
    {
        if states[i].0 <= t && (i + 1 == n || t < states[i + 1].0) {
            return Some(i);
        }
        i += 1;
    }
    None
}

/// The price known before the holdings begin: that of the last row whose
/// bucket lies before `since`, or `no_price` where there is none.
pub open spec fn seed_price<P>(rows: Seq<(i64, P)>, since: int, no_price: P) -> P
    decreases rows.len(),
{
    if rows.len() == 0 {
        no_price
    } else if rows.last().0 < since {
        rows.last().1
    } else {
        seed_price(rows.drop_last(), since, no_price)
    }
}

/// The last row of bucket `k`, if there is one.
pub open spec fn last_row_at<P>(rows: Seq<(i64, P)>, k: int) -> Option<int>
    decreases rows.len(),
{
    if rows.len() == 0 {
        None
    } else if rows.last().0 == k {
        Some(rows.len() - 1)
    } else {
        last_row_at(rows.drop_last(), k)
    }
}

/// Bucket `k` has a price of its own: it is not before the bucket of the
/// first holding event, and a row is given for it.
pub open spec fn has_sample<P, A>(
    rows: Seq<(i64, P)>,
    states: Seq<(i64, A)>,
    size: int,
    k: int,
) -> bool {
    k >= bucket_index(states[0].0 as int, size) && last_row_at(rows, k) is Some
}

/// Price and amount of bucket `k` on a grid of bucket width `size` that
/// starts at bucket `first`. A bucket with a price of its own has that price
/// and the amount held at the bucket's time; any other bucket repeats the
/// bucket before it; before the grid stand the seed price and `no_amount`.
pub open spec fn point_at<P, A>(
    rows: Seq<(i64, P)>,
    states: Seq<(i64, A)>,
    size: int,
    first: int,
    k: int,
    no_price: P,
    no_amount: A,
) -> (P, A)
    decreases k - first + 1,
{
    if k < first {
        (seed_price(rows, bucket_index(states[0].0 as int, size), no_price), no_amount)
    } else if has_sample(rows, states, size, k) {
        (rows[last_row_at(rows, k).unwrap()].1, amount_at(states, k * size, no_amount))
    } else {
        point_at(rows, states, size, first, k - 1, no_price, no_amount)
    }
}

/// `last_row_at` yields a row of bucket `k`, and no later row is of that bucket.
pub proof fn lemma_last_row_at<P>(rows: Seq<(i64, P)>, k: int)
    ensures
        last_row_at(rows, k) matches Some(j) ==> 0 <= j < rows.len() && rows[j].0 == k && forall|
            i: int,
        | j < i < rows.len() ==> (#[trigger] rows[i]).0 != k,
        last_row_at(rows, k) is None ==> forall|i: int|
            0 <= i < rows.len() ==> (#[trigger] rows[i]).0 != k,
    decreases rows.len(),
{
    if rows.len() > 0 && rows.last().0 != k {
        let front = rows.drop_last();
        lemma_last_row_at(front, k);
        assert forall|i: int| 0 <= i < front.len() implies front[i] == rows[i] by {}
        match last_row_at(front, k) {
            Some(j) => {
                assert(rows[j] == front[j]);
                assert forall|i: int| j < i < rows.len() implies (#[trigger] rows[i]).0 != k by {
                    if i < front.len() {
                        assert(front[i] == rows[i]);
                    }
                }
            },
            None => {
                assert forall|i: int| 0 <= i < rows.len() implies (#[trigger] rows[i]).0 != k by {
                    if i < front.len() {
                        assert(front[i] == rows[i]);
                    }
                }
            },
        }
    }
}

/// The amount is `no_amount`, or that of an event at or before `t`.
pub open spec fn due_by<A>(states: Seq<(i64, A)>, amount: A, t: int, no_amount: A) -> bool {
    amount == no_amount || exists|i: int|
        0 <= i < states.len() && (#[trigger] states[i]).0 <= t && states[i].1 == amount
}

/// No amount is applied to a bucket before its event: the amount of every
/// point is `no_amount`, or that of an event at or before the point's time.
pub proof fn lemma_amount_is_due<P, A>(
    rows: Seq<(i64, P)>,
    states: Seq<(i64, A)>,
    size: int,
    first: int,
    k: int,
    no_price: P,
    no_amount: A,
)
    requires
        size > 0,
    ensures
        due_by(
            states,
            point_at(rows, states, size, first, k, no_price, no_amount).1,
            k * size,
            no_amount,
        ),
    decreases k - first + 1,
{
    if k < first {
    } else if has_sample(rows, states, size, k) {
        lemma_held_is_due(states, k * size);
        match held_index(states, k * size) {
            Some(h) => {
                assert(states[h].0 <= k * size && states[h].1 == amount_at(
                    states,
                    k * size,
                    no_amount,
                ));
            },
            None => {},
        }
    } else {
        lemma_amount_is_due(rows, states, size, first, k - 1, no_price, no_amount);
        let before = point_at(rows, states, size, first, k - 1, no_price, no_amount).1;
        assert((k - 1) * size <= k * size) by (nonlinear_arith)
            requires
                size > 0,
        ;
        if before != no_amount {
            let i = choose|i: int|
                0 <= i < states.len() && (#[trigger] states[i]).0 <= (k - 1) * size && states[i].1
                    == before;
            assert(states[i].0 <= k * size && states[i].1 == before);
        }
    }
}

/// Forward fill: a bucket on the grid without a price of its own has the
/// price and the amount of the bucket before it.
pub proof fn lemma_forward_fill<P, A>(
    rows: Seq<(i64, P)>,
    states: Seq<(i64, A)>,
    size: int,
    first: int,
    k: int,
    no_price: P,
    no_amount: A,
)
    requires
        first <= k,
        !has_sample(rows, states, size, k),
    ensures
        point_at(rows, states, size, first, k, no_price, no_amount) == point_at(
            rows,
            states,
            size,
            first,
            k - 1,
            no_price,
            no_amount,
        ),
{
}

/// Reads the rows once: the price of each bucket from `since` on, and the seed price.
fn index_rows<P: Copy>(rows: &Vec<(i64, P)>, since: i64, no_price: P) -> (r: (
    BTreeMap<i64, P>,
    P,
))
    ensures
        r.1 == seed_price(rows@, since as int, no_price),
        forall|k: i64|
            r.0@.contains_key(k) <==> (k >= since && (#[trigger] last_row_at(rows@, k as int))
                is Some),
        forall|k: i64|
            r.0@.contains_key(k) ==> r.0@[k] == rows@[(#[trigger] last_row_at(
                rows@,
                k as int,
            )).unwrap()].1,
{
    let mut prices: BTreeMap<i64, P> = BTreeMap::new();
    let mut seed: P = no_price;
    let mut n: usize = 0;
    while n < rows.len()
        invariant
            0 <= n <= rows@.len(),
            seed == seed_price(rows@.take(n as int), since as int, no_price),
            forall|k: i64|
                prices@.contains_key(k) <==> (k >= since && (#[trigger] last_row_at(
                    rows@.take(n as int),
                    k as int,
                )) is Some),
            forall|k: i64|
                prices@.contains_key(k) ==> prices@[k] == rows@[(#[trigger] last_row_at(
                    rows@.take(n as int),
                    k as int,
                )).unwrap()].1,
        decreases rows@.len() - n,
    {
        let row = rows[n];
        proof {
            let next = rows@.take(n + 1);
            assert(next.drop_last() == rows@.take(n as int));
            assert(next.last() == rows@[n as int]);
            assert forall|k: i64|
                #[trigger] last_row_at(next, k as int) == (if row.0 == k {
                    Some(n as int)
                } else {
                    last_row_at(rows@.take(n as int), k as int)
                }) by {}
        }
        if row.0 < since {
            seed = row.1;
        } else {
            prices.insert(row.0, row.1);
        }
        n += 1;
    }
    proof {
        assert(rows@.take(n as int) == rows@);
    }
    (prices, seed)
}

/// The value points of one asset: one for each bucket of the window from
/// `origin_ts` to `end_ts`, in ascending order of time. `rows` gives the
/// average price of each bucket that has samples, `states` the holding events
/// as time and amount. Each point carries the time at which its bucket
/// begins, the price and the amount.
pub fn coin_history<P: Copy, A: Copy>(
    rows: &Vec<(i64, P)>,
    origin_ts: i64,
    end_ts: i64,
    states: &Vec<(i64, A)>,
    points_num: i64,
    no_price: P,
    no_amount: A,
) -> (out: Vec<(i64, (P, A))>)
    requires
        window_fits(origin_ts as int, end_ts as int, points_num as int),
        states@.len() > 0,
    ensures
        out@.len() == point_count(origin_ts as int, end_ts as int, points_num as int),
        forall|i: int|
            0 <= i < out@.len() ==> {
                let size = bucket_size_spec(origin_ts as int, end_ts as int, points_num as int);
                let k = bucket_index(origin_ts as int, size) + i;
                &&& (#[trigger] out@[i]).0 == k * size
                &&& out@[i].1 == point_at(
                    rows@,
                    states@,
                    size,
                    bucket_index(origin_ts as int, size),
                    k,
                    no_price,
                    no_amount,
                )
            },
        times_ascend(out@),
{
    let size: i64 = bucket_size(origin_ts, end_ts, points_num);
    let since: i64 = bucket_of(states[0].0, size);
    let first: i64 = bucket_of(origin_ts, size);
    let last: i64 = bucket_of(end_ts, size);
    let (prices, seed) = index_rows(rows, since, no_price);
    let mut pre: (P, A) = (seed, no_amount);
    let mut out: Vec<(i64, (P, A))> = Vec::new();
    let mut k: i64 = first;
    while k < last
        invariant
            size >= 1,
            first <= k,
            first as int * size as int >= i64::MIN,
            k <= last || k == first,
            last as int * size as int <= end_ts,
            since == bucket_index(states@[0].0 as int, size as int),
            states@.len() > 0,
            out@.len() == k - first,
            pre == point_at(rows@, states@, size as int, first as int, k - 1, no_price, no_amount),
            forall|c: i64|
                prices@.contains_key(c) <==> (c >= since && (#[trigger] last_row_at(
                    rows@,
                    c as int,
                )) is Some),
            forall|c: i64|
                prices@.contains_key(c) ==> prices@[c] == rows@[(#[trigger] last_row_at(
                    rows@,
                    c as int,
                )).unwrap()].1,
            forall|i: int|
                0 <= i < out@.len() ==> (#[trigger] out@[i]).0 == (first + i) * size && out@[i].1
                    == point_at(
                    rows@,
                    states@,
                    size as int,
                    first as int,
                    first + i,
                    no_price,
                    no_amount,
                ),
        decreases last - k,
    {
        proof {
            lemma_mul_strict_inequality(k as int, last as int, size as int);
            lemma_mul_inequality(first as int, k as int, size as int);
        }
        let t: i64 = k * size;
        match prices.get(&k) {
            Some(p) => {
                let amount: A = match held_at(states, t) {
                    Some(h) => states[h].1,
                    None => no_amount,
                };
                pre = (*p, amount);
            },
            None => {},
        }
        proof {
            assert(has_sample(rows@, states@, size as int, k as int) <==> prices@.contains_key(k));
        }
        out.push((t, pre));
        k += 1;
    }
    proof {
        assert forall|i: int, j: int| 0 <= i < j < out@.len() implies out@[i].0 < out@[j].0 by {
            lemma_mul_strict_inequality(first + i, first + j, size as int);
        }
    }
    out
}

/// Where the window does not end earlier in its bucket than it begins in its
/// own, the series has one point for each full bucket width between its ends.
pub proof fn lemma_point_count(origin_ts: int, end_ts: int, points_num: int)
    requires
        points_num > 0,
        origin_ts <= end_ts,
        end_ts % bucket_size_spec(origin_ts, end_ts, points_num) >= origin_ts % bucket_size_spec(
            origin_ts,
            end_ts,
            points_num,
        ),
    ensures
        point_count(origin_ts, end_ts, points_num) == (end_ts - origin_ts) / bucket_size_spec(
            origin_ts,
            end_ts,
            points_num,
        ),
{
    let size = bucket_size_spec(origin_ts, end_ts, points_num);
    lemma_fundamental_div_mod(origin_ts, size);
    lemma_fundamental_div_mod(end_ts, size);
    lemma_div_is_ordered(origin_ts, end_ts, size);
    let q = end_ts / size - origin_ts / size;
    let r = end_ts % size - origin_ts % size;
    assert(end_ts - origin_ts == q * size + r) by (nonlinear_arith)
        requires
            origin_ts == size * (origin_ts / size) + origin_ts % size,
            end_ts == size * (end_ts / size) + end_ts % size,
            q == end_ts / size - origin_ts / size,
            r == end_ts % size - origin_ts % size,
    ;
    lemma_fundamental_div_mod_converse(end_ts - origin_ts, size, q, r);
}

/// What to ask the price store for before a series can be built.
pub struct HistoryQuery {
    /// Width of a bucket in seconds.
    pub bucket_size: i64,
    /// Bucket of the first holding event.
    pub bucket_since: i64,
    /// Samples later than this time are wanted: a tenth of the window before
    /// the beginning of the first holding event's bucket, so that a price is
    /// known when the holdings begin.
    pub since_time: i64,
}

/// The time after which samples are wanted: the beginning of the bucket of
/// the first holding event, less a tenth of `points_num` bucket widths.
pub open spec fn since_time_spec(first_event_ts: int, size: int, points_num: int) -> int {
    bucket_index(first_event_ts, size) * size - (points_num * size) / 10
}

/// The query can be planned in times that an `i64` holds: the length of the
/// window fits, and so does the time after which samples are wanted.
pub open spec fn query_fits(origin_ts: int, end_ts: int, first_event_ts: int, points_num: int) -> bool {
    let size = bucket_size_spec(origin_ts, end_ts, points_num);
    &&& points_num > 0
    &&& end_ts - origin_ts <= i64::MAX
    &&& since_time_spec(first_event_ts, size, points_num) >= i64::MIN
}

/// Plans the query for the window from `origin_ts` to `end_ts` of an asset
/// whose first holding event is at `first_event_ts`.
pub fn history_query(origin_ts: i64, end_ts: i64, first_event_ts: i64, points_num: i64) -> (q:
    HistoryQuery)
    requires
        query_fits(origin_ts as int, end_ts as int, first_event_ts as int, points_num as int),
    ensures
        q.bucket_size == bucket_size_spec(origin_ts as int, end_ts as int, points_num as int),
        q.bucket_since == bucket_index(first_event_ts as int, q.bucket_size as int),
        q.since_time == since_time_spec(
            first_event_ts as int,
            q.bucket_size as int,
            points_num as int,
        ),
{
    let size: i64 = bucket_size(origin_ts, end_ts, points_num);
    let since: i64 = bucket_of(first_event_ts, size);
    proof {
        assert(0 <= points_num as int * size as int) by (nonlinear_arith)
            requires
                points_num > 0,
                size > 0,
        ;
    }
    let width: i128 = points_num as i128 * size as i128;
    let back: i128 = width / 10;
    let start: i128 = since as i128 * size as i128;
    let from: i128 = start - back;
    HistoryQuery { bucket_size: size, bucket_since: since, since_time: from as i64 }
}

/// The product of two numbers that an `i64` holds is far within what an `i128` holds.
proof fn lemma_product_fits(a: int, b: int)
    requires
        i64::MIN <= a <= i64::MAX,
        i64::MIN <= b <= i64::MAX,
    ensures
        -0x4000_0000_0000_0000_0000_0000_0000_0000 <= a * b
            <= 0x4000_0000_0000_0000_0000_0000_0000_0000,
{
    assert(-0x4000_0000_0000_0000_0000_0000_0000_0000 <= a * b
        <= 0x4000_0000_0000_0000_0000_0000_0000_0000) by (nonlinear_arith)
        requires
            -0x8000_0000_0000_0000 <= a <= 0x8000_0000_0000_0000,
            -0x8000_0000_0000_0000 <= b <= 0x8000_0000_0000_0000,
    ;
}

/// Tells whether a value series can be built for the window and the first
/// holding event at all: whether the times that `history_query` and
/// `coin_history` work with are times that an `i64` holds.
pub fn fits(origin_ts: i64, end_ts: i64, first_event_ts: i64, points_num: i64) -> (r: bool)
    ensures
        r == (window_fits(origin_ts as int, end_ts as int, points_num as int) && query_fits(
            origin_ts as int,
            end_ts as int,
            first_event_ts as int,
            points_num as int,
        )),
{
    if points_num <= 0 || end_ts as i128 - origin_ts as i128 > i64::MAX as i128 {
        return false;
    }
    let size: i64 = bucket_size(origin_ts, end_ts, points_num);
    let first: i64 = bucket_of(origin_ts, size);
    let since: i64 = bucket_of(first_event_ts, size);
    proof {
        assert(0 <= points_num as int * size as int) by (nonlinear_arith)
            requires
                points_num > 0,
                size > 0,
        ;
    }
    proof {
        lemma_product_fits(first as int, size as int);
        lemma_product_fits(since as int, size as int);
        lemma_product_fits(points_num as int, size as int);
    }
    let begin: i128 = first as i128 * size as i128;
    let from: i128 = since as i128 * size as i128 - (points_num as i128 * size as i128) / 10;
    begin >= i64::MIN as i128 && from >= i64::MIN as i128
}

/// The prices and amounts that one asset's points give at the time `t`, in the order of the points.
pub open spec fn shares_at<P, A>(points: Seq<(i64, (P, A))>, t: int) -> Seq<(P, A)>
    decreases points.len(),
{
    if points.len() == 0 {
        Seq::empty()
    } else if points.last().0 == t {
        shares_at(points.drop_last(), t).push(points.last().1)
    } else {
        shares_at(points.drop_last(), t)
    }
}

/// What all assets give at the time `t`: the shares of each asset, asset after asset.
pub open spec fn contributions<P, A>(series: Seq<Vec<(i64, (P, A))>>, t: int) -> Seq<(P, A)>
    decreases series.len(),
{
    if series.len() == 0 {
        Seq::empty()
    } else {
        contributions(series.drop_last(), t) + shares_at(series.last()@, t)
    }
}

/// The times go strictly up.
pub open spec fn times_ascend<T>(points: Seq<(i64, T)>) -> bool {
    forall|i: int, j: int| 0 <= i < j < points.len() ==> points[i].0 < points[j].0
}

/// Every entry holds at least one share.
pub open spec fn entries_filled<S>(merged: Seq<(i64, Vec<S>)>) -> bool {
    forall|k: int| 0 <= k < merged.len() ==> (#[trigger] merged[k]).1@.len() > 0
}

/// The shares that a merged series holds for the time `t`; none where it has no entry for `t`.
pub open spec fn shares_in<S>(merged: Seq<(i64, Vec<S>)>, t: int) -> Seq<S>
    decreases merged.len(),
{
    if merged.len() == 0 {
        Seq::empty()
    } else if merged.last().0 == t {
        merged.last().1@
    } else {
        shares_in(merged.drop_last(), t)
    }
}

/// In a merged series with ascending times, the shares for `t` are those of
/// the one entry of that time, and there are none without such an entry.
pub proof fn lemma_shares_in<S>(merged: Seq<(i64, Vec<S>)>, t: int)
    requires
        times_ascend(merged),
    ensures
        forall|k: int|
            0 <= k < merged.len() && (#[trigger] merged[k]).0 == t ==> shares_in(merged, t)
                == merged[k].1@,
        (forall|k: int| 0 <= k < merged.len() ==> (#[trigger] merged[k]).0 != t) ==> shares_in(
            merged,
            t,
        ) == Seq::<S>::empty(),
    decreases merged.len(),
{
    if merged.len() > 0 {
        let front = merged.drop_last();
        assert forall|i: int| 0 <= i < front.len() implies front[i] == merged[i] by {}
        lemma_shares_in(front, t);
        if merged.last().0 != t {
            assert forall|k: int|
                0 <= k < merged.len() && (#[trigger] merged[k]).0 == t implies shares_in(merged, t)
                == merged[k].1@ by {
                assert(front[k] == merged[k]);
            }
            if forall|k: int| 0 <= k < merged.len() ==> (#[trigger] merged[k]).0 != t {
                assert forall|k: int| 0 <= k < front.len() implies (#[trigger] front[k]).0
                    != t by {
                    assert(front[k] == merged[k]);
                }
            }
        } else {
            assert forall|k: int|
                0 <= k < merged.len() && (#[trigger] merged[k]).0 == t implies shares_in(merged, t)
                == merged[k].1@ by {
                if k < merged.len() - 1 {
                    assert(merged[k].0 < merged[merged.len() - 1].0);
                }
            }
        }
    }
}

/// An asset whose points have ascending times gives at most one share at a
/// time: nothing is counted twice, and the share of a point is not dropped.
pub proof fn lemma_one_share_per_asset<P, A>(points: Seq<(i64, (P, A))>, t: int)
    requires
        times_ascend(points),
    ensures
        forall|i: int|
            0 <= i < points.len() && (#[trigger] points[i]).0 == t ==> shares_at(points, t)
                == seq![points[i].1],
        (forall|i: int| 0 <= i < points.len() ==> (#[trigger] points[i]).0 != t) ==> shares_at(
            points,
            t,
        ) == Seq::<(P, A)>::empty(),
    decreases points.len(),
{
    if points.len() > 0 {
        let front = points.drop_last();
        assert forall|i: int| 0 <= i < front.len() implies front[i] == points[i] by {}
        lemma_one_share_per_asset(front, t);
        if points.last().0 == t {
            assert forall|i: int| 0 <= i < front.len() implies (#[trigger] front[i]).0 != t by {
                assert(points[i].0 < points[points.len() - 1].0);
            }
            assert(shares_at(points, t) =~= seq![points.last().1]);
            assert forall|i: int|
                0 <= i < points.len() && (#[trigger] points[i]).0 == t implies shares_at(points, t)
                == seq![points[i].1] by {
                if i < points.len() - 1 {
                    assert(points[i].0 < points[points.len() - 1].0);
                }
            }
        } else {
            assert forall|i: int|
                0 <= i < points.len() && (#[trigger] points[i]).0 == t implies shares_at(points, t)
                == seq![points[i].1] by {
                assert(front[i] == points[i]);
            }
            if forall|i: int| 0 <= i < points.len() ==> (#[trigger] points[i]).0 != t {
                assert forall|i: int| 0 <= i < front.len() implies (#[trigger] front[i]).0
                    != t by {
                    assert(front[i] == points[i]);
                }
            }
        }
    }
}

/// Puts one share into a merged series: into the entry of its time, or into
/// a new entry at the place that keeps the times ascending.
fn add_share<S: Copy>(merged: &mut Vec<(i64, Vec<S>)>, t: i64, share: S)
    requires
        times_ascend(old(merged)@),
        entries_filled(old(merged)@),
    ensures
        times_ascend(final(merged)@),
        entries_filled(final(merged)@),
        forall|u: i64|
            #[trigger] shares_in(final(merged)@, u as int) == if u == t {
                shares_in(old(merged)@, u as int).push(share)
            } else {
                shares_in(old(merged)@, u as int)
            },
{
    let n: usize = merged.len();
    let mut idx: usize = 0;
    while idx < n && merged[idx].0 < t
        invariant
            0 <= idx <= n == merged@.len(),
            merged@ == old(merged)@,
            entries_filled(merged@),
            forall|k: int| 0 <= k < idx ==> (#[trigger] merged@[k]).0 < t,
        decreases n - idx,
    {
        idx += 1;
    }
    if idx < n && merged[idx].0 == t {
        let mut entry = merged.remove(idx);
        entry.1.push(share);
        merged.insert(idx, entry);
        proof {
            let before = old(merged)@;
            let after = merged@;
            assert(after.len() == before.len());
            assert forall|k: int| 0 <= k < after.len() implies (#[trigger] after[k]).0
                == before[k].0 by {}
            assert forall|k: int| 0 <= k < after.len() && k != idx implies #[trigger] after[k]
                == before[k] by {}
            assert(after[idx as int].1@ == before[idx as int].1@.push(share));
            assert forall|u: i64|
                #[trigger] shares_in(after, u as int) == if u == t {
                    shares_in(before, u as int).push(share)
                } else {
                    shares_in(before, u as int)
                } by {
                lemma_shares_in(before, u as int);
                lemma_shares_in(after, u as int);
                if u != t {
                    if exists|k: int| 0 <= k < before.len() && (#[trigger] before[k]).0 == u {
                        let k = choose|k: int|
                            0 <= k < before.len() && (#[trigger] before[k]).0 == u;
                        assert(after[k] == before[k]);
                    } else {
                        assert forall|k: int| 0 <= k < after.len() implies (#[trigger] after[k]).0
                            != u by {
                            assert(before[k].0 != u);
                        }
                    }
                }
            }
        }
    } else {
        let mut shares: Vec<S> = Vec::new();
        shares.push(share);
        merged.insert(idx, (t, shares));
        proof {
            let before = old(merged)@;
            let after = merged@;
            assert(after[idx as int].1@ =~= Seq::<S>::empty().push(share));
            assert forall|k: int| 0 <= k < before.len() implies (#[trigger] before[k]).0 != t by {
                if k >= idx {
                    assert(before[idx as int].0 <= before[k].0);
                }
            }
            assert forall|u: i64|
                #[trigger] shares_in(after, u as int) == if u == t {
                    shares_in(before, u as int).push(share)
                } else {
                    shares_in(before, u as int)
                } by {
                lemma_shares_in(before, u as int);
                lemma_shares_in(after, u as int);
                if u != t {
                    if exists|k: int| 0 <= k < before.len() && (#[trigger] before[k]).0 == u {
                        let k = choose|k: int|
                            0 <= k < before.len() && (#[trigger] before[k]).0 == u;
                        if k < idx {
                            assert(after[k] == before[k]);
                        } else {
                            assert(after[k + 1] == before[k]);
                        }
                    } else {
                        assert forall|k: int| 0 <= k < after.len() implies (#[trigger] after[k]).0
                            != u by {
                            if k < idx {
                                assert(after[k] == before[k]);
                            } else if k > idx {
                                assert(after[k] == before[k - 1]);
                            }
                        }
                    }
                }
            }
        }
    }
}

/// `merged` is the merge of `series`: its times go strictly up, each entry
/// holds exactly what the assets give at its time, which is something, and
/// no time at which an asset gives something is left out.
pub open spec fn is_merge_of<P, A>(
    series: Seq<Vec<(i64, (P, A))>>,
    merged: Seq<(i64, Vec<(P, A)>)>,
) -> bool {
    &&& times_ascend(merged)
    &&& forall|k: int|
        0 <= k < merged.len() ==> (#[trigger] merged[k]).1@ == contributions(
            series,
            merged[k].0 as int,
        ) && merged[k].1@.len() > 0
    &&& forall|t: i64|
        (#[trigger] contributions(series, t as int)).len() > 0 ==> exists|k: int|
            0 <= k < merged.len() && (#[trigger] merged[k]).0 == t
}

/// Every asset has its points at the times `times`, in that order.
pub open spec fn on_grid<P, A>(series: Seq<Vec<(i64, (P, A))>>, times: Seq<i64>) -> bool {
    forall|a: int|
        0 <= a < series.len() ==> (#[trigger] series[a])@.len() == times.len() && forall|k: int|
            0 <= k < times.len() ==> (#[trigger] series[a]@[k]).0 == times[k]
}

/// The times go strictly up.
pub open spec fn grid_ascends(times: Seq<i64>) -> bool {
    forall|i: int, j: int| 0 <= i < j < times.len() ==> times[i] < times[j]
}

/// At a time of the grid the assets give one share each: the point that
/// each of them has at that time, asset after asset.
pub proof fn lemma_grid_contributions<P, A>(
    series: Seq<Vec<(i64, (P, A))>>,
    times: Seq<i64>,
    k: int,
)
    requires
        grid_ascends(times),
        on_grid(series, times),
        0 <= k < times.len(),
    ensures
        contributions(series, times[k] as int) == Seq::new(
            series.len(),
            |a: int| series[a]@[k].1,
        ),
    decreases series.len(),
{
    if series.len() > 0 {
        let front = series.drop_last();
        let last = series.last()@;
        assert forall|a: int| 0 <= a < front.len() implies front[a] == series[a] by {}
        assert(on_grid(front, times)) by {
            assert forall|a: int| 0 <= a < front.len() implies (#[trigger] front[a])@.len()
                == times.len() && forall|k: int|
                0 <= k < times.len() ==> (#[trigger] front[a]@[k]).0 == times[k] by {
                assert(front[a] == series[a]);
            }
        }
        lemma_grid_contributions(front, times, k);
        assert(series[series.len() - 1]@.len() == times.len());
        assert(times_ascend(last)) by {
            assert forall|i: int, j: int| 0 <= i < j < last.len() implies last[i].0
                < last[j].0 by {
                assert(last[i].0 == times[i]);
                assert(last[j].0 == times[j]);
            }
        }
        lemma_one_share_per_asset(last, times[k] as int);
        assert(last[k].0 == times[k]);
        assert(shares_at(last, times[k] as int) == seq![last[k].1]);
        assert(contributions(series, times[k] as int) =~= Seq::new(
            series.len(),
            |a: int| series[a]@[k].1,
        ));
    } else {
        assert(contributions(series, times[k] as int) =~= Seq::new(
            series.len(),
            |a: int| series[a]@[k].1,
        ));
    }
}

/// At a time that is not on the grid the assets give nothing.
pub proof fn lemma_off_grid<P, A>(series: Seq<Vec<(i64, (P, A))>>, times: Seq<i64>, t: int)
    requires
        grid_ascends(times),
        on_grid(series, times),
        forall|k: int| 0 <= k < times.len() ==> times[k] != t,
    ensures
        contributions(series, t) == Seq::<(P, A)>::empty(),
    decreases series.len(),
{
    if series.len() > 0 {
        let front = series.drop_last();
        let last = series.last()@;
        assert(on_grid(front, times)) by {
            assert forall|a: int| 0 <= a < front.len() implies (#[trigger] front[a])@.len()
                == times.len() && forall|k: int|
                0 <= k < times.len() ==> (#[trigger] front[a]@[k]).0 == times[k] by {
                assert(front[a] == series[a]);
            }
        }
        lemma_off_grid(front, times, t);
        assert(series[series.len() - 1]@.len() == times.len());
        assert(times_ascend(last)) by {
            assert forall|i: int, j: int| 0 <= i < j < last.len() implies last[i].0
                < last[j].0 by {
                assert(last[i].0 == times[i]);
                assert(last[j].0 == times[j]);
            }
        }
        assert forall|i: int| 0 <= i < last.len() implies (#[trigger] last[i]).0 != t by {
            assert(last[i].0 == times[i]);
        }
        lemma_one_share_per_asset(last, t);
    }
}

/// The time `t` is one of `times`.
pub open spec fn has_time(times: Seq<i64>, t: i64) -> bool {
    exists|j: int| 0 <= j < times.len() && times[j] == t
}

/// Two lists of strictly ascending times that hold the same times are the same list.
proof fn lemma_same_times(x: Seq<i64>, y: Seq<i64>)
    requires
        grid_ascends(x),
        grid_ascends(y),
        forall|i: int| 0 <= i < x.len() ==> has_time(y, #[trigger] x[i]),
        forall|j: int| 0 <= j < y.len() ==> has_time(x, #[trigger] y[j]),
    ensures
        x == y,
    decreases x.len(),
{
    if x.len() == 0 {
        if y.len() > 0 {
            assert(has_time(x, y[0]));
        }
        assert(x =~= y);
    } else {
        assert(has_time(y, x[x.len() - 1]));
        let j = choose|j: int| 0 <= j < y.len() && y[j] == x[x.len() - 1];
        assert(has_time(x, y[y.len() - 1]));
        let i = choose|i: int| 0 <= i < x.len() && x[i] == y[y.len() - 1];
        // the greatest time of each list is its last, and is a time of the other list
        assert(x[i] <= x[x.len() - 1]);
        assert(y[j] <= y[y.len() - 1]);
        assert(x.last() == y.last());
        let xs = x.drop_last();
        let ys = y.drop_last();
        assert forall|a: int| 0 <= a < xs.len() implies has_time(ys, #[trigger] xs[a]) by {
            assert(xs[a] == x[a]);
            assert(has_time(y, x[a]));
            let b = choose|b: int| 0 <= b < y.len() && y[b] == x[a];
            assert(x[a] < x[x.len() - 1]);
            assert(b < y.len() - 1);
            assert(ys[b] == y[b]);
        }
        assert forall|b: int| 0 <= b < ys.len() implies has_time(xs, #[trigger] ys[b]) by {
            assert(ys[b] == y[b]);
            assert(has_time(x, y[b]));
            let a = choose|a: int| 0 <= a < x.len() && x[a] == y[b];
            assert(y[b] < y[y.len() - 1]);
            assert(a < x.len() - 1);
            assert(xs[a] == x[a]);
        }
        lemma_same_times(xs, ys);
        assert(x =~= xs.push(x.last()));
        assert(y =~= ys.push(y.last()));
    }
}

/// Where every asset has its points on one grid of times, as the series of
/// one window have, the merge has one entry for each time of the grid, and
/// the entry holds one share of each asset: the point of that asset at that
/// time. No asset is counted twice and none is dropped.
pub proof fn lemma_merge_on_grid<P, A>(
    series: Seq<Vec<(i64, (P, A))>>,
    merged: Seq<(i64, Vec<(P, A)>)>,
    times: Seq<i64>,
)
    requires
        series.len() > 0,
        grid_ascends(times),
        on_grid(series, times),
        is_merge_of(series, merged),
    ensures
        merged.len() == times.len(),
        forall|k: int|
            0 <= k < times.len() ==> (#[trigger] merged[k]).0 == times[k] && merged[k].1@
                == Seq::new(series.len(), |a: int| series[a]@[k].1),
{
    let merged_times = Seq::new(merged.len(), |m: int| merged[m].0);
    assert(grid_ascends(merged_times)) by {
        assert forall|i: int, j: int| 0 <= i < j < merged_times.len() implies merged_times[i]
            < merged_times[j] by {
            assert(merged[i].0 < merged[j].0);
        }
    }
    assert forall|m: int| 0 <= m < merged_times.len() implies has_time(
        times,
        #[trigger] merged_times[m],
    ) by {
        if !has_time(times, merged[m].0) {
            lemma_off_grid(series, times, merged[m].0 as int);
            assert(merged[m].1@.len() > 0);
        }
    }
    assert forall|k: int| 0 <= k < times.len() implies has_time(
        merged_times,
        #[trigger] times[k],
    ) by {
        lemma_grid_contributions(series, times, k);
        assert(contributions(series, times[k] as int).len() > 0);
        let m = choose|m: int| 0 <= m < merged.len() && (#[trigger] merged[m]).0 == times[k];
        assert(merged_times[m] == times[k]);
    }
    lemma_same_times(merged_times, times);
    assert forall|k: int| 0 <= k < times.len() implies (#[trigger] merged[k]).0 == times[k]
        && merged[k].1@ == Seq::new(series.len(), |a: int| series[a]@[k].1) by {
        assert(merged_times[k] == times[k]);
        lemma_grid_contributions(series, times, k);
    }
}

/// Merges the points of several assets by time. The result has one entry for
/// each time at which any asset has a point, in ascending order of time, and
/// the entry holds the price and amount of every point of that time: asset
/// after asset, and within an asset in the order of its points.
pub fn merge_points<P: Copy, A: Copy>(series: &Vec<Vec<(i64, (P, A))>>) -> (merged: Vec<
    (i64, Vec<(P, A)>),
>)
    ensures
        is_merge_of(series@, merged@),
{
    let mut merged: Vec<(i64, Vec<(P, A)>)> = Vec::new();
    let mut a: usize = 0;
    while a < series.len()
        invariant
            0 <= a <= series@.len(),
            times_ascend(merged@),
            entries_filled(merged@),
            forall|u: i64|
                #[trigger] shares_in(merged@, u as int) == contributions(
                    series@.take(a as int),
                    u as int,
                ),
        decreases series@.len() - a,
    {
        let points = &series[a];
        let mut i: usize = 0;
        while i < points.len()
            invariant
                0 <= a < series@.len(),
                points == series@[a as int],
                0 <= i <= points@.len(),
                times_ascend(merged@),
                entries_filled(merged@),
                forall|u: i64|
                    #[trigger] shares_in(merged@, u as int) == contributions(
                        series@.take(a as int),
                        u as int,
                    ) + shares_at(points@.take(i as int), u as int),
            decreases points@.len() - i,
        {
            let point = points[i];
            proof {
                let next = points@.take(i + 1);
                assert(next.drop_last() == points@.take(i as int));
                assert(next.last() == points@[i as int]);
                assert forall|u: i64|
                    contributions(series@.take(a as int), u as int) + #[trigger] shares_at(
                        next,
                        u as int,
                    ) == if u == point.0 {
                        (contributions(series@.take(a as int), u as int) + shares_at(
                            points@.take(i as int),
                            u as int,
                        )).push(point.1)
                    } else {
                        contributions(series@.take(a as int), u as int) + shares_at(
                            points@.take(i as int),
                            u as int,
                        )
                    } by {
                    if u == point.0 {
                        assert(contributions(series@.take(a as int), u as int) + shares_at(
                            next,
                            u as int,
                        ) =~= (contributions(series@.take(a as int), u as int) + shares_at(
                            points@.take(i as int),
                            u as int,
                        )).push(point.1));
                    }
                }
            }
            add_share(&mut merged, point.0, point.1);
            i += 1;
        }
        proof {
            assert(points@.take(i as int) == points@);
            assert(series@.take(a + 1).drop_last() == series@.take(a as int));
            assert(series@.take(a + 1).last() == series@[a as int]);
        }
        a += 1;
    }
    proof {
        assert(series@.take(a as int) == series@);
        assert forall|k: int| 0 <= k < merged@.len() implies (#[trigger] merged@[k]).1@
            == contributions(series@, merged@[k].0 as int) && merged@[k].1@.len() > 0 by {
            lemma_shares_in(merged@, merged@[k].0 as int);
        }
        assert forall|t: i64|
            (#[trigger] contributions(series@, t as int)).len() > 0 implies exists|k: int|
            0 <= k < merged@.len() && (#[trigger] merged@[k]).0 == t by {
            lemma_shares_in(merged@, t as int);
            assert(shares_in(merged@, t as int).len() > 0);
        }
    }
    merged
}

/// The value points of all assets of one window, merged by time. `groups`
/// holds the holding events of each asset under the asset's name, `rows` the
/// average price of each bucket for the asset at the same place. The result
/// has one entry for each bucket of the window, in ascending order of time,
/// and the entry holds one share of each asset, asset after asset: the price
/// and the amount of that asset's point at that time.
pub fn value_points<P: Copy, A: Copy>(
    groups: &Vec<(String, Vec<(i64, A)>)>,
    rows: &Vec<Vec<(i64, P)>>,
    origin_ts: i64,
    end_ts: i64,
    points_num: i64,
    no_price: P,
    no_amount: A,
) -> (merged: Vec<(i64, Vec<(P, A)>)>)
    requires
        window_fits(origin_ts as int, end_ts as int, points_num as int),
        rows@.len() == groups@.len(),
        forall|a: int| 0 <= a < groups@.len() ==> (#[trigger] groups@[a]).1@.len() > 0,
    ensures
        merged@.len() == if groups@.len() == 0 {
            0
        } else {
            point_count(origin_ts as int, end_ts as int, points_num as int)
        },
        forall|k: int|
            0 <= k < merged@.len() ==> {
                let size = bucket_size_spec(origin_ts as int, end_ts as int, points_num as int);
                let first = bucket_index(origin_ts as int, size);
                &&& (#[trigger] merged@[k]).0 == (first + k) * size
                &&& merged@[k].1@.len() == groups@.len()
                &&& forall|a: int|
                    0 <= a < groups@.len() ==> merged@[k].1@[a] == point_at(
                        (#[trigger] rows@[a])@,
                        groups@[a].1@,
                        size,
                        first,
                        first + k,
                        no_price,
                        no_amount,
                    )
            },
        times_ascend(merged@),
{
    let ghost size = bucket_size_spec(origin_ts as int, end_ts as int, points_num as int);
    let ghost first = bucket_index(origin_ts as int, size);
    let ghost count = point_count(origin_ts as int, end_ts as int, points_num as int);
    let mut series: Vec<Vec<(i64, (P, A))>> = Vec::new();
    let mut a: usize = 0;
    while a < groups.len()
        invariant
            0 <= a <= groups@.len(),
            rows@.len() == groups@.len(),
            window_fits(origin_ts as int, end_ts as int, points_num as int),
            forall|b: int| 0 <= b < groups@.len() ==> (#[trigger] groups@[b]).1@.len() > 0,
            size == bucket_size_spec(origin_ts as int, end_ts as int, points_num as int),
            first == bucket_index(origin_ts as int, size),
            count == point_count(origin_ts as int, end_ts as int, points_num as int),
            series@.len() == a,
            forall|b: int|
                0 <= b < a ==> (#[trigger] series@[b])@.len() == count && forall|i: int|
                    0 <= i < count ==> (#[trigger] series@[b]@[i]).0 == (first + i) * size
                        && series@[b]@[i].1 == point_at(
                        rows@[b]@,
                        groups@[b].1@,
                        size,
                        first,
                        first + i,
                        no_price,
                        no_amount,
                    ),
        decreases groups@.len() - a,
    {
        let points = coin_history(
            &rows[a],
            origin_ts,
            end_ts,
            &groups[a].1,
            points_num,
            no_price,
            no_amount,
        );
        series.push(points);
        a += 1;
    }
    let merged = merge_points(&series);
    proof {
        if series@.len() == 0 {
            if merged@.len() > 0 {
                assert(merged@[0].1@.len() > 0);
            }
        } else {
            let times = Seq::new(count as nat, |i: int| series@[0]@[i].0);
            assert(grid_ascends(times)) by {
                assert forall|i: int, j: int| 0 <= i < j < times.len() implies times[i]
                    < times[j] by {
                    lemma_mul_strict_inequality(first + i, first + j, size);
                }
            }
            assert(on_grid(series@, times));
            lemma_merge_on_grid(series@, merged@, times);
            assert forall|k: int| 0 <= k < merged@.len() implies {
                &&& (#[trigger] merged@[k]).0 == (first + k) * size
                &&& merged@[k].1@.len() == groups@.len()
                &&& forall|a: int|
                    0 <= a < groups@.len() ==> merged@[k].1@[a] == point_at(
                        (#[trigger] rows@[a])@,
                        groups@[a].1@,
                        size,
                        first,
                        first + k,
                        no_price,
                        no_amount,
                    )
            } by {
                assert(merged@[k].0 == times[k]);
                assert forall|a: int| 0 <= a < groups@.len() implies merged@[k].1@[a]
                    == point_at(
                    (#[trigger] rows@[a])@,
                    groups@[a].1@,
                    size,
                    first,
                    first + k,
                    no_price,
                    no_amount,
                ) by {
                    assert(series@[a]@[k].1 == point_at(
                        rows@[a]@,
                        groups@[a].1@,
                        size,
                        first,
                        first + k,
                        no_price,
                        no_amount,
                    ));
                }
            }
        }
    }
    merged
}

/// The prices of the samples that are later than `since_time` and fall into
/// the bucket `k`, in the order of the samples.
pub open spec fn prices_in<P>(samples: Seq<(i64, P)>, size: int, since_time: int, k: int) -> Seq<P>
    decreases samples.len(),
{
    if samples.len() == 0 {
        Seq::empty()
    } else if samples.last().0 > since_time && bucket_index(samples.last().0 as int, size) == k {
        prices_in(samples.drop_last(), size, since_time, k).push(samples.last().1)
    } else {
        prices_in(samples.drop_last(), size, since_time, k)
    }
}

/// Groups the samples that are later than `since_time` by bucket. The result
/// has one entry for each bucket that holds such a sample, in ascending
/// order, with the prices of the bucket's samples in the order of the
/// samples. The average of an entry is the price of its bucket.
pub fn bucket_samples<P: Copy>(samples: &Vec<(i64, P)>, size: i64, since_time: i64) -> (groups:
    Vec<(i64, Vec<P>)>)
    requires
        size > 0,
    ensures
        times_ascend(groups@),
        forall|g: int|
            0 <= g < groups@.len() ==> (#[trigger] groups@[g]).1@ == prices_in(
                samples@,
                size as int,
                since_time as int,
                groups@[g].0 as int,
            ) && groups@[g].1@.len() > 0,
        forall|k: i64|
            (#[trigger] prices_in(samples@, size as int, since_time as int, k as int)).len() > 0
                ==> exists|g: int| 0 <= g < groups@.len() && (#[trigger] groups@[g]).0 == k,
{
    let mut groups: Vec<(i64, Vec<P>)> = Vec::new();
    let mut i: usize = 0;
    while i < samples.len()
        invariant
            0 <= i <= samples@.len(),
            size > 0,
            times_ascend(groups@),
            entries_filled(groups@),
            forall|k: i64|
                #[trigger] shares_in(groups@, k as int) == prices_in(
                    samples@.take(i as int),
                    size as int,
                    since_time as int,
                    k as int,
                ),
        decreases samples@.len() - i,
    {
        let sample = samples[i];
        proof {
            let next = samples@.take(i + 1);
            assert(next.drop_last() == samples@.take(i as int));
            assert(next.last() == samples@[i as int]);
        }
        if sample.0 > since_time {
            let k: i64 = bucket_of(sample.0, size);
            add_share(&mut groups, k, sample.1);
        }
        i += 1;
    }
    proof {
        assert(samples@.take(i as int) == samples@);
        assert forall|g: int| 0 <= g < groups@.len() implies (#[trigger] groups@[g]).1@
            == prices_in(samples@, size as int, since_time as int, groups@[g].0 as int)
            && groups@[g].1@.len() > 0 by {
            lemma_shares_in(groups@, groups@[g].0 as int);
        }
        assert forall|k: i64|
            (#[trigger] prices_in(samples@, size as int, since_time as int, k as int)).len()
                > 0 implies exists|g: int|
            0 <= g < groups@.len() && (#[trigger] groups@[g]).0 == k by {
            lemma_shares_in(groups@, k as int);
            assert(shares_in(groups@, k as int).len() > 0);
        }
    }
    groups
}

} // verus!
