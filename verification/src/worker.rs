//! The refresh scheduler: which asset to refresh next, when a request may be
//! issued, and how an asset's bookkeeping changes after a fetch.

use crate::utils::{decimal, decimal_of};
use vstd::prelude::*;
use vstd::string::StringExecFns;

verus! {

/// Seconds that must lie between the latest refresh of any asset and the next request.
pub const MIN_INTERVAL: i64 = 7;

/// What the scheduler keeps about one tracked asset.
pub struct Asset {
    /// Stable key of the asset.
    pub id: String,
    /// Time of the last successful refresh, in seconds.
    pub last_updated: i64,
    /// Zero after a successful refresh, one lower after each failed one.
    pub priority_score: i64,
}

/// `a` is refreshed before `b`: it is staler, or as stale and of higher score.
pub open spec fn goes_before(a: Asset, b: Asset) -> bool {
    a.last_updated < b.last_updated || (a.last_updated == b.last_updated && a.priority_score
        > b.priority_score)
}

/// `i` is the asset to refresh next: none goes before it, and it is the first such asset.
pub open spec fn is_next(assets: Seq<Asset>, i: int) -> bool {
    &&& 0 <= i < assets.len()
    &&& forall|j: int| 0 <= j < assets.len() ==> !goes_before(#[trigger] assets[j], assets[i])
    &&& forall|j: int| 0 <= j < i ==> goes_before(assets[i], #[trigger] assets[j])
}

/// The time of the latest refresh of any asset; `i64::MIN` where there is no asset.
pub open spec fn latest_update(assets: Seq<Asset>) -> int
    decreases assets.len(),
{
    if assets.len() == 0 {
        i64::MIN as int
    } else if assets.last().last_updated >= latest_update(assets.drop_last()) {
        assets.last().last_updated as int
    } else {
        latest_update(assets.drop_last())
    }
}

/// The asset as it stands after a successful refresh at `now`.
pub open spec fn refreshed(a: Asset, now: i64) -> Asset {
    Asset { id: a.id, last_updated: now, priority_score: 0 }
}

/// The asset as it stands after a failed refresh.
pub open spec fn penalized(a: Asset) -> Asset {
    Asset {
        id: a.id,
        last_updated: a.last_updated,
        priority_score: if a.priority_score > i64::MIN {
            (a.priority_score - 1) as i64
        } else {
            i64::MIN
        },
    }
}

/// Seconds to wait at `now` before the next request may be issued, when the
/// latest refresh of any asset happened at `max_updated`: what is left of
/// `interval`, cut to what a `u64` holds.
pub open spec fn wait_spec(now: int, max_updated: int, interval: int) -> int {
    let left = interval - (now - max_updated);
    if left <= 0 {
        0
    } else if left > u64::MAX {
        u64::MAX as int
    } else {
        left
    }
}

/// A request may be issued at `now`: there is an asset, and the latest refresh
/// of any asset lies at least `interval` seconds back.
pub open spec fn may_fetch(assets: Seq<Asset>, now: int, interval: int) -> bool {
    assets.len() > 0 && now - latest_update(assets) >= interval
}

/// What the scheduler decides at one moment.
pub enum Plan {
    /// No asset is tracked.
    Idle,
    /// The last request is too recent: sleep this many seconds.
    Wait { secs: u64 },
    /// Fetch the samples of the asset at `index` for the window `(from, to]`.
    Fetch { index: usize, from: i64, to: i64 },
}

/// At most one asset is next.
pub proof fn lemma_next_unique(assets: Seq<Asset>, i: int, k: int)
    requires
        is_next(assets, i),
        is_next(assets, k),
    ensures
        i == k,
{
    if i < k {
        assert(goes_before(assets[k], assets[i]));
    } else if k < i {
        assert(goes_before(assets[i], assets[k]));
    }
}

/// `latest_update` is an upper bound of every `last_updated`, and is reached by one asset.
pub proof fn lemma_latest_update(assets: Seq<Asset>)
    ensures
        forall|j: int| 0 <= j < assets.len() ==> (#[trigger] assets[j]).last_updated
            <= latest_update(assets),
        assets.len() > 0 ==> exists|j: int|
            0 <= j < assets.len() && (#[trigger] assets[j]).last_updated == latest_update(assets),
        i64::MIN <= latest_update(assets) <= i64::MAX,
    decreases assets.len(),
{
    if assets.len() > 0 {
        let front = assets.drop_last();
        lemma_latest_update(front);
        assert forall|j: int| 0 <= j < assets.len() implies (#[trigger] assets[j]).last_updated
            <= latest_update(assets) by {
            if j < front.len() {
                assert(front[j] == assets[j]);
            }
        }
        if assets.last().last_updated >= latest_update(front) {
            assert(assets[assets.len() - 1].last_updated == latest_update(assets));
        } else {
            let j = choose|j: int|
                0 <= j < front.len() && (#[trigger] front[j]).last_updated == latest_update(front);
            assert(assets[j] == front[j]);
        }
    }
}

/// A failed refresh leaves `last_updated` as it was and, unless the score is
/// already the lowest there is, makes the score strictly lower.
pub proof fn lemma_failure_lowers_score(a: Asset)
    requires
        a.priority_score > i64::MIN,
    ensures
        penalized(a).priority_score < a.priority_score,
        penalized(a).last_updated == a.last_updated,
        penalized(a).id == a.id,
{
}

/// The asset with its score set to `score`.
pub open spec fn with_score(a: Asset, score: i64) -> Asset {
    Asset { id: a.id, last_updated: a.last_updated, priority_score: score }
}

/// Lowering an asset's score never makes it the selected one: where another
/// asset is next, it is still next when the score of the asset at `i` is
/// any lower than it was.
pub proof fn lemma_lower_score_never_promotes(assets: Seq<Asset>, i: int, k: int, score: i64)
    requires
        0 <= i < assets.len(),
        is_next(assets, k),
        k != i,
        score <= assets[i].priority_score,
    ensures
        is_next(assets.update(i, with_score(assets[i], score)), k),
{
    let after = assets.update(i, with_score(assets[i], score));
    assert forall|j: int| 0 <= j < after.len() implies !goes_before(
        #[trigger] after[j],
        after[k],
    ) by {
        assert(!goes_before(assets[j], assets[k]));
    }
    assert forall|j: int| 0 <= j < k implies goes_before(after[k], #[trigger] after[j]) by {
        assert(goes_before(assets[k], assets[j]));
    }
}

/// An asset whose refresh failed does not move forward: where another asset
/// was next before the failure was booked, that asset is still next afterwards.
pub proof fn lemma_penalty_never_promotes(assets: Seq<Asset>, i: int, k: int)
    requires
        0 <= i < assets.len(),
        is_next(assets, k),
        k != i,
    ensures
        is_next(assets.update(i, penalized(assets[i])), k),
{
    lemma_lower_score_never_promotes(assets, i, k, penalized(assets[i]).priority_score);
    assert(penalized(assets[i]) == with_score(assets[i], penalized(assets[i]).priority_score));
}

/// Once an asset was refreshed at `now`, the scheduler allows no request
/// before `now + interval`.
pub proof fn lemma_request_spacing(assets: Seq<Asset>, i: int, now: i64, interval: int, later: int)
    requires
        0 <= i < assets.len(),
        may_fetch(assets.update(i, refreshed(assets[i], now)), later, interval),
    ensures
        later - now >= interval,
{
    let after = assets.update(i, refreshed(assets[i], now));
    lemma_latest_update(after);
    assert(after[i].last_updated == now);
}

/// An asset whose refresh failed yields to a peer that is as stale and was
/// of no lower score: after the failure is booked it is not the next asset.
pub proof fn lemma_failed_asset_yields(assets: Seq<Asset>, i: int, k: int)
    requires
        0 <= i < assets.len(),
        0 <= k < assets.len(),
        i != k,
        assets[k].last_updated == assets[i].last_updated,
        assets[k].priority_score >= assets[i].priority_score > i64::MIN,
    ensures
        !is_next(assets.update(i, penalized(assets[i])), i),
{
    let after = assets.update(i, penalized(assets[i]));
    assert(goes_before(after[k], after[i]));
}

/// The assets after a run of successful refreshes, each given as the place
/// of its asset and the time at which it was issued.
pub open spec fn after_cycles(assets: Seq<Asset>, cycles: Seq<(int, i64)>) -> Seq<Asset>
    decreases cycles.len(),
{
    if cycles.len() == 0 {
        assets
    } else {
        let before = after_cycles(assets, cycles.drop_last());
        before.update(cycles.last().0, refreshed(before[cycles.last().0], cycles.last().1))
    }
}

/// The scheduler allowed every refresh of the run at the time at which it was issued.
pub open spec fn cycles_allowed(assets: Seq<Asset>, cycles: Seq<(int, i64)>, interval: int) -> bool
    decreases cycles.len(),
{
    cycles.len() == 0 || (cycles_allowed(assets, cycles.drop_last(), interval) && 0
        <= cycles.last().0 < assets.len() && may_fetch(
        after_cycles(assets, cycles.drop_last()),
        cycles.last().1 as int,
        interval,
    ))
}

/// A part of an allowed run, taken from its beginning, is an allowed run.
pub proof fn lemma_cycles_prefix(
    assets: Seq<Asset>,
    cycles: Seq<(int, i64)>,
    interval: int,
    k: int,
)
    requires
        cycles_allowed(assets, cycles, interval),
        0 <= k <= cycles.len(),
    ensures
        cycles_allowed(assets, cycles.take(k), interval),
    decreases cycles.len(),
{
    if k < cycles.len() {
        lemma_cycles_prefix(assets, cycles.drop_last(), interval, k);
        assert(cycles.drop_last().take(k) == cycles.take(k));
    } else {
        assert(cycles.take(k) == cycles);
    }
}

/// After an allowed run every asset is still there, none was refreshed
/// earlier than it had been before, and the latest refresh of any asset is
/// the last one of the run.
pub proof fn lemma_cycles_state(assets: Seq<Asset>, cycles: Seq<(int, i64)>, interval: int)
    requires
        0 <= interval,
        cycles_allowed(assets, cycles, interval),
    ensures
        after_cycles(assets, cycles).len() == assets.len(),
        forall|j: int|
            0 <= j < assets.len() ==> (#[trigger] assets[j]).last_updated <= after_cycles(
                assets,
                cycles,
            )[j].last_updated,
        cycles.len() > 0 ==> latest_update(after_cycles(assets, cycles)) == cycles.last().1,
    decreases cycles.len(),
{
    if cycles.len() > 0 {
        let before = after_cycles(assets, cycles.drop_last());
        let after = after_cycles(assets, cycles);
        lemma_cycles_state(assets, cycles.drop_last(), interval);
        lemma_latest_update(before);
        lemma_latest_update(after);
        assert(after[cycles.last().0].last_updated == cycles.last().1);
        let j = choose|j: int|
            0 <= j < after.len() && (#[trigger] after[j]).last_updated == latest_update(after);
        if j != cycles.last().0 {
            assert(after[j] == before[j]);
        }
        assert forall|j: int| 0 <= j < assets.len() implies (#[trigger] assets[j]).last_updated
            <= after[j].last_updated by {
            if j != cycles.last().0 {
                assert(after[j] == before[j]);
            } else {
                assert(before[j].last_updated <= latest_update(before));
            }
        }
    }
}

/// Over an allowed run of successful refreshes no `last_updated` ever goes
/// back, two refreshes are at least `interval` seconds apart, and a refresh
/// of an asset fetches a window that begins no earlier than an earlier
/// refresh of the same asset ended, and ends no earlier than it begins.
/// Stated of the refreshes at the places `k` and `m` of the run.
pub proof fn lemma_successful_cycles(
    assets: Seq<Asset>,
    cycles: Seq<(int, i64)>,
    interval: int,
    k: int,
    m: int,
)
    requires
        0 <= interval,
        cycles_allowed(assets, cycles, interval),
        0 <= k < m < cycles.len(),
    ensures
        forall|j: int|
            0 <= j < assets.len() ==> (#[trigger] after_cycles(
                assets,
                cycles.take(k),
            )[j]).last_updated <= after_cycles(assets, cycles.take(m))[j].last_updated,
        cycles[m].1 - cycles[k].1 >= interval,
        cycles[k].0 == cycles[m].0 ==> cycles[k].1 <= after_cycles(
            assets,
            cycles.take(m),
        )[cycles[m].0].last_updated,
        after_cycles(assets, cycles.take(m))[cycles[m].0].last_updated <= cycles[m].1,
    decreases m - k,
{
    let upto_k = cycles.take(k);
    let upto_m = cycles.take(m);
    let thru_k = cycles.take(k + 1);
    let thru_m = cycles.take(m + 1);
    lemma_cycles_prefix(assets, cycles, interval, m);
    lemma_cycles_prefix(assets, cycles, interval, m + 1);
    lemma_cycles_prefix(assets, cycles, interval, k + 1);
    assert(thru_m.drop_last() == upto_m);
    assert(thru_m.last() == cycles[m]);
    assert(thru_k.drop_last() == upto_k);
    assert(thru_k.last() == cycles[k]);
    lemma_cycles_state(assets, upto_m, interval);
    lemma_cycles_state(assets, upto_k, interval);
    lemma_cycles_state(assets, thru_k, interval);
    let before_m = after_cycles(assets, upto_m);
    lemma_latest_update(before_m);
    // the refresh at `m` was allowed: it is `interval` after the latest one before it
    assert(upto_m.last() == cycles[m - 1]);
    assert(latest_update(before_m) == cycles[m - 1].1);
    if k + 1 == m {
        assert(thru_k == upto_m);
        let before_k = after_cycles(assets, upto_k);
        lemma_latest_update(before_k);
        assert forall|j: int| 0 <= j < assets.len() implies (#[trigger] after_cycles(
            assets,
            upto_k,
        )[j]).last_updated <= after_cycles(assets, upto_m)[j].last_updated by {
            if j != cycles[k].0 {
                assert(before_m[j] == before_k[j]);
            } else {
                assert(before_k[j].last_updated <= latest_update(before_k));
            }
        }
    } else {
        lemma_successful_cycles(assets, cycles, interval, k, m - 1);
        lemma_successful_cycles(assets, cycles, interval, m - 1, m);
        let mid = after_cycles(assets, cycles.take(m - 1));
        assert forall|j: int| 0 <= j < assets.len() implies (#[trigger] after_cycles(
            assets,
            upto_k,
        )[j]).last_updated <= after_cycles(assets, upto_m)[j].last_updated by {
            assert(after_cycles(assets, upto_k)[j].last_updated <= mid[j].last_updated);
            assert(after_cycles(assets, cycles.take(m - 1))[j].last_updated
                <= before_m[j].last_updated);
        }
    }
    if cycles[k].0 == cycles[m].0 {
        let after_k = after_cycles(assets, thru_k);
        assert(after_k[cycles[k].0].last_updated == cycles[k].1);
        if k + 1 < m {
            lemma_successful_cycles(assets, cycles, interval, k + 1, m);
        }
    }
}

/// Picks the asset to refresh next: the stalest, and among equally stale ones
/// the one of highest score; the first of them where several qualify.
pub fn select_next(assets: &Vec<Asset>) -> (r: Option<usize>)
    ensures
        r is None <==> assets@.len() == 0,
        r matches Some(i) ==> is_next(assets@, i as int),
{
    if assets.len() == 0 {
        return None;
    }
    let mut best: usize = 0;
    let mut j: usize = 1;
    while j < assets.len()
        invariant
            0 <= best < j <= assets.len(),
            forall|k: int| 0 <= k < j ==> !goes_before(#[trigger] assets@[k], assets@[best as int]),
            forall|k: int|
                0 <= k < best ==> goes_before(assets@[best as int], #[trigger] assets@[k]),
        decreases assets.len() - j,
    {
        let a = &assets[j];
        let b = &assets[best];
        if a.last_updated < b.last_updated || (a.last_updated == b.last_updated
            && a.priority_score > b.priority_score) {
            best = j;
        }
        j += 1;
    }
    Some(best)
}

/// The time of the latest refresh of any asset.
pub fn max_updated(assets: &Vec<Asset>) -> (r: Option<i64>)
    ensures
        r is None <==> assets@.len() == 0,
        r matches Some(m) ==> m as int == latest_update(assets@),
{
    if assets.len() == 0 {
        return None;
    }
    let mut m: i64 = i64::MIN;
    let mut j: usize = 0;
    while j < assets.len()
        invariant
            0 <= j <= assets.len(),
            m as int == latest_update(assets@.take(j as int)),
        decreases assets.len() - j,
    {
        proof {
            assert(assets@.take(j + 1).drop_last() == assets@.take(j as int));
        }
        if assets[j].last_updated >= m {
            m = assets[j].last_updated;
        }
        j += 1;
    }
    proof {
        assert(assets@.take(j as int) == assets@);
    }
    Some(m)
}

/// Computes how long to sleep at `now` before the next request.
pub fn wait_secs(now: i64, max_updated: i64, interval: i64) -> (secs: u64)
    ensures
        secs as int == wait_spec(now as int, max_updated as int, interval as int),
{
    let elapsed: i128 = now as i128 - max_updated as i128;
    let left: i128 = interval as i128 - elapsed;
    if left <= 0 {
        0
    } else if left > u64::MAX as i128 {
        u64::MAX
    } else {
        left as u64
    }
}

/// Decides what to do at `now`: nothing without assets, wait while the latest
/// refresh of any asset is less than `interval` seconds old, else fetch the
/// next asset's samples from its last refresh up to `now`.
pub fn plan_refresh(assets: &Vec<Asset>, now: i64, interval: i64) -> (plan: Plan)
    ensures
        assets@.len() == 0 ==> plan == Plan::Idle,
        assets@.len() > 0 && !may_fetch(assets@, now as int, interval as int) ==> plan
            == (Plan::Wait {
            secs: wait_spec(now as int, latest_update(assets@), interval as int) as u64,
        }),
        may_fetch(assets@, now as int, interval as int) ==> (plan matches Plan::Fetch {
            index,
            from,
            to,
        } && is_next(assets@, index as int) && from == assets@[index as int].last_updated && to
            == now),
{
    let latest = match max_updated(assets) {
        None => { return Plan::Idle; },
        Some(m) => m,
    };
    if now as i128 - latest as i128 >= interval as i128 {
        match select_next(assets) {
            None => Plan::Idle,
            Some(index) => Plan::Fetch { index, from: assets[index].last_updated, to: now },
        }
    } else {
        Plan::Wait { secs: wait_secs(now, latest, interval) }
    }
}

/// Books a successful refresh of the asset at `index`: it was refreshed at
/// `now` and its score starts again at zero. No other asset changes.
pub fn record_success(assets: &mut Vec<Asset>, index: usize, now: i64)
    requires
        index < old(assets)@.len(),
    ensures
        final(assets)@ == old(assets)@.update(
            index as int,
            refreshed(old(assets)@[index as int], now),
        ),
{
    let mut a = assets.remove(index);
    a.last_updated = now;
    a.priority_score = 0;
    assets.insert(index, a);
    proof {
        assert(assets@ =~= old(assets)@.update(
            index as int,
            refreshed(old(assets)@[index as int], now),
        ));
    }
}

/// Books a failed refresh of the asset at `index`: its score drops by one
/// (it stays at the lowest score there is) and its `last_updated` stays.
/// No other asset changes.
pub fn record_failure(assets: &mut Vec<Asset>, index: usize)
    requires
        index < old(assets)@.len(),
    ensures
        final(assets)@ == old(assets)@.update(index as int, penalized(old(assets)@[index as int])),
{
    let mut a = assets.remove(index);
    if a.priority_score > i64::MIN {
        a.priority_score = a.priority_score - 1;
    }
    assets.insert(index, a);
    proof {
        assert(assets@ =~= old(assets)@.update(
            index as int,
            penalized(old(assets)@[index as int]),
        ));
    }
}

/// A price as it arrived from the feed.
pub enum Reading<N> {
    /// No number stood where one was expected.
    Missing,
    /// The number zero.
    Zero,
    /// Any other number.
    Value(N),
}

/// One sample of an asset's price history as the feed gave it. A field that
/// the payload lacked, or that held no number, is `None` or `Missing`.
pub struct Sample<N> {
    /// Time of the sample in milliseconds.
    pub timestamp_ms: Option<u64>,
    pub price_usd: Reading<N>,
    pub price_btc: Option<N>,
    pub volume_usd: Option<N>,
    /// `None` where the feed has no such series for the asset at all.
    pub price_platform: Option<Option<N>>,
}

/// One row of the price store.
pub struct PriceRow<N> {
    pub price_usd: N,
    pub volume_usd: N,
    pub price_btc: N,
    pub price_platform: Option<N>,
    /// Time of the sample in seconds.
    pub created: u64,
}

/// Why a refresh did not succeed.
#[derive(PartialEq, Eq, Structural, Clone, Copy, Debug)]
pub enum RefreshError {
    /// The request failed, timed out, or its payload could not be read.
    FetchFailed,
    /// The feed had no sample for the window.
    EmptyWindow,
}

/// The number that stands for an optional field: `zero` where it is missing.
pub open spec fn or_zero<N>(field: Option<N>, zero: N) -> N {
    match field {
        Some(v) => v,
        None => zero,
    }
}

/// The row that a sample gives. A sample without a time, or whose dollar
/// price is missing or zero, gives none. Other missing numbers count as zero.
pub open spec fn row_of<N>(sample: Sample<N>, zero: N) -> Option<PriceRow<N>> {
    match (sample.timestamp_ms, sample.price_usd) {
        (Some(ms), Reading::Value(price)) => Some(
            PriceRow {
                price_usd: price,
                volume_usd: or_zero(sample.volume_usd, zero),
                price_btc: or_zero(sample.price_btc, zero),
                price_platform: match sample.price_platform {
                    Some(p) => Some(or_zero(p, zero)),
                    None => None,
                },
                created: ms / 1000,
            },
        ),
        _ => None,
    }
}

/// The rows that a batch of samples gives, in the order of the samples.
pub open spec fn rows_of<N>(samples: Seq<Sample<N>>, zero: N) -> Seq<PriceRow<N>>
    decreases samples.len(),
{
    if samples.len() == 0 {
        Seq::empty()
    } else {
        match row_of(samples.last(), zero) {
            Some(row) => rows_of(samples.drop_last(), zero).push(row),
            None => rows_of(samples.drop_last(), zero),
        }
    }
}

/// Turns one sample into a row of the price store, or skips it.
pub fn price_row<N: Copy>(sample: &Sample<N>, zero: N) -> (row: Option<PriceRow<N>>)
    ensures
        row == row_of(*sample, zero),
{
    let ms: u64 = match sample.timestamp_ms {
        Some(ms) => ms,
        None => { return None; },
    };
    let price: N = match sample.price_usd {
        Reading::Value(p) => p,
        _ => { return None; },
    };
    let volume_usd: N = match sample.volume_usd {
        Some(v) => v,
        None => zero,
    };
    let price_btc: N = match sample.price_btc {
        Some(v) => v,
        None => zero,
    };
    let price_platform: Option<N> = match sample.price_platform {
        Some(Some(v)) => Some(v),
        Some(None) => Some(zero),
        None => None,
    };
    Some(PriceRow { price_usd: price, volume_usd, price_btc, price_platform, created: ms / 1000 })
}

/// Turns a batch of samples into rows of the price store, skipping the
/// samples that give none.
pub fn price_rows<N: Copy>(samples: &Vec<Sample<N>>, zero: N) -> (rows: Vec<PriceRow<N>>)
    ensures
        rows@ == rows_of(samples@, zero),
{
    let mut rows: Vec<PriceRow<N>> = Vec::new();
    let mut i: usize = 0;
    while i < samples.len()
        invariant
            0 <= i <= samples@.len(),
            rows@ == rows_of(samples@.take(i as int), zero),
        decreases samples@.len() - i,
    {
        proof {
            assert(samples@.take(i + 1).drop_last() == samples@.take(i as int));
        }
        match price_row(&samples[i], zero) {
            Some(row) => {
                rows.push(row);
            },
            None => {},
        }
        i += 1;
    }
    proof {
        assert(samples@.take(i as int) == samples@);
    }
    rows
}

/// What a fetch comes to: the rows to store, or why the refresh failed. A
/// fetch that did not come back (`None`) and one without any sample both fail.
pub open spec fn outcome_of<N>(fetched: Option<Vec<Sample<N>>>, zero: N) -> Result<
    Seq<PriceRow<N>>,
    RefreshError,
> {
    match fetched {
        None => Err(RefreshError::FetchFailed),
        Some(samples) => if samples@.len() == 0 {
            Err(RefreshError::EmptyWindow)
        } else {
            Ok(rows_of(samples@, zero))
        },
    }
}

/// What one turn of the price refresh comes to.
pub enum Turn<N> {
    /// No asset is tracked; nothing was booked.
    Idle,
    /// No request was allowed yet; nothing was booked. Sleep this many seconds.
    Wait { secs: u64 },
    /// The asset at `index` was refreshed; these rows go to the price store.
    Stored { index: usize, rows: Vec<PriceRow<N>> },
    /// The refresh of the asset at `index` failed, and the asset was penalized.
    Failed { index: usize, reason: RefreshError },
}

/// Books one turn of the price refresh at `now`. Without assets, or while
/// the latest refresh of any asset is less than `interval` seconds old,
/// nothing is booked and nothing changes, whatever `fetched` holds. Else the
/// outcome is booked for the asset that is next: `fetched` is what the feed
/// gave for the window that `plan_refresh` names at this `now`. On success
/// the asset counts as refreshed at `now` and the rows to store are returned;
/// on failure the asset is penalized. No other asset changes.
pub fn refresh_prices<N: Copy>(
    assets: &mut Vec<Asset>,
    now: i64,
    interval: i64,
    fetched: &Option<Vec<Sample<N>>>,
    zero: N,
) -> (turn: Turn<N>)
    ensures
        old(assets)@.len() == 0 ==> turn is Idle && final(assets)@ == old(assets)@,
        old(assets)@.len() > 0 && !may_fetch(old(assets)@, now as int, interval as int) ==> (
        turn matches Turn::Wait { secs } && secs == wait_spec(
            now as int,
            latest_update(old(assets)@),
            interval as int,
        ) && final(assets)@ == old(assets)@),
        may_fetch(old(assets)@, now as int, interval as int) ==> match outcome_of(*fetched, zero) {
            Ok(stored) => turn matches Turn::Stored { index, rows } && is_next(
                old(assets)@,
                index as int,
            ) && rows@ == stored && final(assets)@ == old(assets)@.update(
                index as int,
                refreshed(old(assets)@[index as int], now),
            ),
            Err(e) => turn matches Turn::Failed { index, reason } && is_next(
                old(assets)@,
                index as int,
            ) && reason == e && final(assets)@ == old(assets)@.update(
                index as int,
                penalized(old(assets)@[index as int]),
            ),
        },
{
    let index: usize = match plan_refresh(assets, now, interval) {
        Plan::Idle => { return Turn::Idle; },
        Plan::Wait { secs } => { return Turn::Wait { secs }; },
        Plan::Fetch { index, from: _, to: _ } => index,
    };
    match fetched {
        None => {
            record_failure(assets, index);
            Turn::Failed { index, reason: RefreshError::FetchFailed }
        },
        Some(samples) => {
            if samples.len() == 0 {
                record_failure(assets, index);
                Turn::Failed { index, reason: RefreshError::EmptyWindow }
            } else {
                let rows = price_rows(samples, zero);
                record_success(assets, index, now);
                Turn::Stored { index, rows }
            }
        },
    }
}

/// The latest metadata of one tracked asset.
#[derive(Debug)]
pub struct Coin<N> {
    pub id: String,
    pub name: String,
    pub symbol: String,
    pub rank: i64,
    pub price_usd: N,
    pub price_btc: N,
    pub volume_usd: N,
    pub market_cap_usd: N,
    pub available_supply: N,
    pub total_supply: N,
    pub max_supply: N,
    pub percent_change_1h: N,
    pub percent_change_24h: N,
    pub percent_change_7d: N,
    pub last_updated: i64,
    pub price_cny: N,
    pub volume_cny: N,
    pub market_cap_cny: N,
    pub no: i64,
}

/// The figures of an asset in one quote currency, as the feed gave them.
pub struct Quote<N> {
    pub price: Option<N>,
    pub volume_24h: Option<N>,
    pub market_cap: Option<N>,
    pub percent_change_1h: Option<N>,
    pub percent_change_24h: Option<N>,
    pub percent_change_7d: Option<N>,
}

/// One entry of the feed's ticker snapshot. A field that the payload lacked,
/// or that was of another kind than expected, is `None`.
pub struct Ticker<N> {
    pub id: Option<i64>,
    pub name: Option<String>,
    pub symbol: Option<String>,
    pub website_slug: Option<String>,
    pub rank: Option<i64>,
    pub circulating_supply: Option<N>,
    pub total_supply: Option<N>,
    pub max_supply: Option<N>,
    pub usd: Quote<N>,
    pub cny: Quote<N>,
    pub last_updated: Option<i64>,
}

/// The asset that a ticker entry describes. An entry without name, symbol,
/// slug or rank describes none; any other missing field counts as zero. The
/// price in bitcoin is not part of the snapshot and is zero.
pub open spec fn coin_of<N>(t: Ticker<N>, zero: N) -> Option<Coin<N>> {
    match (t.name, t.symbol, t.website_slug, t.rank) {
        (Some(name), Some(symbol), Some(slug), Some(rank)) => Some(
            Coin {
                id: slug,
                name: name,
                symbol: symbol,
                rank: rank,
                price_usd: or_zero(t.usd.price, zero),
                price_btc: zero,
                volume_usd: or_zero(t.usd.volume_24h, zero),
                market_cap_usd: or_zero(t.usd.market_cap, zero),
                available_supply: or_zero(t.circulating_supply, zero),
                total_supply: or_zero(t.total_supply, zero),
                max_supply: or_zero(t.max_supply, zero),
                percent_change_1h: or_zero(t.usd.percent_change_1h, zero),
                percent_change_24h: or_zero(t.usd.percent_change_24h, zero),
                percent_change_7d: or_zero(t.usd.percent_change_7d, zero),
                last_updated: match t.last_updated {
                    Some(at) => at,
                    None => 0,
                },
                price_cny: or_zero(t.cny.price, zero),
                volume_cny: or_zero(t.cny.volume_24h, zero),
                market_cap_cny: or_zero(t.cny.market_cap, zero),
                no: match t.id {
                    Some(no) => no,
                    None => 0,
                },
            },
        ),
        _ => None,
    }
}

/// The assets that a ticker snapshot describes, in the order of its entries.
pub open spec fn coins_of<N>(tickers: Seq<Ticker<N>>, zero: N) -> Seq<Coin<N>>
    decreases tickers.len(),
{
    if tickers.len() == 0 {
        Seq::empty()
    } else {
        match coin_of(tickers.last(), zero) {
            Some(coin) => coins_of(tickers.drop_last(), zero).push(coin),
            None => coins_of(tickers.drop_last(), zero),
        }
    }
}

fn number_or<N: Copy>(field: Option<N>, zero: N) -> (n: N)
    ensures
        n == or_zero(field, zero),
{
    match field {
        Some(v) => v,
        None => zero,
    }
}

impl<N: Copy> Coin<N> {
    /// Reads one entry of the ticker snapshot.
    pub fn from_json(j: &Ticker<N>, zero: N) -> (coin: Option<Coin<N>>)
        ensures
            coin == coin_of(*j, zero),
    {
        let name = match &j.name {
            Some(s) => s.clone(),
            None => { return None; },
        };
        let symbol = match &j.symbol {
            Some(s) => s.clone(),
            None => { return None; },
        };
        let id = match &j.website_slug {
            Some(s) => s.clone(),
            None => { return None; },
        };
        let rank: i64 = match j.rank {
            Some(r) => r,
            None => { return None; },
        };
        Some(
            Coin {
                id,
                name,
                symbol,
                rank,
                price_usd: number_or(j.usd.price, zero),
                price_btc: zero,
                volume_usd: number_or(j.usd.volume_24h, zero),
                market_cap_usd: number_or(j.usd.market_cap, zero),
                available_supply: number_or(j.circulating_supply, zero),
                total_supply: number_or(j.total_supply, zero),
                max_supply: number_or(j.max_supply, zero),
                percent_change_1h: number_or(j.usd.percent_change_1h, zero),
                percent_change_24h: number_or(j.usd.percent_change_24h, zero),
                percent_change_7d: number_or(j.usd.percent_change_7d, zero),
                last_updated: match j.last_updated {
                    Some(at) => at,
                    None => 0,
                },
                price_cny: number_or(j.cny.price, zero),
                volume_cny: number_or(j.cny.volume_24h, zero),
                market_cap_cny: number_or(j.cny.market_cap, zero),
                no: match j.id {
                    Some(no) => no,
                    None => 0,
                },
            },
        )
    }
}

/// Reads a ticker snapshot, skipping the entries that describe no asset.
pub fn catalog<N: Copy>(tickers: &Vec<Ticker<N>>, zero: N) -> (coins: Vec<Coin<N>>)
    ensures
        coins@ == coins_of(tickers@, zero),
{
    let mut coins: Vec<Coin<N>> = Vec::new();
    let mut i: usize = 0;
    while i < tickers.len()
        invariant
            0 <= i <= tickers@.len(),
            coins@ == coins_of(tickers@.take(i as int), zero),
        decreases tickers@.len() - i,
    {
        proof {
            assert(tickers@.take(i + 1).drop_last() == tickers@.take(i as int));
        }
        match Coin::from_json(&tickers[i], zero) {
            Some(coin) => {
                coins.push(coin);
            },
            None => {},
        }
        i += 1;
    }
    proof {
        assert(tickers@.take(i as int) == tickers@);
    }
    coins
}

/// The snapshot that readers see: the exchange rate and all tracked assets.
pub struct State<N> {
    pub usd2cny_rate: N,
    pub coins: Vec<Coin<N>>,
}

/// The first asset of the given id, if there is one.
pub open spec fn found<N>(coins: Seq<Coin<N>>, coin_id: Seq<char>, i: int) -> bool {
    &&& 0 <= i < coins.len()
    &&& coins[i].id@ == coin_id
    &&& forall|j: int| 0 <= j < i ==> (#[trigger] coins[j]).id@ != coin_id
}

impl<N: Copy> State<N> {
    /// The snapshot that a start begins with: what the cache held of the
    /// last ticker snapshot and of the exchange rate. Without a cached
    /// snapshot there are no assets, and without a cached rate it is `zero`.
    pub fn init(cached_coins: &Option<Vec<Ticker<N>>>, cached_rate: Option<N>, zero: N) -> (state:
        State<N>)
        ensures
            state.usd2cny_rate == or_zero(cached_rate, zero),
            state.coins@ == match *cached_coins {
                Some(tickers) => coins_of(tickers@, zero),
                None => Seq::empty(),
            },
    {
        let coins = match cached_coins {
            Some(tickers) => catalog(tickers, zero),
            None => Vec::new(),
        };
        State { usd2cny_rate: number_or(cached_rate, zero), coins }
    }

    /// Looks an asset up by its id.
    pub fn find(&self, coin_id: &String) -> (r: Option<&Coin<N>>)
        ensures
            match r {
                Some(coin) => exists|i: int|
                    found(self.coins@, coin_id@, i) && *coin == self.coins@[i],
                None => forall|i: int|
                    0 <= i < self.coins@.len() ==> (#[trigger] self.coins@[i]).id@ != coin_id@,
            },
    {
        let mut i: usize = 0;
        while i < self.coins.len()
            invariant
                0 <= i <= self.coins@.len(),
                forall|j: int| 0 <= j < i ==> (#[trigger] self.coins@[j]).id@ != coin_id@,
            decreases self.coins@.len() - i,
        {
            if self.coins[i].id == *coin_id {
                assert(found(self.coins@, coin_id@, i as int));
                return Some(&self.coins[i]);
            }
            i += 1;
        }
        None
    }
}

/// Replaces the whole catalog by what a fresh ticker snapshot describes.
/// The exchange rate stays.
pub fn refresh_coins<N: Copy>(state: &mut State<N>, tickers: &Vec<Ticker<N>>, zero: N)
    ensures
        final(state).coins@ == coins_of(tickers@, zero),
        final(state).usd2cny_rate == old(state).usd2cny_rate,
{
    state.coins = catalog(tickers, zero);
}

/// Takes over a freshly fetched exchange rate. Where the feed gave none,
/// the snapshot stays as it is and the refresh has failed. The catalog stays.
pub fn refresh_rates<N: Copy>(state: &mut State<N>, rate: Option<N>) -> (r: Result<
    (),
    RefreshError,
>)
    ensures
        final(state).coins == old(state).coins,
        match rate {
            Some(v) => r == Ok::<(), RefreshError>(()) && final(state).usd2cny_rate == v,
            None => r == Err::<(), RefreshError>(RefreshError::FetchFailed)
                && final(state).usd2cny_rate == old(state).usd2cny_rate,
        },
{
    match rate {
        Some(v) => {
            state.usd2cny_rate = v;
            Ok(())
        },
        None => Err(RefreshError::FetchFailed),
    }
}

/// Number of entries that one page of the ticker snapshot holds.
pub const PAGE_LIMIT: i64 = 100;

/// The address of one page of the ticker snapshot.
pub open spec fn ticker_url_of(start: int, limit: int) -> Seq<char> {
    "https://api.coinmarketcap.com/v2/ticker/?convert=CNY&start="@ + decimal_of(start)
        + "&limit="@ + decimal_of(limit) + "&sort=id&structure=array"@
}

/// The address of the page of the ticker snapshot that begins at entry `start`.
pub fn ticker_url(start: i64, limit: i64) -> (url: String)
    ensures
        url@ == ticker_url_of(start as int, limit as int),
{
    let mut url = "https://api.coinmarketcap.com/v2/ticker/?convert=CNY&start=".to_owned();
    url.append(decimal(start as i128).as_str());
    url.append("&limit=");
    url.append(decimal(limit as i128).as_str());
    url.append("&sort=id&structure=array");
    url
}

/// The address of an asset's price history for a window given in seconds.
/// The feed takes the ends of the window in milliseconds.
pub open spec fn history_url_of(id: Seq<char>, from: int, to: int) -> Seq<char> {
    "https://graphs2.coinmarketcap.com/currencies/"@ + id + "/"@ + decimal_of(from * 1000) + "/"@
        + decimal_of(to * 1000) + "/"@
}

/// The address of the price history of the asset `id` for the window from `from` to `to`.
pub fn history_url(id: &str, from: i64, to: i64) -> (url: String)
    ensures
        url@ == history_url_of(id@, from as int, to as int),
{
    let mut url = "https://graphs2.coinmarketcap.com/currencies/".to_owned();
    url.append(id);
    url.append("/");
    url.append(decimal(from as i128 * 1000).as_str());
    url.append("/");
    url.append(decimal(to as i128 * 1000).as_str());
    url.append("/");
    url
}

} // verus!
