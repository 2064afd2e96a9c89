//! What the service answers from a user's holding events: the holdings as
//! they stand, and the grouping that a value series is built from.

use crate::error::E;
use crate::models::UserCoin;
use crate::worker::{found, Coin, State};
use vstd::prelude::*;

verus! {

/// Some event of the list is about the asset `id`.
pub open spec fn occurs<N>(events: Seq<UserCoin<N>>, id: Seq<char>) -> bool {
    exists|j: int| 0 <= j < events.len() && (#[trigger] events[j]).coin_id@ == id
}

/// The holdings as they stand: of each asset the last event, the latest asset first.
pub open spec fn latest_of<N>(events: Seq<UserCoin<N>>) -> Seq<UserCoin<N>>
    decreases events.len(),
{
    if events.len() == 0 {
        Seq::empty()
    } else if occurs(events.drop_first(), events.first().coin_id@) {
        latest_of(events.drop_first())
    } else {
        latest_of(events.drop_first()).push(events.first())
    }
}

/// The time of the earliest event; 0 where there is none.
pub open spec fn earliest<N>(events: Seq<UserCoin<N>>) -> int
    decreases events.len(),
{
    if events.len() == 0 {
        0
    } else if events.len() == 1 || events.last().created <= earliest(events.drop_last()) {
        events.last().created as int
    } else {
        earliest(events.drop_last())
    }
}

/// The time and amount of each event about the asset `id`, in the order of the events.
pub open spec fn events_of<N>(events: Seq<UserCoin<N>>, id: Seq<char>) -> Seq<(i64, N)>
    decreases events.len(),
{
    if events.len() == 0 {
        Seq::empty()
    } else if events.last().coin_id@ == id {
        events_of(events.drop_last(), id).push((events.last().created, events.last().amount))
    } else {
        events_of(events.drop_last(), id)
    }
}

/// The assets that the events are about, each once, in the order in which they first occur.
pub open spec fn asset_ids<N>(events: Seq<UserCoin<N>>) -> Seq<Seq<char>>
    decreases events.len(),
{
    if events.len() == 0 {
        Seq::empty()
    } else if occurs(events.drop_last(), events.last().coin_id@) {
        asset_ids(events.drop_last())
    } else {
        asset_ids(events.drop_last()).push(events.last().coin_id@)
    }
}

/// `asset_ids` holds exactly the assets that occur, and each of them once.
pub proof fn lemma_asset_ids<N>(events: Seq<UserCoin<N>>)
    ensures
        forall|id: Seq<char>| #[trigger]
            occurs(events, id) <==> asset_ids(events).contains(id),
        forall|g: int, h: int|
            0 <= g < h < asset_ids(events).len() ==> asset_ids(events)[g] != asset_ids(events)[h],
    decreases events.len(),
{
    if events.len() > 0 {
        let front = events.drop_last();
        let last_id = events.last().coin_id@;
        lemma_asset_ids(front);
        assert forall|id: Seq<char>| #[trigger]
            occurs(events, id) <==> asset_ids(events).contains(id) by {
            if occurs(events, id) {
                let j = choose|j: int|
                    0 <= j < events.len() && (#[trigger] events[j]).coin_id@ == id;
                if j < front.len() {
                    assert(front[j] == events[j]);
                    assert(occurs(front, id));
                    let g = choose|g: int|
                        0 <= g < asset_ids(front).len() && asset_ids(front)[g] == id;
                    assert(asset_ids(events)[g] == id);
                } else {
                    if occurs(front, last_id) {
                        assert(asset_ids(front).contains(id));
                    } else {
                        assert(asset_ids(events)[asset_ids(events).len() - 1] == id);
                    }
                }
            }
            if asset_ids(events).contains(id) {
                let g = choose|g: int|
                    0 <= g < asset_ids(events).len() && asset_ids(events)[g] == id;
                if g < asset_ids(front).len() {
                    assert(asset_ids(front)[g] == id);
                    assert(asset_ids(front).contains(id));
                    assert(occurs(front, id));
                    let j = choose|j: int|
                        0 <= j < front.len() && (#[trigger] front[j]).coin_id@ == id;
                    assert(events[j] == front[j]);
                } else {
                    assert(events[events.len() - 1].coin_id@ == id);
                }
            }
        }
        if !occurs(front, last_id) {
            assert forall|g: int, h: int| 0 <= g < h < asset_ids(events).len() implies asset_ids(
                events,
            )[g] != asset_ids(events)[h] by {
                if h == asset_ids(front).len() {
                    assert(asset_ids(front)[g] == asset_ids(events)[g]);
                    if asset_ids(front)[g] == last_id {
                        assert(asset_ids(front).contains(last_id));
                    }
                }
            }
        }
    }
}

/// There is no event about an asset that does not occur.
pub proof fn lemma_no_events<N>(events: Seq<UserCoin<N>>, id: Seq<char>)
    requires
        !occurs(events, id),
    ensures
        events_of(events, id) == Seq::<(i64, N)>::empty(),
    decreases events.len(),
{
    if events.len() > 0 {
        let front = events.drop_last();
        assert(events[events.len() - 1].coin_id@ != id);
        if occurs(front, id) {
            let j = choose|j: int| 0 <= j < front.len() && (#[trigger] front[j]).coin_id@ == id;
            assert(events[j] == front[j]);
        }
        lemma_no_events(front, id);
    }
}

/// There is an event about every asset that occurs.
pub proof fn lemma_some_events<N>(events: Seq<UserCoin<N>>, id: Seq<char>)
    requires
        occurs(events, id),
    ensures
        events_of(events, id).len() > 0,
    decreases events.len(),
{
    if events.len() > 0 && events.last().coin_id@ != id {
        let front = events.drop_last();
        let j = choose|j: int| 0 <= j < events.len() && (#[trigger] events[j]).coin_id@ == id;
        assert(front[j] == events[j]);
        lemma_some_events(front, id);
    }
}

fn copy_of<'a, N: Copy>(event: &UserCoin<'a, N>) -> (copy: UserCoin<'a, N>)
    ensures
        copy == *event,
{
    UserCoin {
        id: event.id,
        coin_id: event.coin_id.clone(),
        amount: event.amount,
        created: event.created,
        coin: event.coin,
    }
}

fn holds(ids: &Vec<String>, id: &String) -> (r: bool)
    ensures
        r == exists|j: int| 0 <= j < ids@.len() && (#[trigger] ids@[j])@ == id@,
{
    let mut j: usize = 0;
    while j < ids.len()
        invariant
            0 <= j <= ids@.len(),
            forall|k: int| 0 <= k < j ==> (#[trigger] ids@[k])@ != id@,
        decreases ids@.len() - j,
    {
        if ids[j] == *id {
            return true;
        }
        j += 1;
    }
    false
}

/// The holdings of a user as they stand: of each asset the last of its
/// events, the asset with the latest such event first. `user_states` holds
/// all events of the user in ascending order of time.
pub fn states<'a, N: Copy>(user_states: &Vec<UserCoin<'a, N>>) -> (current: Vec<UserCoin<'a, N>>)
    ensures
        current@ == latest_of(user_states@),
{
    let mut current: Vec<UserCoin<'a, N>> = Vec::new();
    let mut got_coins: Vec<String> = Vec::new();
    let mut i: usize = user_states.len();
    while i > 0
        invariant
            0 <= i <= user_states@.len(),
            current@ == latest_of(user_states@.subrange(i as int, user_states@.len() as int)),
            forall|id: Seq<char>| #[trigger]
                occurs(user_states@.subrange(i as int, user_states@.len() as int), id) <==> exists|
                    j: int,
                |
                    0 <= j < got_coins@.len() && (#[trigger] got_coins@[j])@ == id,
        decreases i,
    {
        let ghost rest = user_states@.subrange(i as int, user_states@.len() as int);
        i -= 1;
        let state = &user_states[i];
        let ghost tail = user_states@.subrange(i as int, user_states@.len() as int);
        proof {
            assert(tail.drop_first() == rest);
            assert(tail.first() == *state);
        }
        if !holds(&got_coins, &state.coin_id) {
            let ghost before = got_coins@;
            got_coins.push(state.coin_id.clone());
            current.push(copy_of(state));
            proof {
                assert forall|id: Seq<char>| #[trigger]
                    occurs(tail, id) <==> exists|j: int|
                        0 <= j < got_coins@.len() && (#[trigger] got_coins@[j])@ == id by {
                    if occurs(tail, id) {
                        let j = choose|j: int|
                            0 <= j < tail.len() && (#[trigger] tail[j]).coin_id@ == id;
                        if j == 0 {
                            assert(got_coins@[got_coins@.len() - 1]@ == id);
                        } else {
                            assert(rest[j - 1] == tail[j]);
                            assert(occurs(rest, id));
                            let k = choose|k: int|
                                0 <= k < before.len() && (#[trigger] before[k])@ == id;
                            assert(got_coins@[k]@ == id);
                        }
                    }
                    if exists|j: int|
                        0 <= j < got_coins@.len() && (#[trigger] got_coins@[j])@ == id {
                        let k = choose|k: int|
                            0 <= k < got_coins@.len() && (#[trigger] got_coins@[k])@ == id;
                        if k < before.len() {
                            assert(before[k]@ == id);
                            assert(occurs(rest, id));
                            let j = choose|j: int|
                                0 <= j < rest.len() && (#[trigger] rest[j]).coin_id@ == id;
                            assert(tail[j + 1] == rest[j]);
                        } else {
                            assert(tail[0].coin_id@ == id);
                        }
                    }
                }
            }
        } else {
            proof {
                assert(occurs(rest, state.coin_id@));
                assert forall|id: Seq<char>| #[trigger]
                    occurs(tail, id) <==> exists|j: int|
                        0 <= j < got_coins@.len() && (#[trigger] got_coins@[j])@ == id by {
                    if occurs(tail, id) {
                        let j = choose|j: int|
                            0 <= j < tail.len() && (#[trigger] tail[j]).coin_id@ == id;
                        if j > 0 {
                            assert(rest[j - 1] == tail[j]);
                            assert(occurs(rest, id));
                        }
                    }
                    if occurs(rest, id) {
                        let j = choose|j: int|
                            0 <= j < rest.len() && (#[trigger] rest[j]).coin_id@ == id;
                        assert(tail[j + 1] == rest[j]);
                    }
                }
            }
        }
    }
    proof {
        assert(user_states@.subrange(0, user_states@.len() as int) == user_states@);
    }
    current
}

/// The time of the earliest holding event, from which a value series starts.
pub fn origin_ts<'a, N: Copy>(user_states: &Vec<UserCoin<'a, N>>) -> (origin: i64)
    ensures
        origin == earliest(user_states@),
{
    let mut origin: i64 = 0;
    let mut i: usize = 0;
    while i < user_states.len()
        invariant
            0 <= i <= user_states@.len(),
            origin == earliest(user_states@.take(i as int)),
        decreases user_states@.len() - i,
    {
        proof {
            assert(user_states@.take(i + 1).drop_last() == user_states@.take(i as int));
        }
        if i == 0 || user_states[i].created <= origin {
            origin = user_states[i].created;
        }
        i += 1;
    }
    proof {
        assert(user_states@.take(i as int) == user_states@);
    }
    origin
}

/// `groups` holds the events of `events` by asset: one group for each asset
/// that occurs, in the order in which the assets first occur, and in each
/// group the time and amount of each event about that asset, in the order of
/// the events.
pub open spec fn grouped<N>(events: Seq<UserCoin<N>>, groups: Seq<(String, Vec<(i64, N)>)>) -> bool {
    &&& groups.len() == asset_ids(events).len()
    &&& forall|g: int|
        0 <= g < groups.len() ==> (#[trigger] groups[g]).0@ == asset_ids(events)[g] && groups[g].1@
            == events_of(events, asset_ids(events)[g])
}

/// What a value series over all holdings of a user is built from: the time
/// at which the series begins, and the holding events grouped by asset.
pub fn states_history<'a, N: Copy>(user_states: &Vec<UserCoin<'a, N>>) -> (r: (
    i64,
    Vec<(String, Vec<(i64, N)>)>,
))
    ensures
        r.0 == earliest(user_states@),
        grouped(user_states@, r.1@),
        forall|g: int| 0 <= g < r.1@.len() ==> (#[trigger] r.1@[g]).1@.len() > 0,
{
    let origin: i64 = origin_ts(user_states);
    let mut groups: Vec<(String, Vec<(i64, N)>)> = Vec::new();
    let mut i: usize = 0;
    while i < user_states.len()
        invariant
            0 <= i <= user_states@.len(),
            grouped(user_states@.take(i as int), groups@),
        decreases user_states@.len() - i,
    {
        let state = &user_states[i];
        let ghost seen = user_states@.take(i as int);
        let ghost next = user_states@.take(i + 1);
        proof {
            assert(next.drop_last() == seen);
            assert(next.last() == *state);
            lemma_asset_ids(seen);
            lemma_asset_ids(next);
        }
        let n: usize = groups.len();
        let mut g: usize = 0;
        while g < n && !(groups[g].0 == state.coin_id)
            invariant
                0 <= g <= n == groups@.len(),
                forall|h: int| 0 <= h < g ==> (#[trigger] groups@[h]).0@ != state.coin_id@,
            decreases n - g,
        {
            g += 1;
        }
        if g < n {
            let ghost before = groups@;
            let mut group = groups.remove(g);
            group.1.push((state.created, state.amount));
            groups.insert(g, group);
            proof {
                assert(asset_ids(seen)[g as int] == state.coin_id@);
                assert(asset_ids(seen).contains(state.coin_id@));
                assert(occurs(seen, state.coin_id@));
                assert(asset_ids(next) == asset_ids(seen));
                assert forall|h: int| 0 <= h < groups@.len() implies (#[trigger] groups@[h]).0@
                    == asset_ids(next)[h] && groups@[h].1@ == events_of(
                    next,
                    asset_ids(next)[h],
                ) by {
                    if h != g {
                        assert(groups@[h] == before[h]);
                        assert(before[h].0@ != state.coin_id@) by {
                            assert(asset_ids(seen)[h] != asset_ids(seen)[g as int]);
                        }
                    }
                }
            }
        } else {
            let ghost before = groups@;
            let mut events: Vec<(i64, N)> = Vec::new();
            events.push((state.created, state.amount));
            groups.push((state.coin_id.clone(), events));
            proof {
                if occurs(seen, state.coin_id@) {
                    let h = choose|h: int|
                        0 <= h < asset_ids(seen).len() && asset_ids(seen)[h] == state.coin_id@;
                    assert(before[h].0@ == state.coin_id@);
                }
                lemma_no_events(seen, state.coin_id@);
                assert(asset_ids(next) == asset_ids(seen).push(state.coin_id@));
                assert(events@ =~= events_of(next, state.coin_id@));
                assert forall|h: int| 0 <= h < groups@.len() implies (#[trigger] groups@[h]).0@
                    == asset_ids(next)[h] && groups@[h].1@ == events_of(
                    next,
                    asset_ids(next)[h],
                ) by {
                    if h < before.len() {
                        assert(groups@[h] == before[h]);
                        assert(before[h].0@ != state.coin_id@);
                    }
                }
            }
        }
        i += 1;
    }
    proof {
        assert(user_states@.take(i as int) == user_states@);
        lemma_asset_ids(user_states@);
        assert forall|g: int| 0 <= g < groups@.len() implies (#[trigger] groups@[g]).1@.len()
            > 0 by {
            assert(asset_ids(user_states@).contains(asset_ids(user_states@)[g]));
            lemma_some_events(user_states@, asset_ids(user_states@)[g]);
        }
    }
    (origin, groups)
}

/// Seconds that the price chart of a single asset looks back.
pub const COIN_WINDOW: i64 = 30 * 24 * 3600;

/// The window of the price chart of a single asset at `now`: its beginning
/// and its end. The time does not go below the earliest that there is.
pub fn coin_window(now: i64) -> (w: (i64, i64))
    ensures
        w.1 == now,
        w.0 == if now - COIN_WINDOW >= i64::MIN {
            now - COIN_WINDOW
        } else {
            i64::MIN as int
        },
{
    if now >= i64::MIN + COIN_WINDOW {
        (now - COIN_WINDOW, now)
    } else {
        (i64::MIN, now)
    }
}

/// What the `regex` crate says of a pattern and a text: whether the text has
/// a match of the pattern, or `None` where the pattern does not compile.
pub uninterp spec fn regex_match(pattern: Seq<char>, text: Seq<char>) -> Option<bool>;

/// `Regex::new` and `Regex::is_match` of the `regex` crate.
#[verifier::external_body]
fn regex_is_match(pattern: &str, text: &str) -> (r: Option<bool>)
    ensures
        r == regex_match(pattern@, text@),
{
    match regex::Regex::new(pattern) {
        Ok(re) => Some(re.is_match(text)),
        Err(_) => None,
    }
}

/// The pattern of a mobile phone number: a `1` and ten digits.
pub open spec fn mobile_pattern() -> Seq<char> {
    "^1\\d{10}$"@
}

/// What the service makes of the match of a phone number against the pattern.
pub fn mobile_verdict(matched: Option<bool>) -> (r: Result<(), E>)
    ensures
        r == match matched {
            Some(true) => Ok::<(), E>(()),
            Some(false) => Err::<(), E>(E::SmsMobileInvalid),
            None => Err::<(), E>(E::Unknown),
        },
{
    match matched {
        Some(true) => Ok(()),
        Some(false) => Err(E::SmsMobileInvalid),
        None => Err(E::Unknown),
    }
}

/// Checks that `mobile` is a mobile phone number; `E::SmsMobileInvalid` where it is not.
pub fn check_mobile(mobile: &str) -> (r: Result<(), E>)
    ensures
        r == match regex_match(mobile_pattern(), mobile@) {
            Some(true) => Ok::<(), E>(()),
            Some(false) => Err::<(), E>(E::SmsMobileInvalid),
            None => Err::<(), E>(E::Unknown),
        },
{
    mobile_verdict(regex_is_match("^1\\d{10}$", mobile))
}

/// The asset of the given id as the catalog knows it; `E::CoinNotFound`
/// where the catalog has no such asset.
pub fn coin<'a, N: Copy>(worker_state: &'a State<N>, coin_id: &String) -> (r: Result<
    &'a Coin<N>,
    E,
>)
    ensures
        match r {
            Ok(coin) => exists|i: int|
                found(worker_state.coins@, coin_id@, i) && *coin == worker_state.coins@[i],
            Err(e) => e == E::CoinNotFound && forall|i: int|
                0 <= i < worker_state.coins@.len() ==> (#[trigger] worker_state.coins@[i]).id@
                    != coin_id@,
        },
{
    match worker_state.find(coin_id) {
        Some(coin) => Ok(coin),
        None => Err(E::CoinNotFound),
    }
}

} // verus!
