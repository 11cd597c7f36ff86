//! The player delta: which players joined and which left between two
//! reports of one server.

use vstd::prelude::*;
use vstd::string::*;
use crate::json::str_eq;
use crate::status::{
    named_players, pairs_view, player_pairs, players_view, sample_pairs, ActionType, Players,
    PlayersValue,
};
use crate::text::{trim_text, trimmed_text};

verus! {

/// A name and an id, as texts.
pub type Pair = (Seq<char>, Seq<char>);

/// The characters that no recorded name or id holds: the space, the section
/// sign and the full stop.
pub open spec fn is_forbidden(c: char) -> bool {
    c == ' ' || c == '\u{a7}' || c == '.'
}

/// Whether a text holds a forbidden character.
pub open spec fn has_forbidden_char(s: Seq<char>) -> bool {
    exists|i: int| 0 <= i < s.len() && is_forbidden(#[trigger] s[i])
}

/// Whether a text holds a space, a section sign or a full stop.
pub fn contains_forbidden(s: &str) -> (r: bool)
    ensures
        r == has_forbidden_char(s@),
{
    let mut found = false;
    for c in it: s.chars()
        invariant
            it.seq() == s@,
            found == has_forbidden_char(s@.take(it.index() as int)),
    {
        proof {
            let upto = s@.take(it.index() + 1);
            let before = s@.take(it.index() as int);
            assert(upto.last() == c);
            if has_forbidden_char(before) {
                let i = choose|i: int| 0 <= i < before.len() && is_forbidden(#[trigger] before[i]);
                assert(is_forbidden(upto[i]));
            }
            if has_forbidden_char(upto) {
                let i = choose|i: int| 0 <= i < upto.len() && is_forbidden(#[trigger] upto[i]);
                if i < before.len() {
                    assert(is_forbidden(before[i]));
                }
            }
        }
        if c == ' ' || c == '\u{a7}' || c == '.' {
            found = true;
        }
    }
    proof {
        assert(s@.take(s@.len() as int) =~= s@);
    }
    found
}

/// Whether a player is recorded, given the name and the id and what is left
/// of each without the whitespace at its ends: neither is blank, and neither
/// holds a forbidden character.
pub open spec fn recordable_given(
    name: Seq<char>,
    id: Seq<char>,
    trimmed_name: Seq<char>,
    trimmed_id: Seq<char>,
) -> bool {
    trimmed_name.len() > 0 && trimmed_id.len() > 0 && !has_forbidden_char(name)
        && !has_forbidden_char(id)
}

/// Whether a player is recorded.
pub open spec fn recordable(pair: Pair) -> bool {
    recordable_given(pair.0, pair.1, trimmed_text(pair.0), trimmed_text(pair.1))
}

/// Decides whether a player is recorded, given the trimmed name and id.
pub fn is_recordable_given(name: &str, id: &str, trimmed_name: &str, trimmed_id: &str) -> (r: bool)
    ensures
        r == recordable_given(name@, id@, trimmed_name@, trimmed_id@),
{
    if trimmed_name.is_empty() || trimmed_id.is_empty() {
        return false;
    }
    !contains_forbidden(name) && !contains_forbidden(id)
}

/// Decides whether a player is recorded: not one whose name or id is blank
/// or holds a space, a section sign or a full stop.
pub fn is_recordable(name: &str, id: &str) -> (r: bool)
    ensures
        r == recordable((name@, id@)),
{
    is_recordable_given(name, id, trim_text(name), trim_text(id))
}

/// The pairs of `pairs` that are recorded, in their order.
pub open spec fn recorded(pairs: Seq<Pair>) -> Seq<Pair>
    decreases pairs.len(),
{
    if pairs.len() == 0 {
        Seq::empty()
    } else if recordable(pairs.last()) {
        recorded(pairs.drop_last()).push(pairs.last())
    } else {
        recorded(pairs.drop_last())
    }
}

/// The pairs of `pairs` that `other` does not hold, each once, in the order
/// in which they first occur.
pub open spec fn without(pairs: Seq<Pair>, other: Seq<Pair>) -> Seq<Pair>
    decreases pairs.len(),
{
    if pairs.len() == 0 {
        Seq::empty()
    } else {
        let front = without(pairs.drop_last(), other);
        if other.contains(pairs.last()) || front.contains(pairs.last()) {
            front
        } else {
            front.push(pairs.last())
        }
    }
}

/// The model of a [`PlayerEvent`].
pub struct EventValue {
    pub name: Seq<char>,
    pub uuid: Seq<char>,
    pub action: ActionType,
}

/// One event to record: a player joined or left.
#[derive(Debug, Clone, PartialEq, Eq)]
pub struct PlayerEvent {
    pub name: String,
    pub uuid: String,
    pub action: ActionType,
}

impl View for PlayerEvent {
    type V = EventValue;

    open spec fn view(&self) -> EventValue {
        EventValue { name: self.name@, uuid: self.uuid@, action: self.action }
    }
}

/// The models of a list of events.
pub open spec fn events_view(events: Seq<PlayerEvent>) -> Seq<EventValue> {
    events.map_values(|e: PlayerEvent| e@)
}

/// One event of the kind `action` for each pair.
pub open spec fn events_of(pairs: Seq<Pair>, action: ActionType) -> Seq<EventValue> {
    pairs.map_values(|p: Pair| EventValue { name: p.0, uuid: p.1, action })
}

/// Whether two lists hold the same pairs, whatever their order and however
/// often each occurs.
pub open spec fn same_pairs(a: Seq<Pair>, b: Seq<Pair>) -> bool {
    forall|p: Pair| a.contains(p) <==> b.contains(p)
}

/// Whether two reports are equal: the same `max`, the same `online`, and the
/// same players among those of the sample that have a name and an id.
pub open spec fn same_report(a: PlayersValue, b: PlayersValue) -> bool {
    a.max == b.max && a.online == b.online && same_pairs(
        named_players(Some(a)),
        named_players(Some(b)),
    )
}

/// Whether two reports that may be missing are equal: both are missing, or
/// both are there and are equal.
pub open spec fn same_optional_report(a: Option<PlayersValue>, b: Option<PlayersValue>) -> bool {
    match (a, b) {
        (None, None) => true,
        (Some(x), Some(y)) => same_report(x, y),
        _ => false,
    }
}

/// The events that a report gives rise to. On a server seen for the first
/// time every recorded player of the sample joined. On a known server whose
/// report differs from the one before, those who are new in the sample joined
/// and those who are gone from it left; a report that is missing names
/// nobody. Else nothing happened.
pub open spec fn player_events(
    is_new_server: bool,
    old: Option<PlayersValue>,
    new: Option<PlayersValue>,
) -> Seq<EventValue> {
    if is_new_server {
        events_of(recorded(named_players(new)), ActionType::Joined)
    } else if !same_optional_report(old, new) {
        events_of(
            recorded(without(named_players(new), named_players(old))),
            ActionType::Joined,
        ) + events_of(recorded(without(named_players(old), named_players(new))), ActionType::Left)
    } else {
        Seq::empty()
    }
}

fn same_number(a: &Option<i32>, b: &Option<i32>) -> (r: bool)
    ensures
        r == (*a == *b),
{
    match (a, b) {
        (Some(x), Some(y)) => *x == *y,
        (None, None) => true,
        _ => false,
    }
}

fn holds_pair(list: &Vec<(String, String)>, name: &str, id: &str) -> (r: bool)
    ensures
        r == pairs_view(list@).contains((name@, id@)),
{
    let mut i: usize = 0;
    while i < list.len()
        invariant
            i <= list@.len(),
            forall|j: int| 0 <= j < i ==> pairs_view(list@)[j] != (name@, id@),
        decreases list.len() - i,
    {
        if str_eq(list[i].0.as_str(), name) && str_eq(list[i].1.as_str(), id) {
            assert(pairs_view(list@)[i as int] == (name@, id@));
            return true;
        }
        i += 1;
    }
    false
}

fn difference(pairs: &Vec<(String, String)>, other: &Vec<(String, String)>) -> (r: Vec<
    (String, String),
>)
    ensures
        pairs_view(r@) == without(pairs_view(pairs@), pairs_view(other@)),
{
    let mut out: Vec<(String, String)> = Vec::new();
    let mut i: usize = 0;
    proof {
        assert(pairs_view(pairs@).take(0) =~= Seq::<Pair>::empty());
        assert(pairs_view(out@) =~= Seq::<Pair>::empty());
    }
    while i < pairs.len()
        invariant
            i <= pairs@.len(),
            pairs_view(out@) == without(pairs_view(pairs@).take(i as int), pairs_view(other@)),
        decreases pairs.len() - i,
    {
        let ghost before = out@;
        proof {
            let upto = pairs_view(pairs@).take(i + 1);
            assert(upto.drop_last() =~= pairs_view(pairs@).take(i as int));
            assert(upto.last() == (pairs@[i as int].0@, pairs@[i as int].1@));
        }
        let name = pairs[i].0.as_str();
        let id = pairs[i].1.as_str();
        if !holds_pair(other, name, id) && !holds_pair(&out, name, id) {
            out.push((pairs[i].0.clone(), pairs[i].1.clone()));
            proof {
                assert(pairs_view(out@) =~= pairs_view(before).push((name@, id@)));
            }
        }
        i += 1;
    }
    proof {
        assert(pairs_view(pairs@).take(pairs@.len() as int) =~= pairs_view(pairs@));
    }
    out
}

fn all_held(pairs: &Vec<(String, String)>, other: &Vec<(String, String)>) -> (r: bool)
    ensures
        r == forall|p: Pair|
            pairs_view(pairs@).contains(p) ==> pairs_view(other@).contains(p),
{
    let mut i: usize = 0;
    while i < pairs.len()
        invariant
            i <= pairs@.len(),
            forall|j: int|
                0 <= j < i ==> pairs_view(other@).contains(#[trigger] pairs_view(pairs@)[j]),
        decreases pairs.len() - i,
    {
        if !holds_pair(other, pairs[i].0.as_str(), pairs[i].1.as_str()) {
            assert(pairs_view(pairs@).contains(pairs_view(pairs@)[i as int]));
            return false;
        }
        i += 1;
    }
    proof {
        assert forall|p: Pair| pairs_view(pairs@).contains(p) implies pairs_view(
            other@,
        ).contains(p) by {
            let j = choose|j: int| 0 <= j < pairs_view(pairs@).len() && pairs_view(pairs@)[j] == p;
            assert(pairs_view(other@).contains(pairs_view(pairs@)[j]));
        }
    }
    true
}

/// Whether two reports are equal: the same `max`, the same `online`, and the
/// same players among those of the sample that have a name and an id.
pub fn same_players(a: &Players, b: &Players) -> (r: bool)
    ensures
        r == same_report(a@, b@),
{
    if !same_number(&a.max, &b.max) || !same_number(&a.online, &b.online) {
        return false;
    }
    let xs = player_pairs(a);
    let ys = player_pairs(b);
    all_held(&xs, &ys) && all_held(&ys, &xs)
}

fn push_recorded(out: &mut Vec<PlayerEvent>, pairs: &Vec<(String, String)>, action: ActionType)
    ensures
        events_view(final(out)@) == events_view(old(out)@) + events_of(
            recorded(pairs_view(pairs@)),
            action,
        ),
{
    let mut i: usize = 0;
    proof {
        assert(pairs_view(pairs@).take(0) =~= Seq::<Pair>::empty());
        assert(events_view(out@) =~= events_view(old(out)@) + events_of(
            recorded(Seq::<Pair>::empty()),
            action,
        ));
    }
    while i < pairs.len()
        invariant
            i <= pairs@.len(),
            events_view(out@) == events_view(old(out)@) + events_of(
                recorded(pairs_view(pairs@).take(i as int)),
                action,
            ),
        decreases pairs.len() - i,
    {
        let ghost before = out@;
        let ghost seen = recorded(pairs_view(pairs@).take(i as int));
        proof {
            let upto = pairs_view(pairs@).take(i + 1);
            assert(upto.drop_last() =~= pairs_view(pairs@).take(i as int));
            assert(upto.last() == (pairs@[i as int].0@, pairs@[i as int].1@));
        }
        if is_recordable(pairs[i].0.as_str(), pairs[i].1.as_str()) {
            out.push(PlayerEvent { name: pairs[i].0.clone(), uuid: pairs[i].1.clone(), action });
            proof {
                let pair = (pairs@[i as int].0@, pairs@[i as int].1@);
                assert(events_view(out@) =~= events_view(before).push(
                    EventValue { name: pair.0, uuid: pair.1, action },
                ));
                assert(events_of(seen.push(pair), action) =~= events_of(seen, action).push(
                    EventValue { name: pair.0, uuid: pair.1, action },
                ));
            }
        }
        i += 1;
    }
    proof {
        assert(pairs_view(pairs@).take(pairs@.len() as int) =~= pairs_view(pairs@));
    }
}

/// Plans the events to record for a report, given the report before it and
/// whether the server was seen for the first time.
pub fn plan_events(is_new_server: bool, old: &Option<Players>, new: &Option<Players>) -> (r: Vec<
    PlayerEvent,
>)
    ensures
        events_view(r@) == player_events(is_new_server, players_view(*old), players_view(*new)),
{
    let mut events: Vec<PlayerEvent> = Vec::new();
    proof {
        assert(events_view(events@) =~= Seq::<EventValue>::empty());
    }
    if is_new_server {
        let current = sample_pairs(new);
        push_recorded(&mut events, &current, ActionType::Joined);
        proof {
            assert(events_view(events@) =~= events_of(
                recorded(named_players(players_view(*new))),
                ActionType::Joined,
            ));
        }
        return events;
    }
    let same = match (old, new) {
        (None, None) => true,
        (Some(before), Some(now)) => same_players(before, now),
        _ => false,
    };
    if !same {
        let old_pairs = sample_pairs(old);
        let new_pairs = sample_pairs(new);
        let joined = difference(&new_pairs, &old_pairs);
        let left = difference(&old_pairs, &new_pairs);
        push_recorded(&mut events, &joined, ActionType::Joined);
        proof {
            assert(events_view(events@) =~= events_of(
                recorded(pairs_view(joined@)),
                ActionType::Joined,
            ));
        }
        push_recorded(&mut events, &left, ActionType::Left);
    }
    events
}

/// The delta holds a pair exactly when the first list holds it and the
/// second does not, and holds no pair twice.
pub proof fn lemma_without(pairs: Seq<Pair>, other: Seq<Pair>)
    ensures
        forall|p: Pair| #[trigger]
            without(pairs, other).contains(p) <==> pairs.contains(p) && !other.contains(p),
        without(pairs, other).no_duplicates(),
    decreases pairs.len(),
{
    if pairs.len() > 0 {
        let front = without(pairs.drop_last(), other);
        let last = pairs.last();
        lemma_without(pairs.drop_last(), other);
        let whole = without(pairs, other);
        assert forall|p: Pair| #[trigger]
            whole.contains(p) <==> pairs.contains(p) && !other.contains(p) by {
            if whole.contains(p) {
                let i = choose|i: int| 0 <= i < whole.len() && whole[i] == p;
                if i < front.len() {
                    assert(front.contains(p));
                    let j = choose|j: int|
                        0 <= j < pairs.drop_last().len() && pairs.drop_last()[j] == p;
                    assert(pairs[j] == p);
                } else {
                    assert(pairs[pairs.len() - 1] == p);
                }
            }
            if pairs.contains(p) && !other.contains(p) {
                let j = choose|j: int| 0 <= j < pairs.len() && pairs[j] == p;
                if j < pairs.len() - 1 {
                    assert(pairs.drop_last()[j] == p);
                    assert(front.contains(p));
                    let i = choose|i: int| 0 <= i < front.len() && front[i] == p;
                    assert(whole[i] == p);
                } else if front.contains(p) {
                    let i = choose|i: int| 0 <= i < front.len() && front[i] == p;
                    assert(whole[i] == p);
                } else {
                    assert(whole[whole.len() - 1] == p);
                }
            }
        }
    }
}

/// The recorded pairs of a list are its pairs that are recorded.
proof fn lemma_recorded(pairs: Seq<Pair>)
    ensures
        forall|p: Pair| #[trigger]
            recorded(pairs).contains(p) <==> pairs.contains(p) && recordable(p),
    decreases pairs.len(),
{
    if pairs.len() > 0 {
        let front = pairs.drop_last();
        let last = pairs.last();
        lemma_recorded(front);
        let whole = recorded(pairs);
        assert forall|p: Pair| #[trigger]
            whole.contains(p) <==> pairs.contains(p) && recordable(p) by {
            if whole.contains(p) {
                let i = choose|i: int| 0 <= i < whole.len() && whole[i] == p;
                if i < recorded(front).len() {
                    assert(recorded(front)[i] == p);
                    assert(recorded(front).contains(p));
                    let j = choose|j: int| 0 <= j < front.len() && front[j] == p;
                    assert(pairs[j] == p);
                } else {
                    assert(pairs[pairs.len() - 1] == p);
                }
            }
            if pairs.contains(p) && recordable(p) {
                let j = choose|j: int| 0 <= j < pairs.len() && pairs[j] == p;
                if j < pairs.len() - 1 {
                    assert(front[j] == p);
                    assert(recorded(front).contains(p));
                    let i = choose|i: int| 0 <= i < recorded(front).len() && recorded(front)[i]
                        == p;
                    assert(whole[i] == p);
                } else {
                    assert(whole[whole.len() - 1] == p);
                }
            }
        }
    }
}

/// The events of a list of pairs are one of the given kind for each pair.
proof fn lemma_events_of(pairs: Seq<Pair>, action: ActionType, e: EventValue)
    ensures
        events_of(pairs, action).contains(e) <==> e.action == action && pairs.contains(
            (e.name, e.uuid),
        ),
{
    let events = events_of(pairs, action);
    if events.contains(e) {
        let i = choose|i: int| 0 <= i < events.len() && events[i] == e;
        assert(pairs[i] == (e.name, e.uuid));
    }
    if e.action == action && pairs.contains((e.name, e.uuid)) {
        let i = choose|i: int| 0 <= i < pairs.len() && pairs[i] == (e.name, e.uuid);
        assert(events[i] == e);
    }
}

/// The delta of a known server: a player joined exactly when the new report
/// names the player and the old one does not, a player left exactly when the
/// old report names the player and the new one does not, and only players
/// that are recorded appear.
pub proof fn lemma_player_events(
    old: Option<PlayersValue>,
    new: Option<PlayersValue>,
    e: EventValue,
)
    ensures
        player_events(false, old, new).contains(e) <==> recordable((e.name, e.uuid)) && ((e.action
            == ActionType::Joined && named_players(new).contains((e.name, e.uuid))
            && !named_players(old).contains((e.name, e.uuid))) || (e.action == ActionType::Left
            && named_players(old).contains((e.name, e.uuid)) && !named_players(new).contains(
            (e.name, e.uuid),
        ))),
{
    let olds = named_players(old);
    let news = named_players(new);
    let p = (e.name, e.uuid);
    let joined = recorded(without(news, olds));
    let left = recorded(without(olds, news));
    lemma_without(news, olds);
    lemma_without(olds, news);
    lemma_recorded(without(news, olds));
    lemma_recorded(without(olds, news));
    lemma_events_of(joined, ActionType::Joined, e);
    lemma_events_of(left, ActionType::Left, e);
    let a = events_of(joined, ActionType::Joined);
    let b = events_of(left, ActionType::Left);
    assert(joined.contains(p) <==> without(news, olds).contains(p) && recordable(p));
    assert(left.contains(p) <==> without(olds, news).contains(p) && recordable(p));
    assert(without(news, olds).contains(p) <==> news.contains(p) && !olds.contains(p));
    assert(without(olds, news).contains(p) <==> olds.contains(p) && !news.contains(p));
    if (a + b).contains(e) {
        let i = choose|i: int| 0 <= i < (a + b).len() && (a + b)[i] == e;
        if i < a.len() {
            assert(a[i] == e);
        } else {
            assert(b[i - a.len()] == e);
        }
    }
    if a.contains(e) {
        let i = choose|i: int| 0 <= i < a.len() && a[i] == e;
        assert((a + b)[i] == e);
    }
    if b.contains(e) {
        let i = choose|i: int| 0 <= i < b.len() && b[i] == e;
        assert((a + b)[i + a.len()] == e);
    }
    if same_optional_report(old, new) {
        assert(!(news.contains(p) && !olds.contains(p)));
        assert(!(olds.contains(p) && !news.contains(p)));
        assert(!Seq::<EventValue>::empty().contains(e));
    }
}

} // verus!
