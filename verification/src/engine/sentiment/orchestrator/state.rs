//! State of one session. Moments are nanoseconds of a monotonic clock.

use vstd::prelude::*;

use crate::engine::sentiment::types::{
    ItemModel, LoadedItem, LoadedItemId, RecentTurn, TurnModel, TurnRole, item_models, turn_models,
};

verus! {

/// When each item last had a signal.
#[derive(Debug, Clone, PartialEq, Eq)]
pub struct RateLimits {
    entries: Vec<(LoadedItemId, u64)>,
}

impl View for RateLimits {
    type V = Map<Seq<char>, u64>;

    closed spec fn view(&self) -> Map<Seq<char>, u64> {
        entries_map(self.entries@)
    }
}

/// The entries as a map, a later one over an earlier one.
spec fn entries_map(entries: Seq<(LoadedItemId, u64)>) -> Map<Seq<char>, u64>
    decreases entries.len(),
{
    if entries.len() == 0 {
        Map::empty()
    } else {
        entries_map(entries.drop_last()).insert(entries.last().0@, entries.last().1)
    }
}

/// Time between two moments, none if the clock went backwards.
pub open spec fn elapsed(since: u64, now: u64) -> u64 {
    if now >= since {
        (now - since) as u64
    } else {
        0
    }
}

/// Whether `id` had a signal less than `cooldown` ago.
pub open spec fn is_limited(
    limits: Map<Seq<char>, u64>,
    id: Seq<char>,
    cooldown: u64,
    now: u64,
) -> bool {
    limits.dom().contains(id) && elapsed(limits[id], now) < cooldown
}

proof fn lemma_entries_map(entries: Seq<(LoadedItemId, u64)>, i: int)
    requires
        0 <= i < entries.len(),
        forall|j: int| i < j < entries.len() ==> (#[trigger] entries[j]).0@ != entries[i].0@,
    ensures
        entries_map(entries).dom().contains(entries[i].0@),
        entries_map(entries)[entries[i].0@] == entries[i].1,
    decreases entries.len(),
{
    if i < entries.len() - 1 {
        assert(entries.last() == entries[entries.len() - 1]);
        assert(entries.drop_last()[i] == entries[i]);
        assert forall|j: int| i < j < entries.drop_last().len() implies (
        #[trigger] entries.drop_last()[j]).0@ != entries.drop_last()[i].0@ by {
            assert(entries.drop_last()[j] == entries[j]);
        }
        lemma_entries_map(entries.drop_last(), i);
    }
}

proof fn lemma_entries_map_absent(entries: Seq<(LoadedItemId, u64)>, id: Seq<char>)
    requires
        forall|j: int| 0 <= j < entries.len() ==> (#[trigger] entries[j]).0@ != id,
    ensures
        !entries_map(entries).dom().contains(id),
    decreases entries.len(),
{
    if entries.len() > 0 {
        assert(entries.last() == entries[entries.len() - 1]);
        assert forall|j: int| 0 <= j < entries.drop_last().len() implies (
        #[trigger] entries.drop_last()[j]).0@ != id by {
            assert(entries.drop_last()[j] == entries[j]);
        }
        lemma_entries_map_absent(entries.drop_last(), id);
    }
}

/// An entry that is about to be overwritten does not matter.
proof fn lemma_entries_map_remove(entries: Seq<(LoadedItemId, u64)>, i: int, now: u64)
    requires
        0 <= i < entries.len(),
    ensures
        entries_map(entries.remove(i)).insert(entries[i].0@, now) == entries_map(entries).insert(
            entries[i].0@,
            now,
        ),
    decreases entries.len(),
{
    let k = entries[i].0@;
    if i == entries.len() - 1 {
        assert(entries.remove(i) =~= entries.drop_last());
        assert(entries_map(entries.remove(i)).insert(k, now) =~= entries_map(entries).insert(
            k,
            now,
        ));
    } else {
        let rest = entries.drop_last();
        let last = entries.last();
        assert(rest[i] == entries[i]);
        lemma_entries_map_remove(rest, i, now);
        assert(entries.remove(i).drop_last() =~= rest.remove(i));
        assert(entries.remove(i).last() == last);
        let m1 = entries_map(rest.remove(i));
        let m2 = entries_map(rest);
        assert(m1.insert(k, now) == m2.insert(k, now));
        let a = m1.insert(last.0@, last.1).insert(k, now);
        let b = m2.insert(last.0@, last.1).insert(k, now);
        let ik = m1.insert(k, now);
        assert forall|x: Seq<char>| #[trigger] a.dom().contains(x) == b.dom().contains(x) by {
            assert(ik.dom().contains(x) == m2.insert(k, now).dom().contains(x));
        }
        assert(a.dom() =~= b.dom());
        assert forall|x: Seq<char>| #[trigger] a.dom().contains(x) implies a[x] == b[x] by {
            if x != k && x != last.0@ {
                assert(ik[x] == m1[x]);
                assert(m2.insert(k, now)[x] == m2[x]);
            }
        }
        assert(a =~= b);
    }
}

impl RateLimits {
    pub fn new() -> (r: RateLimits)
        ensures
            r@ == Map::<Seq<char>, u64>::empty(),
    {
        RateLimits { entries: Vec::new() }
    }

    /// When `id` last had a signal.
    pub fn get(&self, id: &LoadedItemId) -> (r: Option<u64>)
        ensures
            match r {
                Some(t) => self@.dom().contains(id@) && self@[id@] == t,
                None => !self@.dom().contains(id@),
            },
    {
        let mut i: usize = self.entries.len();
        while i > 0
            invariant
                i <= self.entries.len(),
                forall|j: int|
                    i <= j < self.entries.len() ==> (#[trigger] self.entries@[j]).0@ != id@,
            decreases i,
        {
            if self.entries[i - 1].0.same(id) {
                proof {
                    lemma_entries_map(self.entries@, i - 1);
                }
                return Some(self.entries[i - 1].1);
            }
            i -= 1;
        }
        proof {
            lemma_entries_map_absent(self.entries@, id@);
        }
        None
    }

    /// Notes that `id` has a signal now.
    pub fn insert(&mut self, id: LoadedItemId, now: u64)
        ensures
            final(self)@ == old(self)@.insert(id@, now),
    {
        let mut i: usize = 0;
        while i < self.entries.len()
            invariant
                i <= self.entries.len(),
                self.entries@ == old(self).entries@,
            decreases self.entries.len() - i,
        {
            if self.entries[i].0.same(&id) {
                let _ = self.entries.remove(i);
                let ghost kept = self.entries@;
                self.entries.push((id, now));
                proof {
                    lemma_entries_map_remove(old(self).entries@, i as int, now);
                    assert(self.entries@.drop_last() =~= kept);
                }
                return;
            }
            i += 1;
        }
        self.entries.push((id, now));
        proof {
            assert(self.entries@.drop_last() =~= old(self).entries@);
        }
    }

    /// Whether `id` had a signal less than `cooldown` ago.
    pub fn limits(&self, id: &LoadedItemId, cooldown: u64, now: u64) -> (b: bool)
        ensures
            b == is_limited(self@, id@, cooldown, now),
    {
        match self.get(id) {
            Some(last) => time_between(last, now) < cooldown,
            None => false,
        }
    }
}

/// Time between two moments, none if the clock went backwards.
pub fn time_between(since: u64, now: u64) -> (d: u64)
    ensures
        d == elapsed(since, now),
{
    if now >= since {
        now - since
    } else {
        0
    }
}

/// What the session waits for.
#[derive(Debug, Clone, PartialEq, Eq)]
#[non_exhaustive]
pub enum SessionPhase {
    Idle,
    AwaitingClassifier { utterance: String, started_at: u64 },
}

#[derive(Debug, Clone, PartialEq, Eq)]
pub struct SessionState {
    pub recent_turns: Vec<RecentTurn>,
    pub rate_limit: RateLimits,
    pub phase: SessionPhase,
    pub turn_count: u64,
    /// When the last assistant turn was seen.
    pub last_assistant_turn_at: Option<u64>,
    /// The manifest of the session. The orchestrator never invents it.
    pub loaded_items: Vec<LoadedItem>,
}

/// The model of what a session waits for: the utterance at the classifier and since when.
pub type PhaseModel = Option<(Seq<char>, u64)>;

/// The model of a session.
#[verifier::ext_equal]
pub struct StateModel {
    pub turns: Seq<TurnModel>,
    pub limits: Map<Seq<char>, u64>,
    pub phase: PhaseModel,
    pub turn_count: u64,
    pub last_assistant: Option<u64>,
    pub items: Seq<ItemModel>,
}

impl View for SessionState {
    type V = StateModel;

    open spec fn view(&self) -> StateModel {
        StateModel {
            turns: turn_models(self.recent_turns@),
            limits: self.rate_limit@,
            phase: match self.phase {
                SessionPhase::Idle => None,
                SessionPhase::AwaitingClassifier { utterance, started_at } => Some(
                    (utterance@, started_at),
                ),
            },
            turn_count: self.turn_count,
            last_assistant: self.last_assistant_turn_at,
            items: item_models(self.loaded_items@),
        }
    }
}

/// A session of which nothing is known yet.
pub open spec fn fresh() -> StateModel {
    StateModel {
        turns: seq![],
        limits: Map::empty(),
        phase: None,
        turn_count: 0,
        last_assistant: None,
        items: seq![],
    }
}

impl Default for SessionState {
    fn default() -> (s: SessionState)
        ensures
            s@ == fresh(),
    {
        let s = SessionState {
            recent_turns: Vec::new(),
            rate_limit: RateLimits::new(),
            phase: SessionPhase::Idle,
            turn_count: 0,
            last_assistant_turn_at: None,
            loaded_items: Vec::new(),
        };
        proof {
            assert(s@ =~= fresh());
        }
        s
    }
}

/// The last `capacity` of `turns`.
pub open spec fn last_turns(turns: Seq<TurnModel>, capacity: nat) -> Seq<TurnModel> {
    if turns.len() > capacity {
        turns.skip(turns.len() - capacity)
    } else {
        turns
    }
}

/// The session after one more turn.
pub open spec fn with_turn(s: StateModel, capacity: nat, turn: TurnModel, now: u64) -> StateModel {
    StateModel {
        turns: last_turns(s.turns.push(turn), capacity),
        last_assistant: if turn.role == TurnRole::Assistant {
            Some(now)
        } else {
            s.last_assistant
        },
        ..s
    }
}

/// Appends a turn to the bounded list of recent turns, and notes the moment of an assistant turn.
pub fn push_turn(state: &mut SessionState, capacity: usize, turn: RecentTurn, now: u64)
    ensures
        final(state)@ == with_turn(old(state)@, capacity as nat, turn@, now),
{
    let ghost before = state@;
    let ghost pushed = before.turns.push(turn@);
    if turn.role == TurnRole::Assistant {
        state.last_assistant_turn_at = Some(now);
    }
    state.recent_turns.push(turn);
    let ghost mid = *state;
    proof {
        assert(turn_models(state.recent_turns@) =~= pushed);
        assert(pushed.skip(0) =~= pushed);
    }
    while state.recent_turns.len() > capacity
        invariant
            state.recent_turns.len() <= pushed.len(),
            turn_models(state.recent_turns@) == pushed.skip(
                pushed.len() - state.recent_turns.len(),
            ),
            pushed.len() > capacity ==> state.recent_turns.len() >= capacity,
            pushed.len() <= capacity ==> state.recent_turns.len() == pushed.len(),
            state.rate_limit == mid.rate_limit,
            state.phase == mid.phase,
            state.turn_count == mid.turn_count,
            state.last_assistant_turn_at == mid.last_assistant_turn_at,
            state.loaded_items == mid.loaded_items,
        decreases state.recent_turns.len(),
    {
        let ghost turns = state.recent_turns@;
        let _ = state.recent_turns.remove(0);
        proof {
            assert(state.recent_turns@ =~= turns.skip(1));
            assert(turn_models(state.recent_turns@) =~= turn_models(turns).skip(1));
            assert(pushed.skip(pushed.len() - turns.len()).skip(1) =~= pushed.skip(
                pushed.len() - turns.len() + 1,
            ));
        }
    }
    proof {
        assert(state@ =~= with_turn(before, capacity as nat, turn@, now));
    }
}

/// No more than `capacity` turns are ever kept.
pub proof fn law_turns_stay_bounded(s: StateModel, capacity: nat, turn: TurnModel, now: u64)
    ensures
        with_turn(s, capacity, turn, now).turns.len() <= capacity,
        capacity > 0 ==> with_turn(s, capacity, turn, now).turns.last() == turn,
{
}

/// Of all turns the last ones are kept, as many as there is room for and in their order; nothing
/// else changes but when the assistant last spoke.
pub proof fn law_the_last_turns_are_kept(s: StateModel, capacity: nat, turn: TurnModel, now: u64)
    ensures
        ({
            let all = s.turns.push(turn);
            let after = with_turn(s, capacity, turn, now);
            let gone = all.len() - after.turns.len();
            &&& all.len() <= capacity ==> gone == 0
            &&& all.len() > capacity ==> after.turns.len() == capacity
            &&& forall|i: int|
                0 <= i < after.turns.len() ==> #[trigger] after.turns[i] == all[gone + i]
            &&& turn.role == TurnRole::Assistant ==> after.last_assistant == Some(now)
            &&& turn.role == TurnRole::User ==> after.last_assistant == s.last_assistant
            &&& after.limits == s.limits
            &&& after.phase == s.phase
            &&& after.turn_count == s.turn_count
            &&& after.items == s.items
        }),
{
}

/// An item is held back for less than the cooldown after its last signal, and not at all before its
/// first. A clock that went backwards counts as no time.
pub proof fn law_the_cooldown_ends(
    limits: Map<Seq<char>, u64>,
    id: Seq<char>,
    cooldown: u64,
    now: u64,
)
    ensures
        !limits.dom().contains(id) ==> !is_limited(limits, id, cooldown, now),
        limits.dom().contains(id) && limits[id] + cooldown <= now ==> !is_limited(
            limits,
            id,
            cooldown,
            now,
        ),
        limits.dom().contains(id) && cooldown > 0 && now < limits[id] + cooldown ==> is_limited(
            limits,
            id,
            cooldown,
            now,
        ),
{
}

// ---- Laws --------------------------------------------------------------------

/// A session of which nothing is known has no turns, holds nothing back and waits for nothing.
pub proof fn law_a_new_session_is_blank(s: SessionState, id: Seq<char>, cooldown: u64, now: u64)
    requires
        call_ensures(SessionState::default, (), s),
    ensures
        s@.turns.len() == 0,
        !is_limited(s@.limits, id, cooldown, now),
        s@.phase is None,
        s@.turn_count == 0,
        s@.last_assistant is None,
        s@.items.len() == 0,
{
}

} // verus!
