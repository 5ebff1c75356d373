//! Scenario events of the Ramen Cup: the yearly settlement (RMJ) events and
//! the choice of their result branch.

use vstd::prelude::*;

verus! {

/// Value change carried by an event branch.
#[derive(Debug, Clone, Copy, PartialEq, Eq)]
pub struct ActionValue {
    /// Five status points followed by skill points.
    pub status_pt: [i32; 6],
    /// Vitality change.
    pub vital: i32,
}

impl Default for ActionValue {
    fn default() -> (v: Self)
        ensures
            v.status_pt == [0i32, 0, 0, 0, 0, 0],
            v.vital == 0,
    {
        ActionValue { status_pt: [0, 0, 0, 0, 0, 0], vital: 0 }
    }
}

/// One result branch of an event.
#[derive(Debug, Clone, Copy, PartialEq, Eq)]
pub struct EventChoice {
    /// Result code of the branch (settlement events: 2 = success, 1 = failure).
    pub result: i32,
    /// Value change of the branch.
    pub value: ActionValue,
}

impl Default for EventChoice {
    fn default() -> (c: Self)
        ensures
            c.result == 0,
            c.value.status_pt == [0i32, 0, 0, 0, 0, 0],
            c.value.vital == 0,
    {
        EventChoice { result: 0, value: ActionValue::default() }
    }
}

/// A scenario event of the scenario data.
#[derive(Debug)]
pub struct EventData {
    /// Event id.
    pub id: u32,
    /// Event name.
    pub name: String,
}

impl Clone for EventData {
    fn clone(&self) -> (e: Self)
        ensures
            e == *self,
    {
        EventData { id: self.id, name: self.name.clone() }
    }
}

/// Id of the settlement event of year `year_idx` (0, 1, 2).
pub open spec fn rmj_event_id(year_idx: int) -> u32 {
    if year_idx == 0 {
        401404
    } else if year_idx == 1 {
        401405
    } else {
        401406
    }
}

/// Year of a settlement event id, if it is one.
pub open spec fn rmj_year_spec(event_id: u32) -> Option<usize> {
    if event_id == 401404 {
        Some(0usize)
    } else if event_id == 401405 {
        Some(1usize)
    } else if event_id == 401406 {
        Some(2usize)
    } else {
        None
    }
}

/// Index of the first event with the given id, if any.
pub open spec fn first_event_index(events: Seq<EventData>, id: u32) -> Option<int> {
    if exists|k: int| 0 <= k < events.len() && events[k].id == id {
        Some(
            choose|k: int|
                0 <= k < events.len() && events[k].id == id && forall|j: int|
                    0 <= j < k ==> events[j].id != id,
        )
    } else {
        None
    }
}

proof fn lemma_first_event_index(events: Seq<EventData>, id: u32, k: int)
    requires
        0 <= k < events.len(),
        events[k].id == id,
        forall|j: int| 0 <= j < k ==> events[j].id != id,
    ensures
        first_event_index(events, id) == Some(k),
{
    let c = choose|k: int|
        0 <= k < events.len() && events[k].id == id && forall|j: int| 0 <= j < k ==> events[j].id != id;
    assert(0 <= c < events.len() && events[c].id == id && forall|j: int| 0 <= j < c ==> events[j].id != id);
    if c < k {
        assert(events[c].id != id);
    }
    if k < c {
        assert(events[k].id != id);
    }
}

/// The first event of `events` with id `target_id`, cloned.
pub fn find_scenario_event(events: &[EventData], target_id: u32) -> (r: Option<EventData>)
    ensures
        match first_event_index(events@, target_id) {
            Some(k) => r == Some(events@[k]),
            None => r is None,
        },
{
    let mut i: usize = 0;
    while i < events.len()
        invariant
            i <= events@.len(),
            forall|j: int| 0 <= j < i ==> events@[j].id != target_id,
        decreases events@.len() - i,
    {
        if events[i].id == target_id {
            proof {
                lemma_first_event_index(events@, target_id, i as int);
            }
            return Some(events[i].clone());
        }
        i = i + 1;
    }
    None
}

/// The settlement event of year `year_idx` (0, 1, 2) from `events`; `None` for
/// any other year or when the data lacks it.
pub fn find_rmj_event(events: &[EventData], year_idx: usize) -> (r: Option<EventData>)
    ensures
        year_idx >= 3 ==> r is None,
        year_idx < 3 ==> match first_event_index(events@, rmj_event_id(year_idx as int)) {
            Some(k) => r == Some(events@[k]),
            None => r is None,
        },
{
    let target_id: u32 = match year_idx {
        0 => 401404,
        1 => 401405,
        2 => 401406,
        _ => return None,
    };
    find_scenario_event(events, target_id)
}

/// The year (0, 1, 2) of a settlement event id, or `None` for other events.
pub fn rmj_event_year(event_id: u32) -> (r: Option<usize>)
    ensures
        r == rmj_year_spec(event_id),
{
    match event_id {
        401404 => Some(0),
        401405 => Some(1),
        401406 => Some(2),
        _ => None,
    }
}

/// The settlement event of a year is recognised as that year's settlement.
pub proof fn lemma_rmj_year_roundtrip(year_idx: int)
    requires
        0 <= year_idx < 3,
    ensures
        rmj_year_spec(rmj_event_id(year_idx)) == Some(year_idx as usize),
{
}

/// Result code selected for a settlement outcome: success 2, failure 1.
pub open spec fn rmj_target_result(success: bool) -> i32 {
    if success { 2 } else { 1 }
}

/// The branch a settlement outcome selects: the first branch whose result
/// matches (success 2, failure 1), otherwise the first branch; with no outcome,
/// the first branch; nothing from an empty list.
pub open spec fn rmj_choice_index(choices: Seq<EventChoice>, is_success: Option<bool>) -> Option<int> {
    if choices.len() == 0 {
        None
    } else {
        match is_success {
            None => Some(0),
            Some(b) => if exists|k: int| 0 <= k < choices.len() && choices[k].result == rmj_target_result(b) {
                Some(
                    choose|k: int|
                        0 <= k < choices.len() && choices[k].result == rmj_target_result(b) && forall|j: int|
                            0 <= j < k ==> choices[j].result != rmj_target_result(b),
                )
            } else {
                Some(0)
            },
        }
    }
}

/// Picks the branch of a settlement event for the year's outcome
/// (see [`rmj_choice_index`]).
pub fn select_rmj_choice_by_result(choices: &[EventChoice], is_success: Option<bool>) -> (r: Option<
    &EventChoice,
>)
    ensures
        match rmj_choice_index(choices@, is_success) {
            Some(k) => r is Some && *r->0 == choices@[k],
            None => r is None,
        },
{
    if choices.len() == 0 {
        return None;
    }
    let target: i32 = match is_success {
        Some(true) => 2,
        Some(false) => 1,
        None => return Some(&choices[0]),
    };
    let mut i: usize = 0;
    while i < choices.len()
        invariant
            i <= choices@.len(),
            choices@.len() > 0,
            is_success is Some,
            target == rmj_target_result(is_success->0),
            forall|j: int| 0 <= j < i ==> choices@[j].result != target,
        decreases choices@.len() - i,
    {
        if choices[i].result == target {
            proof {
                let k = i as int;
                let c = choose|k: int|
                    0 <= k < choices@.len() && choices@[k].result == target && forall|j: int|
                        0 <= j < k ==> choices@[j].result != target;
                assert(0 <= c < choices@.len() && choices@[c].result == target);
                if c < k {
                    assert(choices@[c].result != target);
                }
                if k < c {
                    assert(choices@[k].result != target);
                }
            }
            return Some(&choices[i]);
        }
        i = i + 1;
    }
    Some(&choices[0])
}

/// When an event of the scenario data fires.
#[derive(Debug, Clone)]
pub enum TriggerType {
    /// May fire on any turn (the caller draws it).
    Random,
    /// Fired by the code that handles it, never by the turn's event draw.
    Code,
    /// Fires on the listed turns.
    Fixed(Vec<i32>),
}

/// Whether an event of this trigger is among the turn's candidates.
pub open spec fn triggered(t: TriggerType, turn: i32) -> bool {
    match t {
        TriggerType::Random => true,
        TriggerType::Code => false,
        TriggerType::Fixed(turns) => turns@.contains(turn),
    }
}

/// Indices, in order, of the first `n` events whose trigger fires on `turn`.
pub open spec fn triggered_indices(ts: Seq<TriggerType>, turn: i32, n: int) -> Seq<usize>
    decreases n,
{
    if n <= 0 {
        Seq::empty()
    } else {
        triggered_indices(ts, turn, n - 1) + if triggered(ts[n - 1], turn) {
            seq![(n - 1) as usize]
        } else {
            Seq::empty()
        }
    }
}

/// Indices of the events whose trigger fires on `turn`: every random event
/// and the fixed events listed for the turn, in order.
pub fn triggered_events(triggers: &[TriggerType], turn: i32) -> (r: Vec<usize>)
    ensures
        r@ == triggered_indices(triggers@, turn, triggers@.len() as int),
{
    let mut out: Vec<usize> = Vec::new();
    let mut i: usize = 0;
    while i < triggers.len()
        invariant
            i <= triggers@.len(),
            out@ == triggered_indices(triggers@, turn, i as int),
        decreases triggers@.len() - i,
    {
        let fires = match &triggers[i] {
            TriggerType::Random => true,
            TriggerType::Code => false,
            TriggerType::Fixed(turns) => {
                let mut found = false;
                let mut k: usize = 0;
                while k < turns.len()
                    invariant
                        k <= turns@.len(),
                        found == exists|j: int| 0 <= j < k && turns@[j] == turn,
                    decreases turns@.len() - k,
                {
                    if turns[k] == turn {
                        found = true;
                    }
                    k = k + 1;
                }
                proof {
                    if found {
                        let j = choose|j: int| 0 <= j < k && turns@[j] == turn;
                        assert(turns@.contains(turn));
                    }
                }
                found
            },
        };
        if fires {
            out.push(i);
        }
        proof {
            if fires {
                assert(out@ =~= triggered_indices(triggers@, turn, i as int) + seq![i]);
            } else {
                assert(out@ =~= triggered_indices(triggers@, turn, i as int) + Seq::<usize>::empty());
            }
        }
        i = i + 1;
    }
    out
}

} // verus!
