//! People on the trainings: friendship, shining, hint marks and the scenario
//! friend.
//!
//! A person is a support card (or a clone of one), the scenario friend, an
//! NPC, the chairwoman or the reporter. Persons are addressed by their index
//! in the person list; the first six indices are the deck's cards, whose
//! friendship the deck keeps a copy of.

use vstd::prelude::*;

use super::RamenState;
use super::flow::{is_super_ramen_turn, year_of};

verus! {

/// Highest friendship a person can reach.
pub const MAX_FRIENDSHIP: i32 = 100;

/// Friendship from which a support card can shine on its own training.
pub const SHINING_FRIENDSHIP: i32 = 80;

/// Number of deck slots whose friendship the deck mirrors.
pub const DECK_SLOTS: usize = 6;

/// Kind of a person.
#[derive(Debug, Clone, Copy, PartialEq, Eq, Structural)]
pub enum PersonType {
    /// A support card of the deck (clones included).
    Card,
    /// The scenario friend card.
    ScenarioCard,
    /// A generic NPC.
    Npc,
    /// The chairwoman.
    Yayoi,
    /// The reporter.
    Reporter,
}

/// A person of the run.
#[derive(Debug, Clone, Copy, PartialEq, Eq, Structural)]
pub struct Person {
    /// Index of the person in the person list.
    pub person_index: i32,
    /// Kind of the person.
    pub person_type: PersonType,
    /// Training the person favours (`-1`: none).
    pub train_type: i32,
    /// Character id.
    pub chara_id: u32,
    /// Friendship gauge.
    pub friendship: i32,
    /// Whether the person carries a hint this turn.
    pub is_hint: bool,
}

/// Friendship after adding `v` to `f`, capped at the maximum.
pub open spec fn capped_friendship(f: int, v: int) -> i32 {
    if f + v < MAX_FRIENDSHIP { (f + v) as i32 } else { MAX_FRIENDSHIP }
}

/// Persons and deck copy after adding `v` friendship to person `i`: NPCs and
/// indices outside the list are left alone; a deck card's copy follows.
pub open spec fn befriend(ps: Seq<Person>, deck: Seq<i32>, i: int, v: int) -> (Seq<Person>, Seq<i32>) {
    if 0 <= i < ps.len() && ps[i].person_type != PersonType::Npc {
        let nf = capped_friendship(ps[i].friendship as int, v);
        (ps.update(i, Person { friendship: nf, ..ps[i] }), if i < deck.len() { deck.update(i, nf) } else { deck })
    } else {
        (ps, deck)
    }
}

/// Whether adding `v` friendship to anyone of `ps` stays within `i32`.
pub open spec fn friendship_fits(ps: Seq<Person>, v: int) -> bool {
    forall|i: int| 0 <= i < ps.len() ==> i32::MIN <= #[trigger] ps[i].friendship + v <= i32::MAX
}

/// Adds `value` friendship to person `person_index`, up to the maximum (see
/// [`befriend`]); NPCs gain none, and an index outside the list is ignored.
pub fn add_friendship(persons: &mut Vec<Person>, deck_friendship: &mut [i32; 6], person_index: usize, value: i32)
    requires
        person_index < old(persons)@.len() ==> i32::MIN <= old(persons)@[person_index as int].friendship + value
            <= i32::MAX,
    ensures
        (final(persons)@, final(deck_friendship)@) == befriend(
            old(persons)@,
            old(deck_friendship)@,
            person_index as int,
            value as int,
        ),
{
    if person_index < persons.len() && persons[person_index].person_type != PersonType::Npc {
        let sum: i32 = persons[person_index].friendship + value;
        let nf: i32 = if sum < MAX_FRIENDSHIP { sum } else { MAX_FRIENDSHIP };
        let mut p = persons[person_index];
        p.friendship = nf;
        persons.set(person_index, p);
        if person_index < DECK_SLOTS {
            deck_friendship[person_index] = nf;
        }
    }
}

/// Whether person `i` shines on training `train`: a support card on its own
/// training with friendship of at least 80, the friend while the group buff
/// lasts, nobody else.
pub open spec fn shines_at(ps: Seq<Person>, i: int, train: usize, group_buff_turn: i32) -> bool {
    0 <= i < ps.len() && match ps[i].person_type {
        PersonType::Card => ps[i].train_type == train as i32 && ps[i].friendship >= SHINING_FRIENDSHIP,
        PersonType::ScenarioCard => group_buff_turn > 0,
        _ => false,
    }
}

/// Whether person `person_index` shines on training `train` (see [`shines_at`]).
pub fn is_shining_at(persons: &[Person], person_index: usize, train: usize, group_buff_turn: i32) -> (b: bool)
    ensures
        b == shines_at(persons@, person_index as int, train, group_buff_turn),
{
    if person_index >= persons.len() {
        return false;
    }
    let person = persons[person_index];
    match person.person_type {
        PersonType::Card => person.train_type == train as i32 && person.friendship >= SHINING_FRIENDSHIP,
        PersonType::ScenarioCard => group_buff_turn > 0,
        _ => false,
    }
}

/// Whether a person of this kind is present on `turn`: the friend from turn 2,
/// the reporter from turn 12, everyone else always.
pub open spec fn available_on(t: PersonType, turn: i32) -> bool {
    match t {
        PersonType::ScenarioCard => turn >= 2,
        PersonType::Reporter => turn >= 12,
        _ => true,
    }
}

/// Whether person `person_index` is present on `turn` (see [`available_on`]).
pub fn person_is_available(persons: &[Person], person_index: usize, turn: i32) -> (b: bool)
    requires
        person_index < persons@.len(),
    ensures
        b == available_on(persons@[person_index as int].person_type, turn),
{
    match persons[person_index].person_type {
        PersonType::ScenarioCard => turn >= 2,
        PersonType::Reporter => turn >= 12,
        _ => true,
    }
}

/// Level (1-5) of a training: 5 during the summer camp, otherwise one level
/// per four sessions on it plus the scenario bonus, between 1 and 5.
pub open spec fn train_level_spec(is_xiahesu: bool, count: i32, bonus: i32) -> usize {
    if is_xiahesu {
        5
    } else {
        let l = (count as usize) as int / 4 + 1 + (bonus as usize) as int;
        if l > 5 {
            5
        } else if l < 1 {
            1
        } else {
            l as usize
        }
    }
}

/// Level of training `train` (see [`train_level_spec`]).
pub fn train_level(is_xiahesu: bool, train_level_count: &[i32], train: usize, train_level_bonus: i32) -> (l: usize)
    requires
        train < train_level_count@.len(),
        !is_xiahesu ==> (train_level_count@[train as int] as usize) as int / 4 + 1 + (train_level_bonus as usize) as int
            <= usize::MAX,
    ensures
        l == train_level_spec(is_xiahesu, train_level_count@[train as int], train_level_bonus),
{
    if is_xiahesu {
        5
    } else {
        let base: usize = train_level_count[train] as usize / 4 + 1;
        let l: usize = base + train_level_bonus as usize;
        if l > 5 {
            5
        } else if l < 1 {
            1
        } else {
            l
        }
    }
}

/// The person list after appending `p` under the next index.
pub open spec fn with_person(ps: Seq<Person>, p: Person) -> Seq<Person> {
    ps.push(Person { person_index: ps.len() as i32, ..p })
}

/// Appends `person` to the list, giving it the next index.
pub fn add_person(persons: &mut Vec<Person>, person: Person)
    ensures
        final(persons)@ == with_person(old(persons)@, person),
{
    let mut p = person;
    p.person_index = persons.len() as i32;
    persons.push(p);
}

/// Whether a person of this kind gains the friendship of ramen: support cards
/// and the friend.
pub open spec fn gains_ramen_friendship(t: PersonType) -> bool {
    t == PersonType::Card || t == PersonType::ScenarioCard
}

/// Friendship that ramen gives on `turn`: the year's basic friendship where a
/// bowl was eaten or on a super ramen turn, if the year has a positive entry;
/// otherwise none.
pub open spec fn ramen_friendship_gain(eating: bool, turn: i32, basic_friendship: Seq<i32>) -> int {
    let y = year_of(turn) - 1;
    if (eating || is_super_ramen_turn(turn)) && y < basic_friendship.len() && basic_friendship[y] > 0 {
        basic_friendship[y] as int
    } else {
        0
    }
}

/// Persons after every support card and the friend gained `v` friendship.
pub open spec fn cards_befriended(ps: Seq<Person>, v: int) -> Seq<Person> {
    Seq::new(
        ps.len(),
        |i: int|
            if gains_ramen_friendship(ps[i].person_type) {
                Person { friendship: capped_friendship(ps[i].friendship as int, v), ..ps[i] }
            } else {
                ps[i]
            },
    )
}

/// Deck copy after every support card and the friend gained `v` friendship.
pub open spec fn deck_befriended(ps: Seq<Person>, deck: Seq<i32>, v: int) -> Seq<i32> {
    Seq::new(
        deck.len(),
        |i: int|
            if i < ps.len() && gains_ramen_friendship(ps[i].person_type) {
                capped_friendship(ps[i].friendship as int, v)
            } else {
                deck[i]
            },
    )
}

/// Ramen friendship: where [`ramen_friendship_gain`] is positive, every
/// support card and the friend gain it (up to the maximum, the deck copy
/// following); otherwise nothing changes.
pub fn apply_ramen_friendship(
    persons: &mut Vec<Person>,
    deck_friendship: &mut [i32; 6],
    state: &RamenState,
    turn: i32,
    basic_friendship: &[i32],
)
    requires
        friendship_fits(
            old(persons)@,
            ramen_friendship_gain(state.current_ramen is Some, turn, basic_friendship@),
        ),
    ensures
        ({
            let v = ramen_friendship_gain(state.current_ramen is Some, turn, basic_friendship@);
            if v > 0 {
                final(persons)@ == cards_befriended(old(persons)@, v) && final(deck_friendship)@
                    == deck_befriended(old(persons)@, old(deck_friendship)@, v)
            } else {
                final(persons)@ == old(persons)@ && final(deck_friendship)@ == old(deck_friendship)@
            }
        }),
{
    let eating = state.current_ramen.is_some();
    let super_ramen = turn >= 72 && turn <= 77;
    if !eating && !super_ramen {
        return;
    }
    let year: i32 = if turn < 24 {
        1
    } else if turn < 48 {
        2
    } else {
        3
    };
    let year_idx: usize = (year - 1) as usize;
    if year_idx >= basic_friendship.len() {
        return;
    }
    let v: i32 = basic_friendship[year_idx];
    if v <= 0 {
        return;
    }
    let ghost ps0 = persons@;
    let ghost d0 = deck_friendship@;
    let n = persons.len();
    let mut i: usize = 0;
    while i < n
        invariant
            n == ps0.len(),
            d0.len() == 6,
            i <= n,
            v > 0,
            friendship_fits(ps0, v as int),
            persons@.len() == n,
            forall|j: int| 0 <= j < i ==> #[trigger] persons@[j] == cards_befriended(ps0, v as int)[j],
            forall|j: int| i <= j < n ==> #[trigger] persons@[j] == ps0[j],
            deck_friendship@.len() == 6,
            forall|j: int|
                0 <= j < 6 ==> #[trigger] deck_friendship@[j] == if j < i {
                    deck_befriended(ps0, d0, v as int)[j]
                } else {
                    d0[j]
                },
        decreases n - i,
    {
        if persons[i].person_type == PersonType::Card || persons[i].person_type == PersonType::ScenarioCard {
            assert(persons@[i as int] == ps0[i as int]);
            add_friendship(persons, deck_friendship, i, v);
        }
        i = i + 1;
    }
    assert(persons@ =~= cards_befriended(ps0, v as int));
    assert(deck_friendship@ =~= deck_befriended(ps0, d0, v as int));
}

/// Persons and deck copy after each person of `slot` (in order, a repeated
/// index gaining again, an empty place `< 0` skipped) gained `v` friendship.
pub open spec fn befriend_all(ps: Seq<Person>, deck: Seq<i32>, slot: Seq<i32>, v: int) -> (Seq<Person>, Seq<i32>)
    decreases slot.len(),
{
    if slot.len() == 0 {
        (ps, deck)
    } else {
        let prev = befriend_all(ps, deck, slot.drop_last(), v);
        if slot.last() < 0 {
            prev
        } else {
            befriend(prev.0, prev.1, slot.last() as int, v)
        }
    }
}

/// Gaining friendship keeps every person's kind, favoured training and hint
/// mark, and the number of persons.
pub proof fn lemma_befriend_all_keeps(ps: Seq<Person>, deck: Seq<i32>, slot: Seq<i32>, v: int)
    ensures
        befriend_all(ps, deck, slot, v).0.len() == ps.len(),
        befriend_all(ps, deck, slot, v).1.len() == deck.len(),
        forall|i: int|
            0 <= i < ps.len() ==> {
                let q = #[trigger] befriend_all(ps, deck, slot, v).0[i];
                &&& q.person_index == ps[i].person_index
                &&& q.person_type == ps[i].person_type
                &&& q.train_type == ps[i].train_type
                &&& q.chara_id == ps[i].chara_id
                &&& q.is_hint == ps[i].is_hint
            },
    decreases slot.len(),
{
    if slot.len() > 0 {
        lemma_befriend_all_keeps(ps, deck, slot.drop_last(), v);
    }
}

/// Friendship after gaining `v >= 0` still leaves room for another `v`.
proof fn lemma_befriend_fits(ps: Seq<Person>, deck: Seq<i32>, i: int, v: int)
    requires
        0 <= v <= i32::MAX - MAX_FRIENDSHIP,
        friendship_fits(ps, v),
    ensures
        friendship_fits(befriend(ps, deck, i, v).0, v),
        befriend(ps, deck, i, v).0.len() == ps.len(),
{
    let r = befriend(ps, deck, i, v).0;
    assert forall|j: int| 0 <= j < r.len() implies i32::MIN <= #[trigger] r[j].friendship + v <= i32::MAX by {
        assert(i32::MIN <= ps[j].friendship + v <= i32::MAX);
    }
}

/// Friendship that a training gives each person on it: 9 with the
/// `aijiao` status, else 7.
pub open spec fn train_friendship_bonus(aijiao: bool) -> int {
    if aijiao { 9 } else { 7 }
}

/// What a training leaves to follow up: the persons on it with a hint, in
/// order, and whether the friend was on it.
#[derive(Debug, Clone, PartialEq, Eq)]
pub struct TrainFollowUp {
    /// Persons on the training that carry a hint (in slot order, repeats kept).
    pub hint_persons: Vec<i32>,
    /// Whether the scenario friend was on the training.
    pub friend_clicked: bool,
}

/// Whether a slot entry is a person with a hint.
pub open spec fn hint_at(ps: Seq<Person>) -> spec_fn(i32) -> bool {
    |p: i32| p >= 0 && ps[p as int].is_hint
}

/// After a successful training on the places `slot`: each person there gains
/// the training friendship (see [`befriend_all`]); the persons with a hint
/// and whether the friend was there are handed back.
pub fn post_train_friendship(
    persons: &mut Vec<Person>,
    deck_friendship: &mut [i32; 6],
    slot: &[i32],
    aijiao: bool,
) -> (r: TrainFollowUp)
    requires
        forall|k: int| 0 <= k < slot@.len() ==> #[trigger] slot@[k] < old(persons)@.len(),
        friendship_fits(old(persons)@, 9),
    ensures
        (final(persons)@, final(deck_friendship)@) == befriend_all(
            old(persons)@,
            old(deck_friendship)@,
            slot@,
            train_friendship_bonus(aijiao),
        ),
        r.hint_persons@ == slot@.filter(hint_at(old(persons)@)),
        r.friend_clicked == exists|k: int|
            0 <= k < slot@.len() && #[trigger] slot@[k] >= 0 && old(persons)@[slot@[k] as int].person_type
                == PersonType::ScenarioCard,
{
    let bonus: i32 = if aijiao { 9 } else { 7 };
    let ghost ps0 = persons@;
    let ghost d0 = deck_friendship@;
    let mut hint_persons: Vec<i32> = Vec::new();
    let mut friend_clicked = false;
    let mut k: usize = 0;
    while k < slot.len()
        invariant
            k <= slot@.len(),
            bonus == train_friendship_bonus(aijiao),
            forall|j: int| 0 <= j < slot@.len() ==> #[trigger] slot@[j] < ps0.len(),
            friendship_fits(ps0, 9),
            (persons@, deck_friendship@) == befriend_all(ps0, d0, slot@.take(k as int), bonus as int),
            friendship_fits(persons@, bonus as int),
            hint_persons@ == slot@.take(k as int).filter(hint_at(ps0)),
            friend_clicked == exists|j: int|
                0 <= j < k && #[trigger] slot@[j] >= 0 && ps0[slot@[j] as int].person_type
                    == PersonType::ScenarioCard,
        decreases slot@.len() - k,
    {
        let p = slot[k];
        proof {
            lemma_befriend_all_keeps(ps0, d0, slot@.take(k as int), bonus as int);
            assert(slot@.take(k + 1).drop_last() =~= slot@.take(k as int));
            slot@.take(k as int).lemma_filter_push(p, hint_at(ps0));
            assert(slot@.take(k + 1) =~= slot@.take(k as int).push(p));
        }
        if p >= 0 {
            let idx = p as usize;
            proof {
                lemma_befriend_fits(persons@, deck_friendship@, idx as int, bonus as int);
            }
            add_friendship(persons, deck_friendship, idx, bonus);
            if persons[idx].is_hint {
                hint_persons.push(p);
            }
            if persons[idx].person_type == PersonType::ScenarioCard {
                friend_clicked = true;
            }
        }
        k = k + 1;
    }
    proof {
        assert(slot@.take(slot@.len() as int) =~= slot@);
    }
    TrainFollowUp { hint_persons, friend_clicked }
}

/// A generic NPC with the given character id.
pub open spec fn npc_person(chara_id: u32) -> Person {
    Person {
        person_index: 0,
        person_type: PersonType::Npc,
        train_type: -1i32,
        chara_id,
        friendship: 0,
        is_hint: false,
    }
}

/// The person list after appending `new`, in order, each under the next index.
pub open spec fn appended(ps: Seq<Person>, new: Seq<Person>) -> Seq<Person> {
    ps + Seq::new(new.len(), |k: int| Person { person_index: (ps.len() + k) as i32, ..new[k] })
}

/// The friend card persons followed by one NPC per character id.
pub open spec fn friend_and_npcs(friend_persons: Seq<Person>, npc_chara_ids: Seq<u32>) -> Seq<Person> {
    friend_persons + npc_chara_ids.map_values(|c: u32| npc_person(c))
}

/// Appending one person after `ps + new[..k]` gives `ps + new[..k + 1]`.
proof fn lemma_appended_push(ps: Seq<Person>, new: Seq<Person>, k: int)
    requires
        0 <= k < new.len(),
    ensures
        with_person(appended(ps, new.take(k)), new[k]) == appended(ps, new.take(k + 1)),
{
    assert(with_person(appended(ps, new.take(k)), new[k]) =~= appended(ps, new.take(k + 1)));
}

/// Adds the friend card persons (the friend's index becomes that of the last
/// one) and then one NPC per character id. Returns the friend's new index,
/// `None` where no friend card was given.
pub fn add_friend_and_npcs(persons: &mut Vec<Person>, friend_persons: &[Person], npc_chara_ids: &[u32]) -> (r:
    Option<usize>)
    ensures
        final(persons)@ == appended(old(persons)@, friend_and_npcs(friend_persons@, npc_chara_ids@)),
        r == if friend_persons@.len() > 0 {
            Some((old(persons)@.len() + friend_persons@.len() - 1) as usize)
        } else {
            None::<usize>
        },
{
    let ghost ps0 = persons@;
    let ghost all = friend_and_npcs(friend_persons@, npc_chara_ids@);
    let mut friend_index: Option<usize> = None;
    let mut i: usize = 0;
    proof {
        assert(appended(ps0, all.take(0)) =~= ps0);
    }
    while i < friend_persons.len()
        invariant
            i <= friend_persons@.len(),
            all == friend_and_npcs(friend_persons@, npc_chara_ids@),
            persons@ == appended(ps0, all.take(i as int)),
            friend_index == if i > 0 {
                Some((ps0.len() + i - 1) as usize)
            } else {
                None::<usize>
            },
        decreases friend_persons@.len() - i,
    {
        proof {
            lemma_appended_push(ps0, all, i as int);
        }
        friend_index = Some(persons.len());
        add_person(persons, friend_persons[i]);
        i = i + 1;
    }
    let nf = friend_persons.len();
    let mut j: usize = 0;
    while j < npc_chara_ids.len()
        invariant
            nf == friend_persons@.len(),
            j <= npc_chara_ids@.len(),
            all == friend_and_npcs(friend_persons@, npc_chara_ids@),
            persons@ == appended(ps0, all.take(nf + j)),
        decreases npc_chara_ids@.len() - j,
    {
        proof {
            lemma_appended_push(ps0, all, nf + j);
        }
        let npc = Person {
            person_index: 0,
            person_type: PersonType::Npc,
            train_type: -1,
            chara_id: npc_chara_ids[j],
            friendship: 0,
            is_hint: false,
        };
        add_person(persons, npc);
        j = j + 1;
    }
    proof {
        assert(all.take(all.len() as int) =~= all);
    }
    friend_index
}

/// Whether some person is of kind `t`.
pub open spec fn has_kind(ps: Seq<Person>, t: PersonType) -> bool {
    exists|i: int| 0 <= i < ps.len() && #[trigger] ps[i].person_type == t
}

/// Turn-start head count: on turn 2 the friend and the NPCs join (unless the
/// friend is there already), on turn 12 the reporter (unless present).
/// Returns the friend's new index where the friend card joined.
pub fn manage_persons_on_turn_start(
    persons: &mut Vec<Person>,
    turn: i32,
    friend_persons: &[Person],
    npc_chara_ids: &[u32],
    reporter: Person,
) -> (r: Option<usize>)
    ensures
        if turn == 2 && !has_kind(old(persons)@, PersonType::ScenarioCard) {
            &&& final(persons)@ == appended(old(persons)@, friend_and_npcs(friend_persons@, npc_chara_ids@))
            &&& r == if friend_persons@.len() > 0 {
                Some((old(persons)@.len() + friend_persons@.len() - 1) as usize)
            } else {
                None::<usize>
            }
        } else if turn == 12 && !has_kind(old(persons)@, PersonType::Reporter) {
            final(persons)@ == with_person(old(persons)@, reporter) && r is None
        } else {
            final(persons)@ == old(persons)@ && r is None
        },
{
    if turn == 2 && !any_of_kind(persons, PersonType::ScenarioCard) {
        return add_friend_and_npcs(persons, friend_persons, npc_chara_ids);
    }
    if turn == 12 && !any_of_kind(persons, PersonType::Reporter) {
        add_person(persons, reporter);
    }
    None
}

/// Whether some person is of kind `t` (see [`has_kind`]).
fn any_of_kind(persons: &[Person], t: PersonType) -> (b: bool)
    ensures
        b == has_kind(persons@, t),
{
    let mut i: usize = 0;
    while i < persons.len()
        invariant
            i <= persons@.len(),
            forall|j: int| 0 <= j < i ==> #[trigger] persons@[j].person_type != t,
        decreases persons@.len() - i,
    {
        if persons[i].person_type == t {
            return true;
        }
        i = i + 1;
    }
    false
}

/// Number of positive entries (kinds of support card carried).
pub open spec fn kinds_carried(card_type_count: Seq<i32>) -> nat {
    card_type_count.filter(|x: i32| x > 0).len()
}

/// Whether the special hint rule is in force this turn: a bowl was eaten,
/// the year's basic ramen effect grants it, and the deck carries at least
/// four kinds of support card.
pub open spec fn hint_special_active_spec(
    current_ramen: Option<usize>,
    turn: i32,
    hint_special_by_year: Seq<bool>,
    card_type_count: Seq<i32>,
) -> bool {
    let y = year_of(turn) - 1;
    &&& current_ramen is Some
    &&& y < hint_special_by_year.len()
    &&& hint_special_by_year[y]
    &&& kinds_carried(card_type_count) >= 4
}

/// Whether the special hint rule is in force (see [`hint_special_active_spec`]).
pub fn hint_special_active(state: &RamenState, turn: i32, hint_special_by_year: &[bool], card_type_count: &[i32]) -> (b:
    bool)
    ensures
        b == hint_special_active_spec(state.current_ramen, turn, hint_special_by_year@, card_type_count@),
{
    if state.current_ramen.is_none() {
        return false;
    }
    let year: i32 = if turn < 24 {
        1
    } else if turn < 48 {
        2
    } else {
        3
    };
    let year_idx: usize = (year - 1) as usize;
    if year_idx >= hint_special_by_year.len() {
        return false;
    }
    if !hint_special_by_year[year_idx] {
        return false;
    }
    super::setup::deck_can_split(card_type_count)
}

/// Trainings where the special hint rule applies: those listed for the
/// region of the bowl eaten this turn (none without a bowl or for an unknown
/// region).
pub open spec fn hint_special_trains_spec(current_ramen: Option<usize>, region_at_trains: Seq<Seq<i32>>) -> Seq<i32> {
    match current_ramen {
        Some(r) => if r < region_at_trains.len() {
            region_at_trains[r as int]
        } else {
            Seq::empty()
        },
        None => Seq::empty(),
    }
}

/// Views of the per-region training lists.
pub open spec fn lists_view(v: Seq<Vec<i32>>) -> Seq<Seq<i32>> {
    v.map_values(|l: Vec<i32>| l@)
}

/// Trainings where the special hint rule applies (see [`hint_special_trains_spec`]).
pub fn hint_special_at_trains(state: &RamenState, region_at_trains: &[Vec<i32>]) -> (r: Vec<i32>)
    ensures
        r@ == hint_special_trains_spec(state.current_ramen, lists_view(region_at_trains@)),
{
    let mut out: Vec<i32> = Vec::new();
    if let Some(region) = state.current_ramen {
        if region < region_at_trains.len() {
            let src = &region_at_trains[region];
            let mut i: usize = 0;
            while i < src.len()
                invariant
                    i <= src@.len(),
                    out@ == src@.take(i as int),
                decreases src@.len() - i,
            {
                out.push(src[i]);
                proof {
                    assert(src@.take(i + 1) =~= src@.take(i as int).push(src@[i as int]));
                }
                i = i + 1;
            }
            proof {
                assert(src@.take(src@.len() as int) =~= src@);
            }
        }
    }
    out
}

/// Whether `s` holds `x`.
fn holds(s: &[i32], x: i32) -> (b: bool)
    ensures
        b == s@.contains(x),
{
    let mut i: usize = 0;
    while i < s.len()
        invariant
            i <= s@.len(),
            forall|j: int| 0 <= j < i ==> s@[j] != x,
        decreases s@.len() - i,
    {
        if s[i] == x {
            return true;
        }
        i = i + 1;
    }
    false
}

/// Whether the special hint rule applies to training `train`: it is in force
/// and the training is listed for the eaten bowl's region.
pub fn is_hint_special_active_for_train(
    state: &RamenState,
    turn: i32,
    hint_special_by_year: &[bool],
    card_type_count: &[i32],
    region_at_trains: &[Vec<i32>],
    train: usize,
) -> (b: bool)
    ensures
        b == (hint_special_active_spec(state.current_ramen, turn, hint_special_by_year@, card_type_count@)
            && hint_special_trains_spec(state.current_ramen, lists_view(region_at_trains@)).contains(
            train as i32,
        )),
{
    if !hint_special_active(state, turn, hint_special_by_year, card_type_count) {
        return false;
    }
    let at_trains = hint_special_at_trains(state, region_at_trains);
    holds(&at_trains, train as i32)
}

/// Whether person `i` has a place in `slot`.
pub open spec fn in_slot(slot: Seq<i32>, i: int) -> bool {
    exists|k: int| 0 <= k < slot.len() && #[trigger] slot[k] as int == i
}

/// Whether person `i` has a place on one of the first `t` trainings that are
/// listed in `trains`.
pub open spec fn on_listed_training(dist: Seq<Seq<i32>>, trains: Seq<i32>, i: int, t: int) -> bool {
    exists|u: int| 0 <= u < t && u < dist.len() && trains.contains(u as i32) && #[trigger] in_slot(dist[u], i)
}

/// Person `i` after the hint draw: a support card's mark is its draw, forced
/// on where the special hint rule is in force and the card stands on a listed
/// training; other persons keep theirs.
pub open spec fn hinted_person(
    p: Person,
    draw: bool,
    special: bool,
    dist: Seq<Seq<i32>>,
    trains: Seq<i32>,
    i: int,
) -> Person {
    if p.person_type == PersonType::Card {
        Person { is_hint: draw || (special && on_listed_training(dist, trains, i, dist.len() as int)), ..p }
    } else {
        p
    }
}

/// Marks every support card of `slot` with a hint.
fn mark_slot(persons: &mut Vec<Person>, slot: &[i32])
    ensures
        final(persons)@.len() == old(persons)@.len(),
        forall|i: int|
            0 <= i < old(persons)@.len() ==> #[trigger] final(persons)@[i] == if old(persons)@[i].person_type
                == PersonType::Card && in_slot(slot@, i) {
                Person { is_hint: true, ..old(persons)@[i] }
            } else {
                old(persons)@[i]
            },
{
    let ghost ps0 = persons@;
    let mut k: usize = 0;
    while k < slot.len()
        invariant
            k <= slot@.len(),
            persons@.len() == ps0.len(),
            forall|i: int|
                0 <= i < ps0.len() ==> #[trigger] persons@[i] == if ps0[i].person_type == PersonType::Card
                    && in_slot(slot@.take(k as int), i) {
                    Person { is_hint: true, ..ps0[i] }
                } else {
                    ps0[i]
                },
        decreases slot@.len() - k,
    {
        let p = slot[k];
        let ghost before = persons@;
        if p >= 0 && (p as usize) < persons.len() && persons[p as usize].person_type == PersonType::Card {
            let mut q = persons[p as usize];
            q.is_hint = true;
            persons.set(p as usize, q);
        }
        proof {
            let next = slot@.take(k + 1);
            assert forall|i: int| 0 <= i < ps0.len() implies #[trigger] persons@[i] == if ps0[i].person_type
                == PersonType::Card && in_slot(next, i) {
                Person { is_hint: true, ..ps0[i] }
            } else {
                ps0[i]
            } by {
                if in_slot(next, i) {
                    let w = choose|w: int| 0 <= w < next.len() && #[trigger] next[w] as int == i;
                    if w < k {
                        assert(slot@.take(k as int)[w] as int == i);
                    }
                }
                if in_slot(slot@.take(k as int), i) {
                    let w = choose|w: int| 0 <= w < k && #[trigger] slot@.take(k as int)[w] as int == i;
                    assert(next[w] as int == i);
                }
                if i == p as int {
                    assert(next[k as int] as int == i);
                }
            }
        }
        k = k + 1;
    }
    proof {
        assert(slot@.take(slot@.len() as int) =~= slot@);
    }
}

/// The hint draw of a turn: each support card's hint mark becomes its draw;
/// where the special hint rule is in force, every support card standing on a
/// training listed for the eaten bowl's region carries a hint as well (see
/// [`hinted_person`]).
pub fn distribute_hint(
    persons: &mut Vec<Person>,
    hint_draws: &[bool],
    state: &RamenState,
    turn: i32,
    hint_special_by_year: &[bool],
    card_type_count: &[i32],
    region_at_trains: &[Vec<i32>],
    distribution: &[Vec<i32>],
)
    requires
        hint_draws@.len() == old(persons)@.len(),
    ensures
        final(persons)@.len() == old(persons)@.len(),
        forall|i: int|
            0 <= i < old(persons)@.len() ==> #[trigger] final(persons)@[i] == hinted_person(
                old(persons)@[i],
                hint_draws@[i],
                hint_special_active_spec(state.current_ramen, turn, hint_special_by_year@, card_type_count@),
                lists_view(distribution@),
                hint_special_trains_spec(state.current_ramen, lists_view(region_at_trains@)),
                i,
            ),
{
    let ghost ps0 = persons@;
    let ghost dist = lists_view(distribution@);
    let mut i: usize = 0;
    while i < persons.len()
        invariant
            i <= persons@.len(),
            persons@.len() == ps0.len(),
            hint_draws@.len() == ps0.len(),
            forall|j: int|
                0 <= j < ps0.len() ==> #[trigger] persons@[j] == if j < i && ps0[j].person_type
                    == PersonType::Card {
                    Person { is_hint: hint_draws@[j], ..ps0[j] }
                } else {
                    ps0[j]
                },
        decreases ps0.len() - i,
    {
        if persons[i].person_type == PersonType::Card {
            let mut q = persons[i];
            q.is_hint = hint_draws[i];
            persons.set(i, q);
        }
        i = i + 1;
    }
    let ghost ps1 = persons@;
    let special = hint_special_active(state, turn, hint_special_by_year, card_type_count);
    let trains = hint_special_at_trains(state, region_at_trains);
    if special && trains.len() > 0 {
        let mut t: usize = 0;
        while t < distribution.len()
            invariant
                t <= distribution@.len(),
                dist == lists_view(distribution@),
                persons@.len() == ps0.len(),
                forall|j: int|
                    0 <= j < ps0.len() ==> #[trigger] persons@[j] == if ps1[j].person_type == PersonType::Card
                        && on_listed_training(dist, trains@, j, t as int) {
                        Person { is_hint: true, ..ps1[j] }
                    } else {
                        ps1[j]
                    },
            decreases distribution@.len() - t,
        {
            let listed = holds(&trains, t as i32);
            let ghost before = persons@;
            if listed {
                mark_slot(persons, &distribution[t]);
            }
            proof {
                assert(dist[t as int] == distribution@[t as int]@);
                assert forall|j: int| 0 <= j < ps0.len() implies #[trigger] persons@[j] == if ps1[j].person_type
                    == PersonType::Card && on_listed_training(dist, trains@, j, t + 1) {
                    Person { is_hint: true, ..ps1[j] }
                } else {
                    ps1[j]
                } by {
                    if on_listed_training(dist, trains@, j, t + 1) {
                        let u = choose|u: int|
                            0 <= u < t + 1 && u < dist.len() && trains@.contains(u as i32) && #[trigger] in_slot(
                                dist[u],
                                j,
                            );
                        if u < t {
                            assert(on_listed_training(dist, trains@, j, t as int));
                        }
                    }
                    if listed && in_slot(dist[t as int], j) {
                        assert(on_listed_training(dist, trains@, j, t + 1));
                    }
                    if on_listed_training(dist, trains@, j, t as int) {
                        let u = choose|u: int|
                            0 <= u < t && u < dist.len() && trains@.contains(u as i32) && #[trigger] in_slot(
                                dist[u],
                                j,
                            );
                        assert(on_listed_training(dist, trains@, j, t + 1));
                    }
                }
            }
            t = t + 1;
        }
    }
    proof {
        assert forall|j: int| 0 <= j < ps0.len() implies #[trigger] persons@[j] == hinted_person(
            ps0[j],
            hint_draws@[j],
            special,
            dist,
            trains@,
            j,
        ) by {
            if !(special && trains@.len() > 0) && on_listed_training(dist, trains@, j, dist.len() as int) {
                let u = choose|u: int|
                    0 <= u < dist.len() && u < dist.len() && trains@.contains(u as i32) && #[trigger] in_slot(
                        dist[u],
                        j,
                    );
                assert(trains@.contains(u as i32));
            }
        }
    }
}

/// How many hint events person `p` raises: a deck card one plus its
/// card's hint count bonus, anyone else one.
pub open spec fn hint_count(p: int, hint_count_bonus: [i32; 6]) -> int {
    if p < 6 {
        1 + hint_count_bonus[p]
    } else {
        1
    }
}

/// `n` copies of `p` (none for `n <= 0`).
pub open spec fn repeated(p: usize, n: int) -> Seq<usize> {
    Seq::new(if n > 0 { n as nat } else { 0 }, |_k: int| p)
}

/// The hint events that the hint person `p` raises, or none where `p` is no
/// person.
pub open spec fn hints_of(ps: Seq<Person>, p: i32, hint_count_bonus: [i32; 6]) -> Seq<usize> {
    if p < 0 || p >= ps.len() {
        Seq::empty()
    } else {
        repeated(p as usize, hint_count(p as int, hint_count_bonus))
    }
}

/// The hint events of every support card among `hp`, in order.
pub open spec fn special_hints(ps: Seq<Person>, hp: Seq<i32>, hint_count_bonus: [i32; 6]) -> Seq<usize>
    decreases hp.len(),
{
    if hp.len() == 0 {
        Seq::empty()
    } else {
        let p = hp.last();
        special_hints(ps, hp.drop_last(), hint_count_bonus) + if 0 <= p < ps.len() && ps[p as int].person_type
            == PersonType::Card {
            hints_of(ps, p, hint_count_bonus)
        } else {
            Seq::empty()
        }
    }
}

/// The persons for which a hint event is raised after a training, in order:
/// none without hint persons; every support card among them where the
/// special hint rule applies to the training; otherwise the one drawn
/// (`hint_persons[chosen]`). Each raises [`hint_count`] events.
pub open spec fn hint_event_persons_spec(
    ps: Seq<Person>,
    hp: Seq<i32>,
    hint_count_bonus: [i32; 6],
    special_for_train: bool,
    chosen: int,
) -> Seq<usize> {
    if hp.len() == 0 {
        Seq::empty()
    } else if special_for_train {
        special_hints(ps, hp, hint_count_bonus)
    } else {
        hints_of(ps, hp[chosen], hint_count_bonus)
    }
}

/// Appends `n` copies of `p`.
fn push_repeated(out: &mut Vec<usize>, p: usize, n: i32)
    ensures
        final(out)@ == old(out)@ + repeated(p, n as int),
{
    let ghost o0 = out@;
    let mut c: i32 = 0;
    while c < n
        invariant
            0 <= c,
            n > 0 ==> c <= n,
            n <= 0 ==> c == 0,
            out@ == o0 + repeated(p, c as int),
        decreases n - c,
    {
        out.push(p);
        proof {
            assert(o0 + repeated(p, c + 1) =~= (o0 + repeated(p, c as int)).push(p));
        }
        c = c + 1;
    }
    proof {
        if n <= 0 {
            assert(c == 0);
            assert(repeated(p, n as int) =~= repeated(p, 0));
        } else {
            assert(c == n);
        }
    }
}

/// The persons for which a hint event is raised after a training (see
/// [`hint_event_persons_spec`]); `chosen` is the index drawn among the hint
/// persons.
pub fn hint_event_persons(
    persons: &[Person],
    hint_persons: &[i32],
    hint_count_bonus: &[i32; 6],
    special_for_train: bool,
    chosen: usize,
) -> (r: Vec<usize>)
    requires
        hint_persons@.len() > 0 && !special_for_train ==> chosen < hint_persons@.len(),
        forall|k: int| 0 <= k < 6 ==> hint_count_bonus[k] < i32::MAX,
    ensures
        r@ == hint_event_persons_spec(persons@, hint_persons@, *hint_count_bonus, special_for_train, chosen as int),
{
    let mut out: Vec<usize> = Vec::new();
    if hint_persons.len() == 0 {
        return out;
    }
    if special_for_train {
        let mut k: usize = 0;
        while k < hint_persons.len()
            invariant
                k <= hint_persons@.len(),
                forall|j: int| 0 <= j < 6 ==> hint_count_bonus[j] < i32::MAX,
                out@ == special_hints(persons@, hint_persons@.take(k as int), *hint_count_bonus),
            decreases hint_persons@.len() - k,
        {
            let p = hint_persons[k];
            proof {
                assert(hint_persons@.take(k + 1).drop_last() =~= hint_persons@.take(k as int));
            }
            if p >= 0 && (p as usize) < persons.len() && persons[p as usize].person_type == PersonType::Card {
                let idx = p as usize;
                let n: i32 = if idx < 6 { 1 + hint_count_bonus[idx] } else { 1 };
                push_repeated(&mut out, idx, n);
            } else {
                proof {
                    assert(out@ + Seq::<usize>::empty() =~= out@);
                }
            }
            k = k + 1;
        }
        proof {
            assert(hint_persons@.take(hint_persons@.len() as int) =~= hint_persons@);
        }
    } else {
        let p = hint_persons[chosen];
        if p >= 0 && (p as usize) < persons.len() {
            let idx = p as usize;
            let n: i32 = if idx < 6 { 1 + hint_count_bonus[idx] } else { 1 };
            push_repeated(&mut out, idx, n);
            proof {
                assert(out@ =~= hints_of(persons@, p, *hint_count_bonus));
            }
        }
    }
    out
}

/// A hint event: a stat event, or a skill hint of some level.
#[derive(Debug, Clone, Copy, PartialEq, Eq, Structural)]
pub enum HintEvent {
    /// The stat bonus event of the card's training.
    Attr,
    /// A skill hint of this level.
    Skill(i32),
}

/// Level of the skill hint a deck card can still give: one above its card's
/// hint level, at most 5, and no more than its remaining hint allowance.
pub open spec fn hint_level_spec(card_hint_level: i32, total_hints: i32, max_hint: i32) -> int {
    let a = 1 + card_hint_level;
    let b = if a < 5 { a } else { 5 };
    let room = max_hint - total_hints;
    if b < room { b } else { room }
}

/// The hint event that a deck card raises: a stat event where it has no
/// skill level left or where the stat draw says so, else a skill hint of
/// [`hint_level_spec`], which is added to the card's total.
pub fn hint_event(card_hint_level: i32, total_hints: &mut i32, max_hint: i32, attr_draw: bool) -> (e: HintEvent)
    requires
        card_hint_level < i32::MAX,
        i32::MIN <= max_hint - *old(total_hints) <= i32::MAX,
    ensures
        ({
            let l = hint_level_spec(card_hint_level, *old(total_hints), max_hint);
            if l <= 0 || attr_draw {
                e == HintEvent::Attr && *final(total_hints) == *old(total_hints)
            } else {
                e == HintEvent::Skill(l as i32) && *final(total_hints) == *old(total_hints) + l
            }
        }),
{
    let a: i32 = 1 + card_hint_level;
    let b: i32 = if a < 5 { a } else { 5 };
    let room: i32 = max_hint - *total_hints;
    let level: i32 = if b < room { b } else { room };
    if level <= 0 || attr_draw {
        HintEvent::Attr
    } else {
        *total_hints = *total_hints + level;
        HintEvent::Skill(level)
    }
}

/// Where the scenario friend stands: not yet met, met but not unlocked,
/// unlocked.
#[derive(Debug, Clone, Copy, PartialEq, Eq, Structural)]
pub enum FriendOutState {
    /// The friend has not been trained with yet.
    UnClicked,
    /// Met, outings not unlocked yet.
    BeforeUnlock,
    /// Outings unlocked.
    AfterUnlock,
}

/// Event of training with the friend.
#[derive(Debug, Clone, Copy, PartialEq, Eq, Structural)]
pub enum FriendClickEvent {
    /// The first meeting.
    First,
    /// A later training together.
    Click,
}

/// Training with the friend: the first time moves the friend to
/// `BeforeUnlock` and raises the first-meeting event; later times raise the
/// click event and change nothing.
pub fn handle_friend_click(out_state: &mut FriendOutState) -> (e: FriendClickEvent)
    ensures
        *old(out_state) == FriendOutState::UnClicked ==> e == FriendClickEvent::First && *final(out_state)
            == FriendOutState::BeforeUnlock,
        *old(out_state) != FriendOutState::UnClicked ==> e == FriendClickEvent::Click && *final(out_state)
            == *old(out_state),
{
    match *out_state {
        FriendOutState::UnClicked => {
            *out_state = FriendOutState::BeforeUnlock;
            FriendClickEvent::First
        },
        _ => FriendClickEvent::Click,
    }
}

/// Which odds the friend's unlock draw uses.
#[derive(Debug, Clone, Copy, PartialEq, Eq, Structural)]
pub enum UnlockOdds {
    /// Friendship below 60.
    Low,
    /// Friendship of 60 or more.
    High,
}

/// Whether the friend's unlock is drawn on `turn`, and with which odds: only
/// outside the event-free turns, for a friend met but not unlocked; the odds
/// follow the friend's friendship.
pub open spec fn friend_unlock_odds_spec(
    turn: i32,
    no_event_turns: Seq<i32>,
    out_state: FriendOutState,
    friendship: i32,
) -> Option<UnlockOdds> {
    if no_event_turns.contains(turn) || out_state != FriendOutState::BeforeUnlock {
        None
    } else if friendship < 60 {
        Some(UnlockOdds::Low)
    } else {
        Some(UnlockOdds::High)
    }
}

/// Whether and with which odds the friend's unlock is drawn (see
/// [`friend_unlock_odds_spec`]); the friend is person `friend_index`.
pub fn friend_unlock_odds(
    turn: i32,
    no_event_turns: &[i32],
    out_state: FriendOutState,
    persons: &[Person],
    friend_index: usize,
) -> (r: Option<UnlockOdds>)
    requires
        out_state == FriendOutState::BeforeUnlock && !no_event_turns@.contains(turn) ==> friend_index
            < persons@.len(),
    ensures
        r == friend_unlock_odds_spec(
            turn,
            no_event_turns@,
            out_state,
            if friend_index < persons@.len() {
                persons@[friend_index as int].friendship
            } else {
                0
            },
        ),
{
    if holds(no_event_turns, turn) || out_state != FriendOutState::BeforeUnlock {
        return None;
    }
    if persons[friend_index].friendship < 60 {
        Some(UnlockOdds::Low)
    } else {
        Some(UnlockOdds::High)
    }
}

/// Friendship stays within 0..=100: if every person starts there, gaining
/// non-negative friendship through any sequence of trainings keeps it there.
pub proof fn lemma_friendship_stays_bounded(ps: Seq<Person>, deck: Seq<i32>, slot: Seq<i32>, v: int)
    requires
        v >= 0,
        forall|i: int| 0 <= i < ps.len() ==> 0 <= #[trigger] ps[i].friendship <= MAX_FRIENDSHIP,
        forall|i: int| 0 <= i < deck.len() ==> 0 <= #[trigger] deck[i] <= MAX_FRIENDSHIP,
    ensures
        forall|i: int|
            0 <= i < ps.len() ==> 0 <= #[trigger] befriend_all(ps, deck, slot, v).0[i].friendship
                <= MAX_FRIENDSHIP,
        forall|i: int| 0 <= i < deck.len() ==> 0 <= #[trigger] befriend_all(ps, deck, slot, v).1[i] <= MAX_FRIENDSHIP,
    decreases slot.len(),
{
    if slot.len() > 0 {
        lemma_friendship_stays_bounded(ps, deck, slot.drop_last(), v);
        lemma_befriend_all_keeps(ps, deck, slot.drop_last(), v);
    }
}

/// NPCs never gain friendship: after any sequence of trainings an NPC's
/// friendship is what it was.
pub proof fn lemma_npc_friendship_unchanged(ps: Seq<Person>, deck: Seq<i32>, slot: Seq<i32>, v: int, i: int)
    requires
        0 <= i < ps.len(),
        ps[i].person_type == PersonType::Npc,
    ensures
        befriend_all(ps, deck, slot, v).0[i].friendship == ps[i].friendship,
    decreases slot.len(),
{
    if slot.len() > 0 {
        lemma_npc_friendship_unchanged(ps, deck, slot.drop_last(), v, i);
        lemma_befriend_all_keeps(ps, deck, slot.drop_last(), v);
    }
}

/// Under the special hint rule only support cards raise hint events.
pub proof fn lemma_special_hints_from_cards(ps: Seq<Person>, hp: Seq<i32>, hint_count_bonus: [i32; 6], k: int)
    requires
        0 <= k < special_hints(ps, hp, hint_count_bonus).len(),
    ensures
        special_hints(ps, hp, hint_count_bonus)[k] < ps.len(),
        ps[special_hints(ps, hp, hint_count_bonus)[k] as int].person_type == PersonType::Card,
    decreases hp.len(),
{
    if hp.len() > 0 {
        let prev = special_hints(ps, hp.drop_last(), hint_count_bonus);
        if k < prev.len() {
            lemma_special_hints_from_cards(ps, hp.drop_last(), hint_count_bonus, k);
        }
    }
}

} // verus!
