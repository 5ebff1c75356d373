//! Setting up a Ramen Cup run: the deck check, the stat limits of the
//! scenario, whether the deck can split into clones, and the opening cast.

use vstd::prelude::*;

use super::persons::{appended, kinds_carried, Person};
use super::stage::{DeckCard, NEW_FRIEND_CARD_ID};

verus! {

/// Highest stat limit of the scenario.
pub const STATUS_LIMIT_CAP: i32 = 2800;

/// Whether an id-with-rank names the new friend at a legal rank (1-4): the
/// ids 303051 to 303054.
pub open spec fn is_new_friend(idrank: u32) -> bool {
    idrank / 10 == NEW_FRIEND_CARD_ID && 1 <= idrank % 10 <= 4
}

/// Whether the deck carries the new friend card at a legal rank.
pub fn has_new_friend(deck_ids: &[u32; 6]) -> (b: bool)
    ensures
        b == exists|i: int| 0 <= i < 6 && is_new_friend(#[trigger] deck_ids@[i]),
{
    let mut i: usize = 0;
    while i < 6
        invariant
            i <= 6,
            deck_ids@.len() == 6,
            forall|j: int| 0 <= j < i ==> !is_new_friend(#[trigger] deck_ids@[j]),
        decreases 6 - i,
    {
        let idrank = deck_ids[i];
        let rank = idrank % 10;
        if idrank / 10 == NEW_FRIEND_CARD_ID && 1 <= rank && rank <= 4 {
            return true;
        }
        i = i + 1;
    }
    false
}

/// Why a run cannot be set up.
#[derive(Debug, Clone, Copy, PartialEq, Eq, Structural)]
pub enum SetupError {
    /// The deck lacks the new friend card (ids 303051-303054); the scenario
    /// only runs with it.
    NoNewFriend,
}

/// The deck check of a new run: refused unless the deck carries the new
/// friend card at a legal rank.
pub fn check_deck(deck_ids: &[u32; 6]) -> (r: Result<(), SetupError>)
    ensures
        r is Ok <==> exists|i: int| 0 <= i < 6 && is_new_friend(#[trigger] deck_ids@[i]),
        r is Err ==> r == Err::<(), SetupError>(SetupError::NoNewFriend),
{
    if has_new_friend(deck_ids) {
        Ok(())
    } else {
        Err(SetupError::NoNewFriend)
    }
}

/// `x`, at most the scenario's cap.
pub open spec fn capped_limit(x: i32) -> i32 {
    if x < STATUS_LIMIT_CAP { x } else { STATUS_LIMIT_CAP }
}

/// Stat limits of a new run: the scenario's own limits where it has them,
/// else the trainee's, each at most 2800.
pub fn scenario_status_limits(limits: &mut [i32; 5], scenario_base: Option<[i32; 5]>)
    ensures
        forall|i: int|
            0 <= i < 5 ==> #[trigger] final(limits)@[i] == capped_limit(
                match scenario_base {
                    Some(b) => b[i],
                    None => old(limits)@[i],
                },
            ),
{
    let mut i: usize = 0;
    while i < 5
        invariant
            i <= 5,
            forall|j: int|
                0 <= j < 5 ==> #[trigger] limits@[j] == if j < i {
                    capped_limit(
                        match scenario_base {
                            Some(b) => b[j],
                            None => old(limits)@[j],
                        },
                    )
                } else {
                    old(limits)@[j]
                },
        decreases 5 - i,
    {
        let v = match scenario_base {
            Some(b) => b[i],
            None => limits[i],
        };
        limits[i] = if v < STATUS_LIMIT_CAP { v } else { STATUS_LIMIT_CAP };
        i = i + 1;
    }
}

/// Whether the deck can split into clones: it carries at least four kinds
/// of support card.
pub fn deck_can_split(card_type_count: &[i32]) -> (b: bool)
    ensures
        b == (kinds_carried(card_type_count@) >= 4),
{
    let mut kinds: usize = 0;
    let mut i: usize = 0;
    while i < card_type_count.len()
        invariant
            i <= card_type_count@.len(),
            kinds == kinds_carried(card_type_count@.take(i as int)),
            kinds <= i,
        decreases card_type_count@.len() - i,
    {
        proof {
            card_type_count@.take(i as int).lemma_filter_push(card_type_count@[i as int], |x: i32| x > 0);
            assert(card_type_count@.take(i + 1) =~= card_type_count@.take(i as int).push(card_type_count@[i as int]));
        }
        if card_type_count[i] > 0 {
            kinds = kinds + 1;
        }
        i = i + 1;
    }
    proof {
        assert(card_type_count@.take(card_type_count@.len() as int) =~= card_type_count@);
    }
    kinds >= 4
}

/// The deck persons whose card is not a friend card (type below 5), in order.
pub open spec fn opening_cards(deck: Seq<DeckCard>, deck_persons: Seq<Person>, n: int) -> Seq<Person>
    decreases n,
{
    if n <= 0 {
        Seq::empty()
    } else {
        opening_cards(deck, deck_persons, n - 1) + if deck[n - 1].card_type < 5 {
            seq![deck_persons[n - 1]]
        } else {
            Seq::empty()
        }
    }
}

/// The opening cast: the persons of the deck's non-friend cards (the friend
/// joins later), then the chairwoman. `deck_persons[i]` is the person of
/// card `deck[i]`.
pub fn init_persons(persons: &mut Vec<Person>, deck: &[DeckCard], deck_persons: &[Person], yayoi: Person)
    requires
        deck@.len() == deck_persons@.len(),
    ensures
        final(persons)@ == appended(
            old(persons)@,
            opening_cards(deck@, deck_persons@, deck@.len() as int).push(yayoi),
        ),
{
    let ghost ps0 = persons@;
    let mut i: usize = 0;
    while i < deck.len()
        invariant
            i <= deck@.len(),
            deck@.len() == deck_persons@.len(),
            persons@ == appended(ps0, opening_cards(deck@, deck_persons@, i as int)),
        decreases deck@.len() - i,
    {
        let ghost before = persons@;
        if deck[i].card_type < 5 {
            super::persons::add_person(persons, deck_persons[i]);
            proof {
                assert(persons@ =~= appended(ps0, opening_cards(deck@, deck_persons@, i + 1)));
            }
        } else {
            proof {
                assert(opening_cards(deck@, deck_persons@, i + 1) =~= opening_cards(deck@, deck_persons@, i as int));
            }
        }
        i = i + 1;
    }
    let ghost mid = opening_cards(deck@, deck_persons@, deck@.len() as int);
    super::persons::add_person(persons, yayoi);
    proof {
        assert(persons@ =~= appended(ps0, mid.push(yayoi)));
    }
}

} // verus!
