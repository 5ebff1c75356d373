//! SSR card pool for deck search.
//!
//! The pool is grouped by attribute (speed, stamina, power, guts, wisdom);
//! each group is ordered by `card_id`, largest first, keeping the file's
//! order among equal ids. Cards of excluded characters (a trainee cannot use
//! her own support card) are removed at load time. A deck gene picks cards by
//! index into these groups; the friend slot is fixed.

use vstd::prelude::*;

use rand::rngs::StdRng;
use rand::Rng;
use std::collections::hash_map::DefaultHasher;
use std::hash::Hasher;
use vstd::bytes::{spec_u32_to_le_bytes, spec_u64_to_le_bytes, u32_to_le_bytes, u64_to_le_bytes};
use vstd::std_specs::hash::DefaultHasherAdditionalSpecFns;

verus! {

/// Number of attributes (0 speed, 1 stamina, 2 power, 3 guts, 4 wisdom).
pub const ATTR_COUNT: usize = 5;

/// `card_id` of the friend card (not searched).
pub const FRIEND_CARD_ID: u32 = 30305;

/// `idrank` of the fully limit-broken friend card.
pub const FRIEND_IDRANK: u32 = 303054;

/// Fewest cards an attribute group may keep after exclusion.
pub const MIN_POOL_SIZE: usize = 3;

/// English name of an attribute, as the pool file keys it.
pub open spec fn attr_name_spec(attr: int) -> Seq<char> {
    if attr == 0 {
        "speed"@
    } else if attr == 1 {
        "stamina"@
    } else if attr == 2 {
        "power"@
    } else if attr == 3 {
        "guts"@
    } else {
        "wisdom"@
    }
}

/// English name of an attribute, as the pool file keys it.
pub fn attr_name(attr: usize) -> (s: &'static str)
    requires
        attr < ATTR_COUNT,
    ensures
        s@ == attr_name_spec(attr as int),
{
    if attr == 0 {
        "speed"
    } else if attr == 1 {
        "stamina"
    } else if attr == 2 {
        "power"
    } else if attr == 3 {
        "guts"
    } else {
        "wisdom"
    }
}

/// One card of the pool.
#[derive(Debug)]
pub struct PoolCard {
    pub card_id: u32,
    pub idrank: u32,
    pub name: String,
    pub full_name: String,
    pub chara_id: u32,
    pub card_type: i32,
}

impl Clone for PoolCard {
    fn clone(&self) -> (c: Self)
        ensures
            c == *self,
    {
        PoolCard {
            card_id: self.card_id,
            idrank: self.idrank,
            name: self.name.clone(),
            full_name: self.full_name.clone(),
            chara_id: self.chara_id,
            card_type: self.card_type,
        }
    }
}

/// The pool file's contents: cards grouped under attribute names.
#[derive(Debug)]
pub struct SsrPoolData {
    pub source: String,
    /// Number of cards the file declares.
    pub total_cards: usize,
    /// Groups of cards keyed by attribute name, in file order.
    pub pool: Vec<(String, Vec<PoolCard>)>,
    /// Card ids left out of the pool when it was generated.
    pub excluded_from_card_db: Vec<u32>,
}

/// The cards listed under `name` (the first group with that key), or none.
pub open spec fn lookup(groups: Seq<(String, Vec<PoolCard>)>, name: Seq<char>) -> Seq<PoolCard>
    decreases groups.len(),
{
    if groups.len() == 0 {
        Seq::empty()
    } else if groups[0].0@ == name {
        groups[0].1@
    } else {
        lookup(groups.drop_first(), name)
    }
}

/// Whether a card has this id.
pub open spec fn id_is(id: u32) -> spec_fn(PoolCard) -> bool {
    |c: PoolCard| c.card_id == id
}

/// Ordered by `card_id`, largest first.
pub open spec fn sorted_desc(s: Seq<PoolCard>) -> bool {
    forall|i: int, j: int| 0 <= i < j < s.len() ==> s[i].card_id >= s[j].card_id
}

/// `out` is `input` ordered by `card_id`, largest first, with cards of equal
/// id in their input order (what a stable descending sort gives).
pub open spec fn stable_sorted_desc(input: Seq<PoolCard>, out: Seq<PoolCard>) -> bool {
    &&& sorted_desc(out)
    &&& forall|id: u32| #[trigger] out.filter(id_is(id)) == input.filter(id_is(id))
}

fn lookup_cards(groups: &Vec<(String, Vec<PoolCard>)>, name: &str) -> (r: Vec<PoolCard>)
    ensures
        r@ == lookup(groups@, name@),
{
    let key = name.to_owned();
    let mut i: usize = 0;
    assert(groups@.skip(0) =~= groups@);
    while i < groups.len()
        invariant
            i <= groups@.len(),
            key@ == name@,
            lookup(groups@, name@) == lookup(groups@.skip(i as int), name@),
        decreases groups@.len() - i,
    {
        let ghost rest = groups@.skip(i as int);
        assert(rest[0] == groups@[i as int]);
        assert(rest.drop_first() =~= groups@.skip(i + 1));
        if groups[i].0 == key {
            return clone_cards(&groups[i].1);
        }
        i = i + 1;
    }
    Vec::new()
}

fn clone_cards(v: &Vec<PoolCard>) -> (r: Vec<PoolCard>)
    ensures
        r@ == v@,
{
    let mut r: Vec<PoolCard> = Vec::new();
    let mut i: usize = 0;
    while i < v.len()
        invariant
            i <= v@.len(),
            r@ == v@.take(i as int),
        decreases v@.len() - i,
    {
        r.push(v[i].clone());
        assert(v@.take(i + 1) =~= v@.take(i as int).push(v@[i as int]));
        i = i + 1;
    }
    assert(v@.take(v@.len() as int) =~= v@);
    r
}

proof fn lemma_filter_none(b: Seq<PoolCard>, p: spec_fn(PoolCard) -> bool)
    requires
        forall|k: int| 0 <= k < b.len() ==> !(#[trigger] p(b[k])),
    ensures
        b.filter(p) == Seq::<PoolCard>::empty(),
    decreases b.len(),
{
    if b.len() > 0 {
        let c = b.drop_last();
        assert(b =~= c.push(b.last()));
        assert forall|k: int| 0 <= k < c.len() implies !(#[trigger] p(c[k])) by {
            assert(c[k] == b[k]);
        }
        lemma_filter_none(c, p);
        c.lemma_filter_push(b.last(), p);
    } else {
        reveal(Seq::filter);
    }
}

proof fn lemma_insert_keeps_groups(out: Seq<PoolCard>, p: int, x: PoolCard, id: u32)
    requires
        0 <= p <= out.len(),
        forall|k: int| p <= k < out.len() ==> out[k].card_id < x.card_id,
    ensures
        out.insert(p, x).filter(id_is(id)) == if x.card_id == id {
            out.filter(id_is(id)).push(x)
        } else {
            out.filter(id_is(id))
        },
{
    broadcast use vstd::seq_lib::group_seq_properties;
    let a = out.take(p);
    let b = out.skip(p);
    assert(out =~= a + b);
    assert(out.insert(p, x) =~= (a + seq![x]) + b);
    assert(a.push(x) =~= a + seq![x]);
    Seq::filter_distributes_over_add(a + seq![x], b, id_is(id));
    Seq::filter_distributes_over_add(a, b, id_is(id));
    a.lemma_filter_push(x, id_is(id));
    if x.card_id == id {
        assert forall|k: int| 0 <= k < b.len() implies !(#[trigger] id_is(id)(b[k])) by {
            assert(b[k] == out[p + k]);
        }
        lemma_filter_none(b, id_is(id));
    }
}

/// Orders cards by `card_id`, largest first, keeping the input order among
/// equal ids.
pub fn sort_desc_stable(input: &Vec<PoolCard>) -> (out: Vec<PoolCard>)
    ensures
        stable_sorted_desc(input@, out@),
{
    let ghost orig = input@;
    let mut out: Vec<PoolCard> = Vec::new();
    let n = input.len();
    let mut i: usize = 0;
    while i < n
        invariant
            n == orig.len(),
            orig == input@,
            i <= n,
            sorted_desc(out@),
            forall|id: u32| #[trigger] out@.filter(id_is(id)) == orig.take(i as int).filter(id_is(id)),
        decreases n - i,
    {
        let x = input[i].clone();
        assert(x == orig[i as int]);
        let mut p: usize = 0;
        while p < out.len() && out[p].card_id >= x.card_id
            invariant
                p <= out@.len(),
                forall|k: int| 0 <= k < p ==> out@[k].card_id >= x.card_id,
            decreases out@.len() - p,
        {
            p = p + 1;
        }
        let ghost before = out@;
        proof {
            assert forall|k: int| p <= k < before.len() implies before[k].card_id < x.card_id by {
                if k > p {
                    assert(before[p as int].card_id >= before[k].card_id);
                }
            }
        }
        out.insert(p, x);
        proof {
            assert(out@ == before.insert(p as int, x));
            assert forall|a: int, b: int| 0 <= a < b < out@.len() implies out@[a].card_id >= out@[b].card_id by {
                if a < p && b < p {
                } else if a < p && b == p {
                } else if a < p && b > p {
                    assert(out@[b] == before[b - 1]);
                } else if a == p {
                    assert(out@[b] == before[b - 1]);
                } else {
                    assert(out@[a] == before[a - 1]);
                    assert(out@[b] == before[b - 1]);
                }
            }
            assert(orig.take(i + 1) =~= orig.take(i as int).push(x));
            assert forall|id: u32| #[trigger] out@.filter(id_is(id)) == orig.take(i + 1).filter(id_is(id)) by {
                lemma_insert_keeps_groups(before, p as int, x, id);
                orig.take(i as int).lemma_filter_push(x, id_is(id));
            }
        }
        i = i + 1;
    }
    assert(orig.take(n as int) =~= orig);
    out
}

/// Whether a card's character is not excluded.
pub open spec fn kept_by(exclude: Seq<u32>) -> spec_fn(PoolCard) -> bool {
    |c: PoolCard| !exclude.contains(c.chara_id)
}

fn slice_contains(v: &[u32], x: u32) -> (b: bool)
    ensures
        b == v@.contains(x),
{
    let mut i: usize = 0;
    while i < v.len()
        invariant
            i <= v@.len(),
            forall|k: int| 0 <= k < i ==> v@[k] != x,
        decreases v@.len() - i,
    {
        if v[i] == x {
            assert(v@[i as int] == x);
            return true;
        }
        i = i + 1;
    }
    false
}

fn copy_ids(v: &[u32]) -> (r: Vec<u32>)
    ensures
        r@ == v@,
{
    let mut r: Vec<u32> = Vec::new();
    let mut i: usize = 0;
    while i < v.len()
        invariant
            i <= v@.len(),
            r@ == v@.take(i as int),
        decreases v@.len() - i,
    {
        r.push(v[i]);
        assert(v@.take(i + 1) =~= v@.take(i as int).push(v@[i as int]));
        i = i + 1;
    }
    assert(v@.take(v@.len() as int) =~= v@);
    r
}

fn keep_cards(cards: &Vec<PoolCard>, exclude: &[u32]) -> (r: Vec<PoolCard>)
    ensures
        r@ == cards@.filter(kept_by(exclude@)),
{
    let mut r: Vec<PoolCard> = Vec::new();
    let mut i: usize = 0;
    while i < cards.len()
        invariant
            i <= cards@.len(),
            r@ == cards@.take(i as int).filter(kept_by(exclude@)),
        decreases cards@.len() - i,
    {
        let c = cards[i].clone();
        proof {
            assert(cards@.take(i + 1) =~= cards@.take(i as int).push(c));
            cards@.take(i as int).lemma_filter_push(c, kept_by(exclude@));
        }
        if !slice_contains(exclude, c.chara_id) {
            r.push(c);
        }
        i = i + 1;
    }
    assert(cards@.take(cards@.len() as int) =~= cards@);
    r
}

/// Why the pool cannot be loaded or a card cannot be found.
#[derive(Debug, Clone, Copy, PartialEq, Eq, Structural)]
pub enum PoolError {
    /// The file declares another total than its groups hold.
    TotalMismatch { declared: usize, actual: usize },
    /// An attribute keeps fewer than [`MIN_POOL_SIZE`] cards after exclusion.
    PoolTooSmall { attr: usize, size: usize },
    /// No card at this index of the attribute's group.
    IndexOutOfRange { attr: usize, size: usize, idx: usize },
    /// A deck must hold exactly six cards.
    DeckSize { len: usize },
    /// A deck holds a card twice.
    DuplicateCard,
}

/// The pool at run time: the five attribute groups, each ordered by
/// `card_id`, largest first.
#[derive(Debug)]
pub struct SsrPool {
    /// Groups in attribute order.
    pub pools: [Vec<PoolCard>; ATTR_COUNT],
    /// Card ids left out of the pool when it was generated.
    pub excluded: Vec<u32>,
    /// Characters whose cards were removed at load time.
    pub exclude_chara_ids: Vec<u32>,
}

/// The cards of an attribute as the file lists them.
pub open spec fn listed(data: SsrPoolData, attr: int) -> Seq<PoolCard> {
    lookup(data.pool@, attr_name_spec(attr))
}

/// Number of cards the file's groups hold.
pub open spec fn listed_total(data: SsrPoolData) -> int {
    (listed(data, 0).len() + listed(data, 1).len() + listed(data, 2).len() + listed(data, 3).len()
        + listed(data, 4).len()) as int
}

/// The first attribute that keeps too few cards.
pub open spec fn first_too_small(data: SsrPoolData, exclude: Seq<u32>) -> Option<int> {
    if too_small(data, 0, exclude) {
        Some(0)
    } else if too_small(data, 1, exclude) {
        Some(1)
    } else if too_small(data, 2, exclude) {
        Some(2)
    } else if too_small(data, 3, exclude) {
        Some(3)
    } else if too_small(data, 4, exclude) {
        Some(4)
    } else {
        None
    }
}

/// Why the file's contents are refused, if they are.
pub open spec fn load_error(data: SsrPoolData, exclude: Seq<u32>) -> Option<PoolError> {
    if listed_total(data) != data.total_cards {
        Some(PoolError::TotalMismatch { declared: data.total_cards, actual: listed_total(data) as usize })
    } else {
        match first_too_small(data, exclude) {
            Some(a) => Some(PoolError::PoolTooSmall { attr: a as usize, size: kept(data, a, exclude).len() as usize }),
            None => None,
        }
    }
}

/// `p` is the pool built from the file's contents without the excluded
/// characters' cards.
pub open spec fn loaded_pool(data: SsrPoolData, exclude: Seq<u32>, p: SsrPool) -> bool {
    &&& p.wf()
    &&& p.excluded@ == data.excluded_from_card_db@
    &&& p.exclude_chara_ids@ == exclude
    &&& forall|a: int| 0 <= a < ATTR_COUNT ==> stable_sorted_desc(kept(data, a, exclude), #[trigger] p.pools[a]@)
}

/// The cards of an attribute that survive the exclusion.
pub open spec fn kept(data: SsrPoolData, attr: int, exclude: Seq<u32>) -> Seq<PoolCard> {
    listed(data, attr).filter(kept_by(exclude))
}

/// An attribute keeps too few cards.
pub open spec fn too_small(data: SsrPoolData, attr: int, exclude: Seq<u32>) -> bool {
    kept(data, attr, exclude).len() < MIN_POOL_SIZE
}

impl SsrPool {
    /// Every group is ordered by `card_id`, largest first.
    pub open spec fn wf(&self) -> bool {
        forall|a: int| 0 <= a < ATTR_COUNT ==> sorted_desc(#[trigger] self.pools[a]@)
    }

    /// Builds the pool from the file's contents (see [`SsrPool::load_filtered`]).
    pub fn load(data: &SsrPoolData) -> (r: Result<SsrPool, PoolError>)
        requires
            listed_total(*data) <= usize::MAX,
        ensures
            match load_error(*data, Seq::empty()) {
                Some(e) => r == Err::<SsrPool, PoolError>(e),
                None => r matches Ok(p) && loaded_pool(*data, Seq::empty(), p),
            },
    {
        let none: Vec<u32> = Vec::new();
        assert(none@ =~= Seq::<u32>::empty());
        SsrPool::load_filtered(data, none.as_slice())
    }

    /// Builds the pool from the file's contents, without the cards of the
    /// characters in `exclude_chara_ids`: each attribute's cards (none where
    /// the file has no group for it) ordered by `card_id`, largest first.
    /// Refused where the file's declared total differs from what its groups
    /// hold, or where an attribute keeps fewer than [`MIN_POOL_SIZE`] cards
    /// (the first such attribute is reported).
    pub fn load_filtered(data: &SsrPoolData, exclude_chara_ids: &[u32]) -> (r: Result<SsrPool, PoolError>)
        requires
            listed_total(*data) <= usize::MAX,
        ensures
            match load_error(*data, exclude_chara_ids@) {
                Some(e) => r == Err::<SsrPool, PoolError>(e),
                None => r matches Ok(p) && loaded_pool(*data, exclude_chara_ids@, p),
            },
    {
        let l0 = lookup_cards(&data.pool, attr_name(0));
        let l1 = lookup_cards(&data.pool, attr_name(1));
        let l2 = lookup_cards(&data.pool, attr_name(2));
        let l3 = lookup_cards(&data.pool, attr_name(3));
        let l4 = lookup_cards(&data.pool, attr_name(4));
        let total = l0.len() + l1.len() + l2.len() + l3.len() + l4.len();
        if total != data.total_cards {
            return Err(PoolError::TotalMismatch { declared: data.total_cards, actual: total });
        }
        let k0 = keep_cards(&l0, exclude_chara_ids);
        let k1 = keep_cards(&l1, exclude_chara_ids);
        let k2 = keep_cards(&l2, exclude_chara_ids);
        let k3 = keep_cards(&l3, exclude_chara_ids);
        let k4 = keep_cards(&l4, exclude_chara_ids);
        let ghost e = exclude_chara_ids@;
        let ghost d = *data;
        assert(kept(d, 0, e) == k0@ && kept(d, 1, e) == k1@ && kept(d, 2, e) == k2@ && kept(d, 3, e) == k3@
            && kept(d, 4, e) == k4@);
        if k0.len() < MIN_POOL_SIZE {
            return Err(PoolError::PoolTooSmall { attr: 0, size: k0.len() });
        }
        if k1.len() < MIN_POOL_SIZE {
            return Err(PoolError::PoolTooSmall { attr: 1, size: k1.len() });
        }
        if k2.len() < MIN_POOL_SIZE {
            return Err(PoolError::PoolTooSmall { attr: 2, size: k2.len() });
        }
        if k3.len() < MIN_POOL_SIZE {
            return Err(PoolError::PoolTooSmall { attr: 3, size: k3.len() });
        }
        if k4.len() < MIN_POOL_SIZE {
            return Err(PoolError::PoolTooSmall { attr: 4, size: k4.len() });
        }
        let pools = [
            sort_desc_stable(&k0),
            sort_desc_stable(&k1),
            sort_desc_stable(&k2),
            sort_desc_stable(&k3),
            sort_desc_stable(&k4),
        ];
        let p = SsrPool {
            pools,
            excluded: copy_ids(data.excluded_from_card_db.as_slice()),
            exclude_chara_ids: copy_ids(exclude_chara_ids),
        };
        assert(p.wf());
        Ok(p)
    }
}

/// The attribute's group holds a card with this id.
pub open spec fn holds_card(cards: Seq<PoolCard>, card_id: u32) -> bool {
    exists|i: int| 0 <= i < cards.len() && cards[i].card_id == card_id
}

/// Position of the first card with this id in the group.
pub open spec fn first_index_of(cards: Seq<PoolCard>, card_id: u32) -> Option<int> {
    if holds_card(cards, card_id) {
        Some(
            choose|i: int|
                0 <= i < cards.len() && cards[i].card_id == card_id && forall|k: int|
                    0 <= k < i ==> cards[k].card_id != card_id,
        )
    } else {
        None
    }
}

proof fn lemma_first_index(cards: Seq<PoolCard>, card_id: u32, i: int)
    requires
        0 <= i < cards.len(),
        cards[i].card_id == card_id,
        forall|k: int| 0 <= k < i ==> cards[k].card_id != card_id,
    ensures
        first_index_of(cards, card_id) == Some(i),
{
    let c = choose|j: int|
        0 <= j < cards.len() && cards[j].card_id == card_id && forall|k: int|
            0 <= k < j ==> cards[k].card_id != card_id;
    assert(0 <= c < cards.len() && cards[c].card_id == card_id && forall|k: int|
        0 <= k < c ==> cards[k].card_id != card_id);
    if c < i {
        assert(cards[c].card_id != card_id);
    }
    if i < c {
        assert(cards[i].card_id != card_id);
    }
}

impl SsrPool {
    /// Number of cards of an attribute.
    pub fn pool_size(&self, attr: usize) -> (n: usize)
        requires
            attr < ATTR_COUNT,
        ensures
            n == self.pools[attr as int]@.len(),
    {
        self.pools[attr].len()
    }

    /// The `idx`-th card of an attribute (0-based, largest `card_id` first).
    pub fn get_card(&self, attr: usize, idx: usize) -> (r: Result<&PoolCard, PoolError>)
        requires
            attr < ATTR_COUNT,
        ensures
            idx < self.pools[attr as int]@.len() ==> (r matches Ok(c) && *c == self.pools[attr as int]@[idx as int]),
            idx >= self.pools[attr as int]@.len() ==> r == Err::<&PoolCard, PoolError>(
                PoolError::IndexOutOfRange { attr, size: self.pools[attr as int]@.len() as usize, idx },
            ),
    {
        let cards = &self.pools[attr];
        if idx < cards.len() {
            Ok(&cards[idx])
        } else {
            Err(PoolError::IndexOutOfRange { attr, size: cards.len(), idx })
        }
    }

    /// `idrank` of the `idx`-th card of an attribute.
    pub fn get_idrank(&self, attr: usize, idx: usize) -> (r: Result<u32, PoolError>)
        requires
            attr < ATTR_COUNT,
        ensures
            idx < self.pools[attr as int]@.len() ==> r == Ok::<u32, PoolError>(
                self.pools[attr as int]@[idx as int].idrank,
            ),
            idx >= self.pools[attr as int]@.len() ==> r == Err::<u32, PoolError>(
                PoolError::IndexOutOfRange { attr, size: self.pools[attr as int]@.len() as usize, idx },
            ),
    {
        match self.get_card(attr, idx) {
            Ok(c) => Ok(c.idrank),
            Err(e) => Err(e),
        }
    }

    /// Whether an attribute's group holds a card with this id.
    pub fn contains_card(&self, attr: usize, card_id: u32) -> (b: bool)
        requires
            attr < ATTR_COUNT,
        ensures
            b == holds_card(self.pools[attr as int]@, card_id),
    {
        match self.index_of(attr, card_id) {
            Some(_) => true,
            None => false,
        }
    }

    /// Position of a card id in an attribute's group (its first occurrence).
    pub fn index_of(&self, attr: usize, card_id: u32) -> (r: Option<usize>)
        requires
            attr < ATTR_COUNT,
        ensures
            match first_index_of(self.pools[attr as int]@, card_id) {
                Some(i) => r == Some(i as usize),
                None => r is None,
            },
            r is Some <==> holds_card(self.pools[attr as int]@, card_id),
    {
        let cards = &self.pools[attr];
        assert(cards@ == self.pools[attr as int]@);
        let mut i: usize = 0;
        while i < cards.len()
            invariant
                i <= cards@.len(),
                cards@ == self.pools[attr as int]@,
                forall|k: int| 0 <= k < i ==> cards@[k].card_id != card_id,
            decreases cards@.len() - i,
        {
            if cards[i].card_id == card_id {
                proof {
                    lemma_first_index(cards@, card_id, i as int);
                }
                return Some(i);
            }
            i = i + 1;
        }
        None
    }
}

/// A card choice: one starting index per attribute into its group, and the
/// friend card.
#[derive(Debug, Clone, Copy, PartialEq, Eq, Hash)]
pub struct CardSelection {
    /// Starting index in each attribute's group (0: largest `card_id`).
    pub indices: [usize; ATTR_COUNT],
    /// `idrank` of the friend card (last in the deck).
    pub friend_idrank: u32,
}

/// Whether `c` takes attribute `i`'s index from `b` where `bits[i]` is set
/// and from `a` otherwise, and the friend card from `a`.
pub open spec fn crossed_by(a: CardSelection, b: CardSelection, bits: [bool; 5], c: CardSelection) -> bool {
    &&& forall|i: int|
        0 <= i < ATTR_COUNT ==> #[trigger] c.indices[i] == if bits[i] {
            b.indices[i]
        } else {
            a.indices[i]
        }
    &&& c.friend_idrank == a.friend_idrank
}

/// An attribute's cards of the deck can be taken from its group.
pub open spec fn fits(sel: CardSelection, pool: SsrPool, counts: [usize; ATTR_COUNT], a: int) -> bool {
    counts[a] == 0 || sel.indices[a] + counts[a] <= pool.pools[a]@.len()
}

/// The first attribute whose cards cannot be taken.
pub open spec fn first_unfit(sel: CardSelection, pool: SsrPool, counts: [usize; ATTR_COUNT]) -> Option<int> {
    if !fits(sel, pool, counts, 0) {
        Some(0)
    } else if !fits(sel, pool, counts, 1) {
        Some(1)
    } else if !fits(sel, pool, counts, 2) {
        Some(2)
    } else if !fits(sel, pool, counts, 3) {
        Some(3)
    } else if !fits(sel, pool, counts, 4) {
        Some(4)
    } else {
        None
    }
}

/// An attribute's cards of the deck: `counts[a]` consecutive cards of its
/// group from the chosen index.
pub open spec fn attr_part(sel: CardSelection, pool: SsrPool, counts: [usize; ATTR_COUNT], a: int) -> Seq<u32> {
    Seq::new(counts[a] as nat, |j: int| pool.pools[a]@[sel.indices[a] + j].idrank)
}

/// The cards of the first `n` attributes.
pub open spec fn parts_upto(sel: CardSelection, pool: SsrPool, counts: [usize; ATTR_COUNT], n: int) -> Seq<u32>
    decreases n,
{
    if n <= 0 {
        Seq::empty()
    } else {
        parts_upto(sel, pool, counts, n - 1) + attr_part(sel, pool, counts, n - 1)
    }
}

/// Card ids (`idrank / 10`) of a deck are pairwise distinct.
pub open spec fn distinct_cards(d: Seq<u32>) -> bool {
    forall|i: int, j: int| 0 <= i < j < d.len() ==> d[i] / 10 != d[j] / 10
}

/// The deck a selection gives for the attribute counts, or why there is none.
pub open spec fn deck_spec(sel: CardSelection, pool: SsrPool, counts: [usize; ATTR_COUNT]) -> Result<
    Seq<u32>,
    PoolError,
> {
    match first_unfit(sel, pool, counts) {
        Some(a) => {
            let len = pool.pools[a]@.len();
            Err(
                PoolError::IndexOutOfRange {
                    attr: a as usize,
                    size: len as usize,
                    idx: if sel.indices[a] >= len { sel.indices[a] } else { len as usize },
                },
            )
        },
        None => {
            let d = parts_upto(sel, pool, counts, 5).push(sel.friend_idrank);
            if d.len() != 6 {
                Err(PoolError::DeckSize { len: d.len() as usize })
            } else if !distinct_cards(d) {
                Err(PoolError::DuplicateCard)
            } else {
                Ok(d)
            }
        },
    }
}

/// The random generator of the deck search (`rand::rngs::StdRng`).
#[verifier::external_type_specification]
#[verifier::external_body]
pub struct ExStdRng(StdRng);

proof fn lemma_first_unfit(sel: CardSelection, pool: SsrPool, counts: [usize; ATTR_COUNT], a: int)
    requires
        0 <= a < ATTR_COUNT,
        forall|b: int| 0 <= b < a ==> fits(sel, pool, counts, b),
        !fits(sel, pool, counts, a),
    ensures
        first_unfit(sel, pool, counts) == Some(a),
{
    if a > 0 {
        assert(fits(sel, pool, counts, 0));
    }
    if a > 1 {
        assert(fits(sel, pool, counts, 1));
    }
    if a > 2 {
        assert(fits(sel, pool, counts, 2));
    }
    if a > 3 {
        assert(fits(sel, pool, counts, 3));
    }
}

/// Draws a fair random bit.
#[verifier::external_body]
fn random_bit(rng: &mut StdRng) -> bool {
    rng.random::<bool>()
}

/// The bytes that hashing a selection writes, one write each: the length
/// prefix of the index array (5), the five indices, and the friend card,
/// every number in little-endian order, the indices and the prefix as 64-bit
/// words. These are the bytes that std's `Hash` for `[usize; 5]` and `u32`
/// writes on a 64-bit little-endian machine; the library fixes them so that
/// the key does not depend on the machine.
pub open spec fn key_writes(sel: CardSelection) -> Seq<Seq<u8>> {
    seq![
        spec_u64_to_le_bytes(5),
        spec_u64_to_le_bytes(sel.indices[0] as u64) + spec_u64_to_le_bytes(sel.indices[1] as u64)
            + spec_u64_to_le_bytes(sel.indices[2] as u64) + spec_u64_to_le_bytes(sel.indices[3] as u64)
            + spec_u64_to_le_bytes(sel.indices[4] as u64),
        spec_u32_to_le_bytes(sel.friend_idrank),
    ]
}

fn distinct_ids(d: &Vec<u32>) -> (b: bool)
    ensures
        b == distinct_cards(d@),
{
    let n = d.len();
    let mut i: usize = 0;
    while i < n
        invariant
            n == d@.len(),
            i <= n,
            forall|a: int, b: int| 0 <= a < i && a < b < n ==> d@[a] / 10 != d@[b] / 10,
        decreases n - i,
    {
        let mut j: usize = i + 1;
        while j < n
            invariant
                n == d@.len(),
                i < n,
                i + 1 <= j <= n,
                forall|a: int, b: int| 0 <= a < i && a < b < n ==> d@[a] / 10 != d@[b] / 10,
                forall|b: int| i < b < j ==> d@[i as int] / 10 != d@[b] / 10,
            decreases n - j,
        {
            if d[i] / 10 == d[j] / 10 {
                return false;
            }
            j = j + 1;
        }
        i = i + 1;
    }
    true
}

impl CardSelection {
    /// The first card of every attribute, with the default friend card.
    pub fn default_top(pool: &SsrPool) -> (s: Self)
        ensures
            s.indices == [0usize; ATTR_COUNT],
            s.friend_idrank == FRIEND_IDRANK,
    {
        CardSelection { indices: [0, 0, 0, 0, 0], friend_idrank: FRIEND_IDRANK }
    }

    /// The deck for the attribute counts: for each attribute in order,
    /// `counts[a]` consecutive cards of its group from the chosen index, then
    /// the friend card. Refused where a card is missing (the first missing
    /// one is reported), where the deck does not hold exactly six cards, or
    /// where a card id occurs twice.
    pub fn build_deck(&self, pool: &SsrPool, counts: &[usize; ATTR_COUNT]) -> (r: Result<[u32; 6], PoolError>)
        requires
            forall|a: int| 0 <= a < ATTR_COUNT ==> self.indices[a] + counts[a] <= usize::MAX,
        ensures
            match deck_spec(*self, *pool, *counts) {
                Ok(d) => r matches Ok(arr) && arr@ == d,
                Err(e) => r == Err::<[u32; 6], PoolError>(e),
            },
    {
        let mut deck: Vec<u32> = Vec::new();
        let mut attr: usize = 0;
        while attr < ATTR_COUNT
            invariant
                attr <= ATTR_COUNT,
                forall|a: int| 0 <= a < ATTR_COUNT ==> self.indices[a] + counts[a] <= usize::MAX,
                forall|a: int| 0 <= a < attr ==> fits(*self, *pool, *counts, a),
                deck@ == parts_upto(*self, *pool, *counts, attr as int),
            decreases ATTR_COUNT - attr,
        {
            let count = counts[attr];
            let start = self.indices[attr];
            let ghost base = deck@;
            let mut j: usize = 0;
            while j < count
                invariant
                    attr < ATTR_COUNT,
                    count == counts[attr as int],
                    start == self.indices[attr as int],
                    start + count <= usize::MAX,
                    forall|a: int| 0 <= a < attr ==> fits(*self, *pool, *counts, a),
                    j <= count,
                    j > 0 ==> start + j <= pool.pools[attr as int]@.len(),
                    deck@ == base + attr_part(*self, *pool, *counts, attr as int).take(j as int),
                decreases count - j,
            {
                match pool.get_idrank(attr, start + j) {
                    Ok(v) => {
                        let ghost prev = deck@;
                        deck.push(v);
                        assert(attr_part(*self, *pool, *counts, attr as int).take(j + 1) =~= attr_part(
                            *self,
                            *pool,
                            *counts,
                            attr as int,
                        ).take(j as int).push(v));
                    },
                    Err(e) => {
                        proof {
                            assert(!fits(*self, *pool, *counts, attr as int));
                            lemma_first_unfit(*self, *pool, *counts, attr as int);
                        }
                        return Err(e);
                    },
                }
                j = j + 1;
            }
            assert(attr_part(*self, *pool, *counts, attr as int).take(count as int) =~= attr_part(
                *self,
                *pool,
                *counts,
                attr as int,
            ));
            assert(fits(*self, *pool, *counts, attr as int));
            attr = attr + 1;
        }
        assert(first_unfit(*self, *pool, *counts) is None);
        deck.push(self.friend_idrank);
        if deck.len() != 6 {
            return Err(PoolError::DeckSize { len: deck.len() });
        }
        if !distinct_ids(&deck) {
            return Err(PoolError::DuplicateCard);
        }
        let arr = [deck[0], deck[1], deck[2], deck[3], deck[4], deck[5]];
        assert(arr@ =~= deck@);
        Ok(arr)
    }

    /// Crossover with the bits given: attribute `i`'s index comes from `b`
    /// where `bits[i]` is set and from `a` otherwise; the friend card comes
    /// from `a`.
    pub fn crossover_by(a: &CardSelection, b: &CardSelection, bits: [bool; 5]) -> (c: Self)
        ensures
            crossed_by(*a, *b, bits, c),
    {
        let mut indices: [usize; 5] = a.indices;
        let mut i: usize = 0;
        while i < ATTR_COUNT
            invariant
                i <= ATTR_COUNT,
                forall|k: int| 0 <= k < i ==> #[trigger] indices[k] == if bits[k] {
                    b.indices[k]
                } else {
                    a.indices[k]
                },
                forall|k: int| i <= k < ATTR_COUNT ==> #[trigger] indices[k] == a.indices[k],
            decreases ATTR_COUNT - i,
        {
            if bits[i] {
                indices.set(i, b.indices[i]);
            }
            i = i + 1;
        }
        CardSelection { indices, friend_idrank: a.friend_idrank }
    }

    /// Uniform crossover: five random bits, drawn in attribute order, and
    /// [`CardSelection::crossover_by`] with them.
    pub fn crossover(a: &CardSelection, b: &CardSelection, rng: &mut StdRng) -> (c: Self)
        ensures
            exists|bits: [bool; 5]| #[trigger] crossed_by(*a, *b, bits, c),
    {
        let b0 = random_bit(rng);
        let b1 = random_bit(rng);
        let b2 = random_bit(rng);
        let b3 = random_bit(rng);
        let b4 = random_bit(rng);
        let bits = [b0, b1, b2, b3, b4];
        Self::crossover_by(a, b, bits)
    }

    /// One draw of a mutation: attribute `attr` moves to index `candidate` of
    /// its group when the group has more than one card and `candidate` is
    /// another index of it; otherwise the selection is kept and the caller
    /// draws again (a group of one card cannot mutate).
    pub fn apply_mutation(&mut self, pool: &SsrPool, attr: usize, candidate: usize) -> (accepted: bool)
        requires
            attr < ATTR_COUNT,
        ensures
            accepted <==> (pool.pools[attr as int]@.len() > 1 && candidate < pool.pools[attr as int]@.len()
                && candidate != old(self).indices[attr as int]),
            accepted ==> final(self).indices@ == old(self).indices@.update(attr as int, candidate)
                && final(self).friend_idrank == old(self).friend_idrank,
            !accepted ==> *final(self) == *old(self),
    {
        let pool_size = pool.pool_size(attr);
        if pool_size <= 1 || candidate >= pool_size || candidate == self.indices[attr] {
            return false;
        }
        self.indices.set(attr, candidate);
        true
    }

    /// Cache key of the selection: the SipHash (`DefaultHasher`) of the
    /// indices followed by the friend card (the writes of [`key_writes`]).
    pub fn hash_key(&self) -> (k: u64)
        ensures
            k == DefaultHasher::spec_finish(key_writes(*self)),
    {
        let mut h = DefaultHasher::new();
        let prefix = u64_to_le_bytes(5);
        h.write(prefix.as_slice());
        let mut body: Vec<u8> = Vec::new();
        let ghost b0 = spec_u64_to_le_bytes(self.indices[0] as u64);
        let ghost b1 = spec_u64_to_le_bytes(self.indices[1] as u64);
        let ghost b2 = spec_u64_to_le_bytes(self.indices[2] as u64);
        let ghost b3 = spec_u64_to_le_bytes(self.indices[3] as u64);
        let ghost b4 = spec_u64_to_le_bytes(self.indices[4] as u64);
        let mut w0 = u64_to_le_bytes(self.indices[0] as u64);
        body.append(&mut w0);
        let mut w1 = u64_to_le_bytes(self.indices[1] as u64);
        body.append(&mut w1);
        let mut w2 = u64_to_le_bytes(self.indices[2] as u64);
        body.append(&mut w2);
        let mut w3 = u64_to_le_bytes(self.indices[3] as u64);
        body.append(&mut w3);
        let mut w4 = u64_to_le_bytes(self.indices[4] as u64);
        body.append(&mut w4);
        assert(body@ =~= b0 + b1 + b2 + b3 + b4);
        h.write(body.as_slice());
        let friend = u32_to_le_bytes(self.friend_idrank);
        h.write(friend.as_slice());
        assert(h@ =~= key_writes(*self));
        h.finish()
    }
}

/// A group holds a card id exactly when it has a position for it, and the
/// position found is the lowest one holding it.
pub proof fn lemma_contains_iff_index(cards: Seq<PoolCard>, card_id: u32)
    ensures
        holds_card(cards, card_id) <==> first_index_of(cards, card_id) is Some,
        match first_index_of(cards, card_id) {
            Some(i) => 0 <= i < cards.len() && cards[i].card_id == card_id && forall|k: int|
                0 <= k < i ==> cards[k].card_id != card_id,
            None => true,
        },
{
    if holds_card(cards, card_id) {
        let w = choose|i: int| 0 <= i < cards.len() && cards[i].card_id == card_id;
        lemma_least_index(cards, card_id, w);
    }
}

proof fn lemma_least_index(cards: Seq<PoolCard>, card_id: u32, w: int)
    requires
        0 <= w < cards.len(),
        cards[w].card_id == card_id,
    ensures
        exists|m: int|
            0 <= m < cards.len() && cards[m].card_id == card_id && forall|k: int|
                0 <= k < m ==> cards[k].card_id != card_id,
    decreases w,
{
    if exists|k: int| 0 <= k < w && cards[k].card_id == card_id {
        let k = choose|k: int| 0 <= k < w && cards[k].card_id == card_id;
        lemma_least_index(cards, card_id, k);
    } else {
        assert(forall|k: int| 0 <= k < w ==> cards[k].card_id != card_id);
    }
}

} // verus!
