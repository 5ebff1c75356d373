//! Deck enumeration for the benchmarks: card combinations without
//! replacement, the 101 type compositions of a deck, and the concrete
//! `3-1-1` / `2-2-1` decks over three card types.

use vstd::prelude::*;

use crate::card_pool::{attr_name, attr_name_spec};
use crate::ramen::action::lemma_flat_map_uniform_len;
use crate::text::{chars_of, dec_digits, push_dec, string_from_chars};

verus! {

/// The `k`-element combinations of `s` by position, in lexicographic order
/// of positions (the empty combination for `k == 0`).
pub open spec fn combs(s: Seq<u32>, k: nat) -> Seq<Seq<u32>>
    decreases s.len(),
{
    if k == 0 {
        seq![Seq::<u32>::empty()]
    } else if s.len() < k {
        Seq::empty()
    } else {
        combs(s.drop_first(), (k - 1) as nat).map_values(|c: Seq<u32>| seq![s[0]] + c) + combs(
            s.drop_first(),
            k,
        )
    }
}

/// What [`combinations`] lists: no combination at all for `k == 0`.
pub open spec fn combinations_spec(s: Seq<u32>, k: nat) -> Seq<Seq<u32>> {
    if k == 0 {
        Seq::empty()
    } else {
        combs(s, k)
    }
}

/// Views of a list of lists.
pub open spec fn vviews(v: Seq<Vec<u32>>) -> Seq<Seq<u32>> {
    v.map_values(|x: Vec<u32>| x@)
}

/// The binomial coefficient.
pub open spec fn binom(n: nat, k: nat) -> nat
    decreases n,
{
    if k == 0 {
        1
    } else if n == 0 {
        0
    } else {
        binom((n - 1) as nat, (k - 1) as nat) + binom((n - 1) as nat, k)
    }
}

fn push_list(out: &mut Vec<Vec<u32>>, v: Vec<u32>)
    ensures
        vviews(final(out)@) == vviews(old(out)@).push(v@),
{
    let ghost vv = v@;
    out.push(v);
    assert(vviews(out@) =~= vviews(old(out)@).push(vv));
}

fn combs_from(pool: &[u32], start: usize, k: usize) -> (r: Vec<Vec<u32>>)
    requires
        start <= pool@.len(),
    ensures
        vviews(r@) == combs(pool@.skip(start as int), k as nat),
    decreases pool@.len() - start,
{
    let ghost s = pool@.skip(start as int);
    let mut r: Vec<Vec<u32>> = Vec::new();
    if k == 0 {
        push_list(&mut r, Vec::new());
        assert(vviews(r@) =~= combs(s, 0));
        return r;
    }
    if pool.len() - start < k {
        assert(vviews(r@) =~= combs(s, k as nat));
        return r;
    }
    let first = pool[start];
    assert(s[0] == first);
    assert(s.drop_first() =~= pool@.skip(start + 1));
    let with_first = combs_from(pool, start + 1, k - 1);
    let ghost tail_with = vviews(with_first@);
    let mut i: usize = 0;
    while i < with_first.len()
        invariant
            i <= with_first@.len(),
            tail_with == vviews(with_first@),
            vviews(r@) == tail_with.take(i as int).map_values(|c: Seq<u32>| seq![first] + c),
        decreases with_first@.len() - i,
    {
        let mut c: Vec<u32> = Vec::new();
        c.push(first);
        let src = &with_first[i];
        let mut j: usize = 0;
        while j < src.len()
            invariant
                j <= src@.len(),
                c@ == seq![first] + src@.take(j as int),
            decreases src@.len() - j,
        {
            c.push(src[j]);
            assert(src@.take(j + 1) =~= src@.take(j as int).push(src@[j as int]));
            j = j + 1;
        }
        assert(src@.take(src@.len() as int) =~= src@);
        assert(tail_with[i as int] == src@);
        push_list(&mut r, c);
        assert(tail_with.take(i + 1) =~= tail_with.take(i as int).push(tail_with[i as int]));
        assert(tail_with.take(i + 1).map_values(|c: Seq<u32>| seq![first] + c) =~= tail_with.take(
            i as int,
        ).map_values(|c: Seq<u32>| seq![first] + c).push(seq![first] + tail_with[i as int]));
        i = i + 1;
    }
    assert(tail_with.take(tail_with.len() as int) =~= tail_with);
    let mut without = combs_from(pool, start + 1, k);
    let ghost head = r@;
    let ghost tail = without@;
    r.append(&mut without);
    assert(vviews(head + tail) =~= vviews(head) + vviews(tail));
    assert(vviews(r@) =~= combs(s, k as nat));
    r
}

/// All `k`-element combinations of the pool's cards without replacement, in
/// lexicographic order of positions; none for `k == 0` or `k` above the
/// pool's size.
pub fn combinations(pool: &[u32], k: usize) -> (r: Vec<Vec<u32>>)
    ensures
        vviews(r@) == combinations_spec(pool@, k as nat),
{
    if k == 0 || k > pool.len() {
        let r: Vec<Vec<u32>> = Vec::new();
        proof {
            if k > 0 {
                lemma_combs_short(pool@, k as nat);
            }
        }
        assert(vviews(r@) =~= combinations_spec(pool@, k as nat));
        return r;
    }
    assert(pool@.skip(0) =~= pool@);
    combs_from(pool, 0, k)
}

proof fn lemma_combs_short(s: Seq<u32>, k: nat)
    requires
        k > s.len(),
    ensures
        combs(s, k) == Seq::<Seq<u32>>::empty(),
{
}

/// There are `binom(n, k)` combinations of `k` among `n` cards.
pub proof fn lemma_combs_len(s: Seq<u32>, k: nat)
    ensures
        combs(s, k).len() == binom(s.len(), k),
    decreases s.len(),
{
    if k == 0 {
    } else if s.len() < k {
        lemma_binom_zero(s.len(), k);
    } else {
        lemma_combs_len(s.drop_first(), (k - 1) as nat);
        lemma_combs_len(s.drop_first(), k);
    }
}

proof fn lemma_binom_zero(n: nat, k: nat)
    requires
        n < k,
    ensures
        binom(n, k) == 0,
    decreases n,
{
    if n > 0 {
        lemma_binom_zero((n - 1) as nat, (k - 1) as nat);
        lemma_binom_zero((n - 1) as nat, k);
    }
}

/// Combinations are drawn without replacement: each has `k` cards, all of
/// them from the pool, and where the pool's cards are distinct so are the
/// cards of each combination.
pub proof fn lemma_combs_without_replacement(s: Seq<u32>, k: nat)
    ensures
        forall|i: int|
            0 <= i < combs(s, k).len() ==> {
                let c = #[trigger] combs(s, k)[i];
                &&& c.len() == k
                &&& forall|x: int| 0 <= x < c.len() ==> s.contains(c[x])
                &&& s.no_duplicates() ==> c.no_duplicates()
            },
    decreases s.len(),
{
    if k == 0 {
    } else if s.len() < k {
    } else {
        let t = s.drop_first();
        lemma_combs_without_replacement(t, (k - 1) as nat);
        lemma_combs_without_replacement(t, k);
        let a = combs(t, (k - 1) as nat).map_values(|c: Seq<u32>| seq![s[0]] + c);
        let b = combs(t, k);
        assert(combs(s, k) == a + b);
        assert forall|i: int| 0 <= i < combs(s, k).len() implies {
            let c = #[trigger] combs(s, k)[i];
            &&& c.len() == k
            &&& forall|x: int| 0 <= x < c.len() ==> s.contains(c[x])
            &&& s.no_duplicates() ==> c.no_duplicates()
        } by {
            let c = combs(s, k)[i];
            if i < a.len() {
                let d = combs(t, (k - 1) as nat)[i];
                assert(c == seq![s[0]] + d);
                assert forall|x: int| 0 <= x < c.len() implies s.contains(c[x]) by {
                    if x == 0 {
                        assert(s[0] == c[x]);
                    } else {
                        assert(c[x] == d[x - 1]);
                        assert(t.contains(d[x - 1]));
                        let y = choose|y: int| 0 <= y < t.len() && t[y] == d[x - 1];
                        assert(s[y + 1] == t[y]);
                    }
                }
                if s.no_duplicates() {
                    assert(t.no_duplicates()) by {
                        assert forall|p: int, q: int| 0 <= p < t.len() && 0 <= q < t.len() && p != q implies t[p] != t[q] by {
                            assert(t[p] == s[p + 1] && t[q] == s[q + 1]);
                        }
                    }
                    assert forall|p: int, q: int| 0 <= p < c.len() && 0 <= q < c.len() && p != q implies c[p] != c[q] by {
                        if p == 0 {
                            assert(t.contains(d[q - 1]));
                            let y = choose|y: int| 0 <= y < t.len() && t[y] == d[q - 1];
                            assert(s[y + 1] == d[q - 1]);
                        } else if q == 0 {
                            assert(t.contains(d[p - 1]));
                            let y = choose|y: int| 0 <= y < t.len() && t[y] == d[p - 1];
                            assert(s[y + 1] == d[p - 1]);
                        } else {
                            assert(c[p] == d[p - 1] && c[q] == d[q - 1]);
                        }
                    }
                }
            } else {
                let d = b[i - a.len()];
                assert(c == d);
                assert forall|x: int| 0 <= x < c.len() implies s.contains(c[x]) by {
                    assert(t.contains(d[x]));
                    let y = choose|y: int| 0 <= y < t.len() && t[y] == d[x];
                    assert(s[y + 1] == t[y]);
                }
                if s.no_duplicates() {
                    assert(t.no_duplicates()) by {
                        assert forall|p: int, q: int| 0 <= p < t.len() && 0 <= q < t.len() && p != q implies t[p] != t[q] by {
                            assert(t[p] == s[p + 1] && t[q] == s[q + 1]);
                        }
                    }
                }
            }
        }
    }
}

/// The name parts of the first `n` types: `"{count}{type}"` for each type
/// with cards.
pub open spec fn name_parts(counts: Seq<usize>, n: int) -> Seq<Seq<char>>
    decreases n,
{
    if n <= 0 {
        Seq::empty()
    } else {
        name_parts(counts, n - 1) + if counts[n - 1] > 0 {
            seq![dec_digits(counts[n - 1] as nat) + attr_name_spec(n - 1)]
        } else {
            Seq::empty()
        }
    }
}

/// Parts joined by `+`.
pub open spec fn join_plus(parts: Seq<Seq<char>>) -> Seq<char>
    decreases parts.len(),
{
    if parts.len() == 0 {
        Seq::empty()
    } else if parts.len() == 1 {
        parts[0]
    } else {
        join_plus(parts.drop_last()) + seq!['+'] + parts.last()
    }
}

/// Name of a type composition, such as `3speed+1stamina+1wisdom`.
pub open spec fn composition_name_spec(counts: Seq<usize>) -> Seq<char> {
    join_plus(name_parts(counts, 5))
}

/// Name of a type composition (see [`composition_name_spec`]).
pub fn composition_name(counts: &[usize; 5]) -> (s: String)
    ensures
        s@ == composition_name_spec(counts@),
{
    let mut out: Vec<char> = Vec::new();
    let mut t: usize = 0;
    while t < 5
        invariant
            t <= 5,
            out@ == join_plus(name_parts(counts@, t as int)),
        decreases 5 - t,
    {
        let count = counts[t];
        if count > 0 {
            let ghost parts = name_parts(counts@, t as int);
            let ghost part = dec_digits(count as nat) + attr_name_spec(t as int);
            if out.len() > 0 {
                out.push('+');
            }
            push_dec(&mut out, count as u64);
            let name = chars_of(attr_name(t));
            let mut k: usize = 0;
            let ghost base = out@;
            while k < name.len()
                invariant
                    k <= name@.len(),
                    out@ == base + name@.take(k as int),
                decreases name@.len() - k,
            {
                out.push(name[k]);
                assert(name@.take(k + 1) =~= name@.take(k as int).push(name@[k as int]));
                k = k + 1;
            }
            proof {
                assert(name@.take(name@.len() as int) =~= name@);
                assert(name_parts(counts@, t + 1) =~= parts.push(part));
                lemma_name_parts_nonempty(counts@, t as int);
                lemma_join_plus_nonempty(parts);
                if parts.len() == 0 {
                    assert(parts.push(part).len() == 1);
                    assert(out@ =~= part);
                } else {
                    assert(parts.push(part).drop_last() =~= parts);
                    assert(out@ =~= join_plus(parts) + seq!['+'] + part);
                }
            }
        } else {
            assert(name_parts(counts@, t + 1) =~= name_parts(counts@, t as int));
        }
        t = t + 1;
    }
    string_from_chars(out.as_slice())
}

proof fn lemma_name_parts_nonempty(counts: Seq<usize>, n: int)
    ensures
        forall|i: int| 0 <= i < name_parts(counts, n).len() ==> (#[trigger] name_parts(counts, n)[i]).len() > 0,
    decreases n,
{
    if n > 0 {
        lemma_name_parts_nonempty(counts, n - 1);
        let prev = name_parts(counts, n - 1);
        if counts[n - 1] > 0 {
            let part = dec_digits(counts[n - 1] as nat) + attr_name_spec(n - 1);
            assert(dec_digits(counts[n - 1] as nat).len() > 0);
            assert forall|i: int| 0 <= i < name_parts(counts, n).len() implies (#[trigger] name_parts(counts, n)[i]).len() > 0 by {
                if i < prev.len() {
                    assert(name_parts(counts, n)[i] == prev[i]);
                }
            }
        } else {
            assert(name_parts(counts, n) =~= prev);
        }
    }
}

proof fn lemma_join_plus_nonempty(parts: Seq<Seq<char>>)
    requires
        forall|i: int| 0 <= i < parts.len() ==> parts[i].len() > 0,
    ensures
        (join_plus(parts).len() == 0) == (parts.len() == 0),
    decreases parts.len(),
{
    if parts.len() > 1 {
        lemma_join_plus_nonempty(parts.drop_last());
    }
}

/// Number of cards of each type in a deck (speed, stamina, power, guts,
/// wisdom; the friend card is not counted).
#[derive(Debug, Clone, Copy, PartialEq, Eq)]
pub struct Composition {
    pub counts: [usize; 5],
}

impl Composition {
    /// Name of the composition (see [`composition_name_spec`]).
    pub fn name(&self) -> (s: String)
        ensures
            s@ == composition_name_spec(self.counts@),
    {
        composition_name(&self.counts)
    }
}

/// The counts whose base-4 digits are `n` (speed most significant).
pub open spec fn counts_of(n: int) -> Seq<usize> {
    seq![(n / 256 % 4) as usize, (n / 64 % 4) as usize, (n / 16 % 4) as usize, (n / 4 % 4) as usize, (n % 4) as usize]
}

/// Total cards of a composition.
pub open spec fn count_sum(c: Seq<usize>) -> int {
    c[0] + c[1] + c[2] + c[3] + c[4]
}

/// A composition of exactly five cards.
pub open spec fn five_cards() -> spec_fn(Seq<usize>) -> bool {
    |c: Seq<usize>| count_sum(c) == 5
}

/// Every composition with 0 to 3 cards of each type and five in all, with
/// speed varying slowest and wisdom fastest.
pub open spec fn compositions_spec() -> Seq<Seq<usize>> {
    Seq::new(1024, |n: int| counts_of(n)).filter(five_cards())
}

/// Views of a list of compositions.
pub open spec fn comp_views(v: Seq<Composition>) -> Seq<Seq<usize>> {
    v.map_values(|c: Composition| c.counts@)
}

/// Every composition of five cards with at most three of each type (101 of
/// them), speed varying slowest and wisdom fastest.
pub fn enumerate_compositions() -> (r: Vec<Composition>)
    ensures
        comp_views(r@) == compositions_spec(),
        forall|i: int|
            0 <= i < r@.len() ==> count_sum(#[trigger] r@[i].counts@) == 5 && forall|t: int|
                0 <= t < 5 ==> r@[i].counts@[t] <= 3,
{
    let mut result: Vec<Composition> = Vec::new();
    let mut n: usize = 0;
    while n < 1024
        invariant
            n <= 1024,
            comp_views(result@) == Seq::new(n as nat, |m: int| counts_of(m)).filter(five_cards()),
            forall|i: int|
                0 <= i < result@.len() ==> count_sum(#[trigger] result@[i].counts@) == 5 && forall|t: int|
                    0 <= t < 5 ==> result@[i].counts@[t] <= 3,
        decreases 1024 - n,
    {
        let counts: [usize; 5] = [n / 256 % 4, n / 64 % 4, n / 16 % 4, n / 4 % 4, n % 4];
        assert(counts@ =~= counts_of(n as int));
        let ghost prev = Seq::new(n as nat, |m: int| counts_of(m));
        proof {
            assert(Seq::new((n + 1) as nat, |m: int| counts_of(m)) =~= prev.push(counts_of(n as int)));
            prev.lemma_filter_push(counts_of(n as int), five_cards());
        }
        if counts[0] + counts[1] + counts[2] + counts[3] + counts[4] == 5 {
            let ghost before = result@;
            result.push(Composition { counts });
            assert(comp_views(result@) =~= comp_views(before).push(counts@));
        }
        n = n + 1;
    }
    result
}

/// A deterministic sample card of a type.
#[derive(Debug, Clone)]
pub struct CardRepresentative {
    /// `idrank` of the fully limit-broken card.
    pub idrank: u32,
    /// Display name.
    pub name: String,
}

/// Why a benchmark deck cannot be built.
#[derive(Debug, Clone, Copy, PartialEq, Eq, Structural)]
pub enum BenchError {
    /// A type has fewer sample cards than the composition asks for.
    NotEnoughRepresentatives { card_type: usize, count: usize },
    /// A deck must hold five cards and the friend card.
    DeckSize { len: usize },
}

/// The `idrank`s of a list of sample cards.
pub open spec fn rep_ids(v: Seq<CardRepresentative>) -> Seq<u32> {
    v.map_values(|c: CardRepresentative| c.idrank)
}

/// A type has enough sample cards.
pub open spec fn enough(comp: Composition, reps: [Vec<CardRepresentative>; 5], t: int) -> bool {
    reps[t]@.len() >= comp.counts[t]
}

/// The first type without enough sample cards.
pub open spec fn first_short(comp: Composition, reps: [Vec<CardRepresentative>; 5]) -> Option<int> {
    if !enough(comp, reps, 0) {
        Some(0)
    } else if !enough(comp, reps, 1) {
        Some(1)
    } else if !enough(comp, reps, 2) {
        Some(2)
    } else if !enough(comp, reps, 3) {
        Some(3)
    } else if !enough(comp, reps, 4) {
        Some(4)
    } else {
        None
    }
}

/// The first sample cards of the first `n` types, as many as the composition asks.
pub open spec fn rep_cards_upto(comp: Composition, reps: [Vec<CardRepresentative>; 5], n: int) -> Seq<u32>
    decreases n,
{
    if n <= 0 {
        Seq::empty()
    } else {
        rep_cards_upto(comp, reps, n - 1) + rep_ids(reps[n - 1]@).take(comp.counts[n - 1] as int)
    }
}

/// The benchmark deck of a composition, or why there is none.
pub open spec fn bench_deck_spec(comp: Composition, reps: [Vec<CardRepresentative>; 5], friend: u32) -> Result<
    Seq<u32>,
    BenchError,
> {
    match first_short(comp, reps) {
        Some(t) => Err(BenchError::NotEnoughRepresentatives { card_type: t as usize, count: comp.counts[t] }),
        None => {
            let d = rep_cards_upto(comp, reps, 5).push(friend);
            if d.len() == 6 {
                Ok(d)
            } else {
                Err(BenchError::DeckSize { len: d.len() as usize })
            }
        },
    }
}

proof fn lemma_first_short(comp: Composition, reps: [Vec<CardRepresentative>; 5], t: int)
    requires
        0 <= t < 5,
        forall|b: int| 0 <= b < t ==> enough(comp, reps, b),
        !enough(comp, reps, t),
    ensures
        first_short(comp, reps) == Some(t),
{
    if t > 0 {
        assert(enough(comp, reps, 0));
    }
    if t > 1 {
        assert(enough(comp, reps, 1));
    }
    if t > 2 {
        assert(enough(comp, reps, 2));
    }
    if t > 3 {
        assert(enough(comp, reps, 3));
    }
}

/// The deck of a composition: for each type in order, its first sample
/// cards as many as the composition asks, then the friend card. Refused
/// where a type has too few samples (the first such type is reported) or
/// the deck does not hold six cards.
pub fn build_deck(composition: Composition, representatives: &[Vec<CardRepresentative>; 5], friend: u32) -> (r:
    Result<[u32; 6], BenchError>)
    ensures
        match bench_deck_spec(composition, *representatives, friend) {
            Ok(d) => r matches Ok(arr) && arr@ == d,
            Err(e) => r == Err::<[u32; 6], BenchError>(e),
        },
{
    let mut deck: Vec<u32> = Vec::new();
    let mut t: usize = 0;
    while t < 5
        invariant
            t <= 5,
            forall|b: int| 0 <= b < t ==> enough(composition, *representatives, b),
            deck@ == rep_cards_upto(composition, *representatives, t as int),
        decreases 5 - t,
    {
        let count = composition.counts[t];
        let reps = &representatives[t];
        if reps.len() < count {
            proof {
                lemma_first_short(composition, *representatives, t as int);
            }
            return Err(BenchError::NotEnoughRepresentatives { card_type: t, count });
        }
        let ghost base = deck@;
        let mut j: usize = 0;
        while j < count
            invariant
                j <= count,
                count <= reps@.len(),
                deck@ == base + rep_ids(reps@).take(j as int),
            decreases count - j,
        {
            deck.push(reps[j].idrank);
            assert(rep_ids(reps@).take(j + 1) =~= rep_ids(reps@).take(j as int).push(reps@[j as int].idrank));
            j = j + 1;
        }
        t = t + 1;
    }
    assert(first_short(composition, *representatives) is None);
    deck.push(friend);
    if deck.len() != 6 {
        return Err(BenchError::DeckSize { len: deck.len() });
    }
    let arr = [deck[0], deck[1], deck[2], deck[3], deck[4], deck[5]];
    assert(arr@ =~= deck@);
    Ok(arr)
}

/// A concrete deck: five cards and the friend card, with its composition name.
#[derive(Debug, Clone)]
pub struct ConcreteDeck {
    pub composition: String,
    pub cards: [u32; 6],
}

/// A concrete deck as plain values.
pub ghost struct DeckModel {
    pub composition: Seq<char>,
    pub cards: Seq<u32>,
}

impl View for ConcreteDeck {
    type V = DeckModel;

    open spec fn view(&self) -> DeckModel {
        DeckModel { composition: self.composition@, cards: self.cards@ }
    }
}

/// Views of a list of decks.
pub open spec fn deck_views(v: Seq<ConcreteDeck>) -> Seq<DeckModel> {
    v.map_values(|d: ConcreteDeck| d@)
}

/// The deck of five cards and the friend card, named by its counts.
pub open spec fn deck_model(ids: Seq<u32>, counts: Seq<usize>, friend: u32) -> DeckModel {
    DeckModel { composition: composition_name_spec(counts), cards: ids.push(friend) }
}

/// Counts with `va` cards of type `a`, `vb` of `b`, `vc` of `c`, none of the others.
pub open spec fn counts3(a: usize, va: usize, b: usize, vb: usize, c: usize, vc: usize) -> Seq<usize> {
    Seq::new(5, |i: int| if i == a { va } else if i == b { vb } else if i == c { vc } else { 0 })
}

/// The card pools of the five types.
pub open spec fn pools_view(p: [Vec<u32>; 5]) -> Seq<Seq<u32>> {
    seq![p[0]@, p[1]@, p[2]@, p[3]@, p[4]@]
}

/// The `3-1-1` deck of a triple and two single cards.
pub open spec fn h311(tt: usize, o0: usize, o1: usize, friend: u32, tri: Seq<u32>, l: u32) -> spec_fn(u32) -> DeckModel {
    |r: u32| deck_model(tri + seq![l, r], counts3(tt, 3, o0, 1, o1, 1), friend)
}

/// The `3-1-1` decks of a triple and a first single card.
pub open spec fn g311(pools: Seq<Seq<u32>>, tt: usize, o0: usize, o1: usize, friend: u32, tri: Seq<u32>) -> spec_fn(
    u32,
) -> Seq<DeckModel> {
    |l: u32| pools[o1 as int].map_values(h311(tt, o0, o1, friend, tri, l))
}

/// The `3-1-1` decks of a triple.
pub open spec fn f311(pools: Seq<Seq<u32>>, tt: usize, o0: usize, o1: usize, friend: u32) -> spec_fn(Seq<u32>) -> Seq<
    DeckModel,
> {
    |tri: Seq<u32>| pools[o0 as int].flat_map(g311(pools, tt, o0, o1, friend, tri))
}

/// Every `3-1-1` deck with three cards of type `tt` (as combinations) and
/// one of `o0` and one of `o1`.
pub open spec fn decks_311(pools: Seq<Seq<u32>>, tt: usize, o0: usize, o1: usize, friend: u32) -> Seq<DeckModel> {
    combs(pools[tt as int], 3).flat_map(f311(pools, tt, o0, o1, friend))
}

/// The `2-2-1` deck of two pairs and a single card.
pub open spec fn h221(p0: usize, p1: usize, st: usize, friend: u32, lp: Seq<u32>, rp: Seq<u32>) -> spec_fn(u32) -> DeckModel {
    |x: u32| deck_model(lp + rp + seq![x], counts3(p0, 2, p1, 2, st, 1), friend)
}

/// The `2-2-1` decks of two pairs.
pub open spec fn g221(pools: Seq<Seq<u32>>, p0: usize, p1: usize, st: usize, friend: u32, lp: Seq<u32>) -> spec_fn(
    Seq<u32>,
) -> Seq<DeckModel> {
    |rp: Seq<u32>| pools[st as int].map_values(h221(p0, p1, st, friend, lp, rp))
}

/// The `2-2-1` decks of a first pair.
pub open spec fn f221(pools: Seq<Seq<u32>>, p0: usize, p1: usize, st: usize, friend: u32) -> spec_fn(Seq<u32>) -> Seq<
    DeckModel,
> {
    |lp: Seq<u32>| combs(pools[p1 as int], 2).flat_map(g221(pools, p0, p1, st, friend, lp))
}

/// Every `2-2-1` deck with two cards of `p0`, two of `p1` (as
/// combinations) and one of `st`.
pub open spec fn decks_221(pools: Seq<Seq<u32>>, p0: usize, p1: usize, st: usize, friend: u32) -> Seq<DeckModel> {
    combs(pools[p0 as int], 2).flat_map(f221(pools, p0, p1, st, friend))
}

/// The decks over the types `f < s < t`: the `3-1-1` decks with the triple
/// of each type in turn, then the `2-2-1` decks with the single of each type
/// in turn.
pub open spec fn decks_for_types(pools: Seq<Seq<u32>>, f: usize, s: usize, t: usize, friend: u32) -> Seq<DeckModel> {
    decks_311(pools, f, s, t, friend) + decks_311(pools, s, f, t, friend) + decks_311(pools, t, f, s, friend)
        + decks_221(pools, s, t, f, friend) + decks_221(pools, f, t, s, friend) + decks_221(pools, f, s, t, friend)
}

/// The ten sets of three types, in lexicographic order.
pub open spec fn type_triples() -> Seq<(usize, usize, usize)> {
    seq![
        (0usize, 1usize, 2usize),
        (0, 1, 3),
        (0, 1, 4),
        (0, 2, 3),
        (0, 2, 4),
        (0, 3, 4),
        (1, 2, 3),
        (1, 2, 4),
        (1, 3, 4),
        (2, 3, 4),
    ]
}

/// The decks over a set of three types.
pub open spec fn decks_of_triple(pools: Seq<Seq<u32>>, friend: u32) -> spec_fn((usize, usize, usize)) -> Seq<DeckModel> {
    |tr: (usize, usize, usize)| decks_for_types(pools, tr.0, tr.1, tr.2, friend)
}

/// Every concrete deck with exactly three card types, `3-1-1` or `2-2-1`.
pub open spec fn concrete_decks_spec(pools: Seq<Seq<u32>>, friend: u32) -> Seq<DeckModel> {
    type_triples().flat_map(decks_of_triple(pools, friend))
}

fn counts_array(a: usize, va: usize, b: usize, vb: usize, c: usize, vc: usize) -> (r: [usize; 5])
    ensures
        r@ == counts3(a, va, b, vb, c, vc),
{
    let r = [
        if a == 0 { va } else if b == 0 { vb } else if c == 0 { vc } else { 0 },
        if a == 1 { va } else if b == 1 { vb } else if c == 1 { vc } else { 0 },
        if a == 2 { va } else if b == 2 { vb } else if c == 2 { vc } else { 0 },
        if a == 3 { va } else if b == 3 { vb } else if c == 3 { vc } else { 0 },
        if a == 4 { va } else if b == 4 { vb } else if c == 4 { vc } else { 0 },
    ];
    assert(r@ =~= counts3(a, va, b, vb, c, vc));
    r
}

/// Appends the deck of five cards and the friend card, named by its counts.
pub fn push_deck(result: &mut Vec<ConcreteDeck>, ids: Vec<u32>, counts: [usize; 5], friend: u32)
    requires
        ids@.len() == 5,
    ensures
        deck_views(final(result)@) == deck_views(old(result)@).push(deck_model(ids@, counts@, friend)),
{
    let cards = [ids[0], ids[1], ids[2], ids[3], ids[4], friend];
    assert(cards@ =~= ids@.push(friend));
    let deck = ConcreteDeck { composition: composition_name(&counts), cards };
    let ghost dv = deck@;
    result.push(deck);
    assert(deck_views(result@) =~= deck_views(old(result)@).push(dv));
}

fn push_decks_311(pools: &[Vec<u32>; 5], tt: usize, o0: usize, o1: usize, friend: u32, out: &mut Vec<ConcreteDeck>)
    requires
        tt < 5,
        o0 < 5,
        o1 < 5,
    ensures
        deck_views(final(out)@) == deck_views(old(out)@) + decks_311(pools_view(*pools), tt, o0, o1, friend),
{
    let ghost pv = pools_view(*pools);
    let ghost f = f311(pv, tt, o0, o1, friend);
    let triples = combinations(pools[tt].as_slice(), 3);
    let ghost tris = vviews(triples@);
    assert(tris == combs(pv[tt as int], 3));
    let ghost start = deck_views(out@);
    let left_pool = &pools[o0];
    let right_pool = &pools[o1];
    assert(left_pool@ == pv[o0 as int] && right_pool@ == pv[o1 as int]);
    let mut i: usize = 0;
    while i < triples.len()
        invariant
            i <= triples@.len(),
            tris == vviews(triples@),
            tris == combs(pv[tt as int], 3),
            left_pool@ == pv[o0 as int],
            right_pool@ == pv[o1 as int],
            f == f311(pv, tt, o0, o1, friend),
            deck_views(out@) == start + tris.take(i as int).flat_map(f),
        decreases triples@.len() - i,
    {
        let tri = &triples[i];
        assert(tri@ == tris[i as int]);
        proof {
            lemma_combs_without_replacement(pv[tt as int], 3);
            assert(tris[i as int].len() == 3);
        }
        let ghost g = g311(pv, tt, o0, o1, friend, tri@);
        let ghost base_i = deck_views(out@);
        let mut j: usize = 0;
        while j < left_pool.len()
            invariant
                j <= left_pool@.len(),
                tri@.len() == 3,
                left_pool@ == pv[o0 as int],
                right_pool@ == pv[o1 as int],
                g == g311(pv, tt, o0, o1, friend, tri@),
                deck_views(out@) == base_i + left_pool@.take(j as int).flat_map(g),
            decreases left_pool@.len() - j,
        {
            let left = left_pool[j];
            let ghost h = h311(tt, o0, o1, friend, tri@, left);
            let ghost base_j = deck_views(out@);
            let mut k: usize = 0;
            while k < right_pool.len()
                invariant
                    k <= right_pool@.len(),
                    tri@.len() == 3,
                    right_pool@ == pv[o1 as int],
                    h == h311(tt, o0, o1, friend, tri@, left),
                    deck_views(out@) == base_j + right_pool@.take(k as int).map_values(h),
                decreases right_pool@.len() - k,
            {
                let right = right_pool[k];
                let mut ids: Vec<u32> = Vec::new();
                ids.push(tri[0]);
                ids.push(tri[1]);
                ids.push(tri[2]);
                ids.push(left);
                ids.push(right);
                assert(ids@ =~= tri@ + seq![left, right]);
                let counts = counts_array(tt, 3, o0, 1, o1, 1);
                push_deck(out, ids, counts, friend);
                assert(right_pool@.take(k + 1) =~= right_pool@.take(k as int).push(right));
                assert(right_pool@.take(k + 1).map_values(h) =~= right_pool@.take(k as int).map_values(h).push(h(right)));
                k = k + 1;
            }
            proof {
                assert(right_pool@.take(right_pool@.len() as int) =~= right_pool@);
                assert(left_pool@.take(j + 1) =~= left_pool@.take(j as int).push(left));
                left_pool@.take(j as int).lemma_flat_map_push(g, left);
            }
            j = j + 1;
        }
        proof {
            assert(left_pool@.take(left_pool@.len() as int) =~= left_pool@);
            assert(tris.take(i + 1) =~= tris.take(i as int).push(tri@));
            tris.take(i as int).lemma_flat_map_push(f, tri@);
        }
        i = i + 1;
    }
    assert(tris.take(tris.len() as int) =~= tris);
}

fn push_decks_221(pools: &[Vec<u32>; 5], p0: usize, p1: usize, st: usize, friend: u32, out: &mut Vec<ConcreteDeck>)
    requires
        p0 < 5,
        p1 < 5,
        st < 5,
    ensures
        deck_views(final(out)@) == deck_views(old(out)@) + decks_221(pools_view(*pools), p0, p1, st, friend),
{
    let ghost pv = pools_view(*pools);
    let ghost f = f221(pv, p0, p1, st, friend);
    let left_pairs = combinations(pools[p0].as_slice(), 2);
    let right_pairs = combinations(pools[p1].as_slice(), 2);
    let ghost lps = vviews(left_pairs@);
    let ghost rps = vviews(right_pairs@);
    assert(lps == combs(pv[p0 as int], 2));
    assert(rps == combs(pv[p1 as int], 2));
    proof {
        lemma_combs_without_replacement(pv[p0 as int], 2);
        lemma_combs_without_replacement(pv[p1 as int], 2);
    }
    let singles = &pools[st];
    assert(singles@ == pv[st as int]);
    let ghost start = deck_views(out@);
    let mut i: usize = 0;
    while i < left_pairs.len()
        invariant
            i <= left_pairs@.len(),
            lps == vviews(left_pairs@),
            rps == vviews(right_pairs@),
            lps == combs(pv[p0 as int], 2),
            rps == combs(pv[p1 as int], 2),
            forall|x: int| 0 <= x < lps.len() ==> (#[trigger] lps[x]).len() == 2,
            forall|x: int| 0 <= x < rps.len() ==> (#[trigger] rps[x]).len() == 2,
            singles@ == pv[st as int],
            f == f221(pv, p0, p1, st, friend),
            deck_views(out@) == start + lps.take(i as int).flat_map(f),
        decreases left_pairs@.len() - i,
    {
        let lp = &left_pairs[i];
        assert(lp@ == lps[i as int]);
        let ghost g = g221(pv, p0, p1, st, friend, lp@);
        let ghost base_i = deck_views(out@);
        let mut j: usize = 0;
        while j < right_pairs.len()
            invariant
                j <= right_pairs@.len(),
                lp@.len() == 2,
                rps == vviews(right_pairs@),
                forall|x: int| 0 <= x < rps.len() ==> (#[trigger] rps[x]).len() == 2,
                singles@ == pv[st as int],
                g == g221(pv, p0, p1, st, friend, lp@),
                deck_views(out@) == base_i + rps.take(j as int).flat_map(g),
            decreases right_pairs@.len() - j,
        {
            let rp = &right_pairs[j];
            assert(rp@ == rps[j as int]);
            let ghost h = h221(p0, p1, st, friend, lp@, rp@);
            let ghost base_j = deck_views(out@);
            let mut k: usize = 0;
            while k < singles.len()
                invariant
                    k <= singles@.len(),
                    lp@.len() == 2,
                    rp@.len() == 2,
                    h == h221(p0, p1, st, friend, lp@, rp@),
                    deck_views(out@) == base_j + singles@.take(k as int).map_values(h),
                decreases singles@.len() - k,
            {
                let single = singles[k];
                let mut ids: Vec<u32> = Vec::new();
                ids.push(lp[0]);
                ids.push(lp[1]);
                ids.push(rp[0]);
                ids.push(rp[1]);
                ids.push(single);
                assert(ids@ =~= lp@ + rp@ + seq![single]);
                let counts = counts_array(p0, 2, p1, 2, st, 1);
                push_deck(out, ids, counts, friend);
                assert(singles@.take(k + 1) =~= singles@.take(k as int).push(single));
                assert(singles@.take(k + 1).map_values(h) =~= singles@.take(k as int).map_values(h).push(h(single)));
                k = k + 1;
            }
            proof {
                assert(singles@.take(singles@.len() as int) =~= singles@);
                assert(rps.take(j + 1) =~= rps.take(j as int).push(rp@));
                rps.take(j as int).lemma_flat_map_push(g, rp@);
            }
            j = j + 1;
        }
        proof {
            assert(rps.take(rps.len() as int) =~= rps);
            assert(lps.take(i + 1) =~= lps.take(i as int).push(lp@));
            lps.take(i as int).lemma_flat_map_push(f, lp@);
        }
        i = i + 1;
    }
    assert(lps.take(lps.len() as int) =~= lps);
}

/// Every concrete deck over exactly three card types, `3-1-1` or `2-2-1`,
/// with the friend card last: for each set of three types in lexicographic
/// order, the `3-1-1` decks with the triple of each type in turn, then the
/// `2-2-1` decks with the single of each type in turn (see
/// [`concrete_decks_spec`]).
pub fn enumerate_concrete_decks(pools: &[Vec<u32>; 5], friend: u32) -> (r: Vec<ConcreteDeck>)
    ensures
        deck_views(r@) == concrete_decks_spec(pools_view(*pools), friend),
{
    let triples: [(usize, usize, usize); 10] = [
        (0, 1, 2),
        (0, 1, 3),
        (0, 1, 4),
        (0, 2, 3),
        (0, 2, 4),
        (0, 3, 4),
        (1, 2, 3),
        (1, 2, 4),
        (1, 3, 4),
        (2, 3, 4),
    ];
    assert(triples@ =~= type_triples());
    let ghost pv = pools_view(*pools);
    let ghost f = decks_of_triple(pv, friend);
    let mut result: Vec<ConcreteDeck> = Vec::new();
    let mut i: usize = 0;
    while i < 10
        invariant
            i <= 10,
            triples@ == type_triples(),
            pv == pools_view(*pools),
            f == decks_of_triple(pv, friend),
            deck_views(result@) == type_triples().take(i as int).flat_map(f),
        decreases 10 - i,
    {
        let (a, b, c) = triples[i];
        assert(a < 5 && b < 5 && c < 5);
        let ghost before = deck_views(result@);
        push_decks_311(pools, a, b, c, friend, &mut result);
        push_decks_311(pools, b, a, c, friend, &mut result);
        push_decks_311(pools, c, a, b, friend, &mut result);
        push_decks_221(pools, b, c, a, friend, &mut result);
        push_decks_221(pools, a, c, b, friend, &mut result);
        push_decks_221(pools, a, b, c, friend, &mut result);
        proof {
            assert(deck_views(result@) =~= before + decks_for_types(pv, a, b, c, friend));
            assert(type_triples().take(i + 1) =~= type_triples().take(i as int).push((a, b, c)));
            type_triples().take(i as int).lemma_flat_map_push(f, (a, b, c));
        }
        i = i + 1;
    }
    assert(type_triples().take(10) =~= type_triples());
    result
}

proof fn lemma_flat_map_len_on<A, B>(s: Seq<A>, f: spec_fn(A) -> Seq<B>, m: nat)
    requires
        forall|i: int| 0 <= i < s.len() ==> (#[trigger] f(s[i])).len() == m,
    ensures
        s.flat_map(f).len() == s.len() * m,
    decreases s.len(),
{
    if s.len() == 0 {
        assert(s.flat_map(f) =~= Seq::<B>::empty());
    } else {
        let init = s.drop_last();
        assert forall|i: int| 0 <= i < init.len() implies (#[trigger] f(init[i])).len() == m by {
            assert(init[i] == s[i]);
        }
        lemma_flat_map_len_on(init, f, m);
        assert(init.push(s.last()) =~= s);
        init.lemma_flat_map_push(f, s.last());
        assert(s.len() * m == init.len() * m + m) by (nonlinear_arith)
            requires
                s.len() == init.len() + 1,
        ;
    }
}

proof fn lemma_decks_311_len(pools: Seq<Seq<u32>>, tt: usize, o0: usize, o1: usize, friend: u32)
    ensures
        decks_311(pools, tt, o0, o1, friend).len() == binom(pools[tt as int].len(), 3) * (pools[o0 as int].len()
            * pools[o1 as int].len()),
{
    let n0 = pools[o0 as int].len();
    let n1 = pools[o1 as int].len();
    assert forall|tri: Seq<u32>| #[trigger] f311(pools, tt, o0, o1, friend)(tri).len() == n0 * n1 by {
        assert forall|l: u32| #[trigger] g311(pools, tt, o0, o1, friend, tri)(l).len() == n1 by {}
        lemma_flat_map_uniform_len(pools[o0 as int], g311(pools, tt, o0, o1, friend, tri), n1);
    }
    lemma_flat_map_uniform_len(combs(pools[tt as int], 3), f311(pools, tt, o0, o1, friend), n0 * n1);
    lemma_combs_len(pools[tt as int], 3);
}

proof fn lemma_decks_221_len(pools: Seq<Seq<u32>>, p0: usize, p1: usize, st: usize, friend: u32)
    ensures
        decks_221(pools, p0, p1, st, friend).len() == binom(pools[p0 as int].len(), 2) * (binom(
            pools[p1 as int].len(),
            2,
        ) * pools[st as int].len()),
{
    let b1 = binom(pools[p1 as int].len(), 2);
    let ns = pools[st as int].len();
    lemma_combs_len(pools[p1 as int], 2);
    lemma_combs_len(pools[p0 as int], 2);
    assert forall|lp: Seq<u32>| #[trigger] f221(pools, p0, p1, st, friend)(lp).len() == b1 * ns by {
        assert forall|rp: Seq<u32>| #[trigger] g221(pools, p0, p1, st, friend, lp)(rp).len() == ns by {}
        lemma_flat_map_uniform_len(combs(pools[p1 as int], 2), g221(pools, p0, p1, st, friend, lp), ns);
    }
    lemma_flat_map_uniform_len(combs(pools[p0 as int], 2), f221(pools, p0, p1, st, friend), b1 * ns);
}

/// With `m` cards of every type there are
/// `10 * (3 * binom(m, 3) * m * m + 3 * binom(m, 2) * binom(m, 2) * m)`
/// concrete decks (1080 for three cards per type).
pub proof fn lemma_concrete_decks_len(pools: Seq<Seq<u32>>, friend: u32, m: nat)
    requires
        pools.len() == 5,
        forall|t: int| 0 <= t < 5 ==> (#[trigger] pools[t]).len() == m,
    ensures
        concrete_decks_spec(pools, friend).len() == 10 * (3 * (binom(m, 3) * (m * m)) + 3 * (binom(m, 2) * (
        binom(m, 2) * m))),
{
    let l311 = binom(m, 3) * (m * m);
    let l221 = binom(m, 2) * (binom(m, 2) * m);
    let total = 3 * l311 + 3 * l221;
    let ts = type_triples();
    assert forall|i: int| 0 <= i < ts.len() implies #[trigger] decks_of_triple(pools, friend)(ts[i]).len() == total by {
        let (a, b, c) = ts[i];
        assert(a < 5 && b < 5 && c < 5);
        lemma_decks_311_len(pools, a, b, c, friend);
        lemma_decks_311_len(pools, b, a, c, friend);
        lemma_decks_311_len(pools, c, a, b, friend);
        lemma_decks_221_len(pools, b, c, a, friend);
        lemma_decks_221_len(pools, a, c, b, friend);
        lemma_decks_221_len(pools, a, b, c, friend);
    }
    lemma_flat_map_len_on(ts, decks_of_triple(pools, friend), total);
    assert(10 * total == 10 * (3 * l311 + 3 * l221));
}

/// Index into the score table of a status value: negative values read as 0,
/// values past the table as its last entry.
pub open spec fn score_index(v: i32, len: int) -> int {
    let z = if v < 0 { 0 } else { v as int };
    if z < len - 1 { z } else { len - 1 }
}

/// Score of the first `n` status values by the per-point score table.
pub open spec fn score_prefix(status: Seq<i32>, table: Seq<i32>, n: int) -> int
    decreases n,
{
    if n <= 0 {
        0
    } else {
        score_prefix(status, table, n - 1) + table[score_index(status[n - 1], table.len() as int)]
    }
}

/// Final score of the five status values (the sum of their table entries,
/// where each partial sum fits in `i32`).
pub fn status_score(status: &[i32; 5], table: &[i32]) -> (r: i32)
    requires
        table@.len() >= 1,
        forall|n: int| 0 <= n <= 5 ==> i32::MIN <= #[trigger] score_prefix(status@, table@, n) <= i32::MAX,
    ensures
        r == score_prefix(status@, table@, 5),
{
    let last = table.len() - 1;
    let mut sum: i32 = 0;
    let mut i: usize = 0;
    while i < 5
        invariant
            i <= 5,
            last == table@.len() - 1,
            forall|n: int| 0 <= n <= 5 ==> i32::MIN <= #[trigger] score_prefix(status@, table@, n) <= i32::MAX,
            sum == score_prefix(status@, table@, i as int),
        decreases 5 - i,
    {
        let v = status[i];
        let z: usize = if v < 0 { 0 } else { v as usize };
        let idx = if z < last { z } else { last };
        assert(idx == score_index(status@[i as int], table@.len() as int));
        assert(score_prefix(status@, table@, i + 1) == sum + table@[idx as int]);
        sum = sum + table[idx];
        i = i + 1;
    }
    sum
}

/// A support card of the card database as the representative choice reads it.
#[derive(Debug, Clone)]
pub struct CardRecord {
    pub card_id: u32,
    /// 3 for SSR.
    pub rarity: i32,
    /// 0-4 for the five training types.
    pub card_type: i32,
    pub card_name: String,
    /// Number of limit-break value panels of the card.
    pub value_count: usize,
}

/// An SSR of type `t` with its fully limit-broken panel.
pub open spec fn qualifies(c: CardRecord, t: int) -> bool {
    c.rarity == 3 && c.card_type == t && c.value_count >= 5
}

/// The sample card of a database card.
pub open spec fn rep_of(c: CardRecord) -> CardRepresentative {
    CardRepresentative { idrank: (c.card_id * 10 + 4) as u32, name: c.card_name }
}

/// Whether a database card is a sample candidate of type `t`.
pub open spec fn qualifies_fn(t: int) -> spec_fn(CardRecord) -> bool {
    |c: CardRecord| qualifies(c, t)
}

/// The sample card of each database card.
pub open spec fn rep_fn() -> spec_fn(CardRecord) -> CardRepresentative {
    |c: CardRecord| rep_of(c)
}

/// The sample cards of type `t`, in database order.
pub open spec fn candidates(cards: Seq<CardRecord>, t: int) -> Seq<CardRepresentative> {
    cards.filter(qualifies_fn(t)).map_values(rep_fn())
}

/// Whether a sample card has this `idrank`.
pub open spec fn idrank_is(id: u32) -> spec_fn(CardRepresentative) -> bool {
    |c: CardRepresentative| c.idrank == id
}

/// Ordered by `idrank`, largest first.
pub open spec fn reps_sorted_desc(s: Seq<CardRepresentative>) -> bool {
    forall|i: int, j: int| 0 <= i < j < s.len() ==> s[i].idrank >= s[j].idrank
}

/// `out` is `input` ordered by `idrank`, largest first, equal ones in input order.
pub open spec fn reps_stable_sorted(input: Seq<CardRepresentative>, out: Seq<CardRepresentative>) -> bool {
    &&& reps_sorted_desc(out)
    &&& forall|id: u32| #[trigger] out.filter(idrank_is(id)) == input.filter(idrank_is(id))
}

proof fn lemma_reps_filter_none(b: Seq<CardRepresentative>, p: spec_fn(CardRepresentative) -> bool)
    requires
        forall|k: int| 0 <= k < b.len() ==> !(#[trigger] p(b[k])),
    ensures
        b.filter(p) == Seq::<CardRepresentative>::empty(),
    decreases b.len(),
{
    if b.len() > 0 {
        let c = b.drop_last();
        assert(b =~= c.push(b.last()));
        assert forall|k: int| 0 <= k < c.len() implies !(#[trigger] p(c[k])) by {
            assert(c[k] == b[k]);
        }
        lemma_reps_filter_none(c, p);
        c.lemma_filter_push(b.last(), p);
    } else {
        reveal(Seq::filter);
    }
}

proof fn lemma_reps_insert(out: Seq<CardRepresentative>, p: int, x: CardRepresentative, id: u32)
    requires
        0 <= p <= out.len(),
        forall|k: int| p <= k < out.len() ==> out[k].idrank < x.idrank,
    ensures
        out.insert(p, x).filter(idrank_is(id)) == if x.idrank == id {
            out.filter(idrank_is(id)).push(x)
        } else {
            out.filter(idrank_is(id))
        },
{
    broadcast use vstd::seq_lib::group_seq_properties;
    let a = out.take(p);
    let b = out.skip(p);
    assert(out =~= a + b);
    assert(out.insert(p, x) =~= (a + seq![x]) + b);
    assert(a.push(x) =~= a + seq![x]);
    Seq::filter_distributes_over_add(a + seq![x], b, idrank_is(id));
    Seq::filter_distributes_over_add(a, b, idrank_is(id));
    a.lemma_filter_push(x, idrank_is(id));
    if x.idrank == id {
        assert forall|k: int| 0 <= k < b.len() implies !(#[trigger] idrank_is(id)(b[k])) by {
            assert(b[k] == out[p + k]);
        }
        lemma_reps_filter_none(b, idrank_is(id));
    }
}

fn sort_reps(input: Vec<CardRepresentative>) -> (out: Vec<CardRepresentative>)
    ensures
        reps_stable_sorted(input@, out@),
        out@.len() == input@.len(),
{
    let ghost orig = input@;
    let mut out: Vec<CardRepresentative> = Vec::new();
    let rest = input;
    let n = rest.len();
    let mut i: usize = 0;
    while i < n
        invariant
            n == orig.len(),
            i <= n,
            rest@ == orig,
            out@.len() == i,
            reps_sorted_desc(out@),
            forall|id: u32| #[trigger] out@.filter(idrank_is(id)) == orig.take(i as int).filter(idrank_is(id)),
        decreases n - i,
    {
        let x = CardRepresentative { idrank: rest[i].idrank, name: rest[i].name.clone() };
        assert(x == orig[i as int]);
        let mut p: usize = 0;
        while p < out.len() && out[p].idrank >= x.idrank
            invariant
                p <= out@.len(),
                forall|k: int| 0 <= k < p ==> out@[k].idrank >= x.idrank,
            decreases out@.len() - p,
        {
            p = p + 1;
        }
        let ghost before = out@;
        proof {
            assert forall|k: int| p <= k < before.len() implies before[k].idrank < x.idrank by {
                if k > p {
                    assert(before[p as int].idrank >= before[k].idrank);
                }
            }
        }
        out.insert(p, x);
        proof {
            assert forall|a: int, b: int| 0 <= a < b < out@.len() implies out@[a].idrank >= out@[b].idrank by {
                if a < p && b < p {
                } else if a < p && b == p {
                } else if a < p && b > p {
                    assert(out@[b] == before[b - 1]);
                } else if a == p {
                    assert(out@[b] == before[b - 1]);
                } else {
                    assert(out@[a] == before[a - 1]);
                    assert(out@[b] == before[b - 1]);
                }
            }
            assert(orig.take(i + 1) =~= orig.take(i as int).push(x));
            assert forall|id: u32| #[trigger] out@.filter(idrank_is(id)) == orig.take(i + 1).filter(idrank_is(id)) by {
                lemma_reps_insert(before, p as int, x, id);
                orig.take(i as int).lemma_filter_push(x, idrank_is(id));
            }
        }
        i = i + 1;
    }
    assert(orig.take(n as int) =~= orig);
    out
}

/// The first type with fewer than three sample cards.
pub open spec fn first_scarce(cards: Seq<CardRecord>) -> Option<int> {
    if candidates(cards, 0).len() < 3 {
        Some(0)
    } else if candidates(cards, 1).len() < 3 {
        Some(1)
    } else if candidates(cards, 2).len() < 3 {
        Some(2)
    } else if candidates(cards, 3).len() < 3 {
        Some(3)
    } else if candidates(cards, 4).len() < 3 {
        Some(4)
    } else {
        None
    }
}

/// Why representatives cannot be chosen.
#[derive(Debug, Clone, Copy, PartialEq, Eq, Structural)]
pub enum RepresentativeError {
    /// A type has fewer than three fully limit-broken SSRs.
    TooFew { card_type: usize },
}

fn candidates_of(cards: &[CardRecord], t: i32) -> (r: Vec<CardRepresentative>)
    requires
        0 <= t < 5,
        forall|i: int| 0 <= i < cards@.len() ==> (#[trigger] cards@[i]).card_id <= 429496728,
    ensures
        r@ == candidates(cards@, t as int),
{
    let ghost q = qualifies_fn(t as int);
    let ghost f = rep_fn();
    let mut r: Vec<CardRepresentative> = Vec::new();
    let mut i: usize = 0;
    while i < cards.len()
        invariant
            i <= cards@.len(),
            0 <= t < 5,
            forall|k: int| 0 <= k < cards@.len() ==> (#[trigger] cards@[k]).card_id <= 429496728,
            q == qualifies_fn(t as int),
            f == rep_fn(),
            r@ == cards@.take(i as int).filter(q).map_values(f),
        decreases cards@.len() - i,
    {
        let c = &cards[i];
        proof {
            assert(cards@.take(i + 1) =~= cards@.take(i as int).push(*c));
            cards@.take(i as int).lemma_filter_push(*c, q);
        }
        if c.rarity == 3 && c.card_type == t && c.value_count >= 5 {
            let rep = CardRepresentative { idrank: c.card_id * 10 + 4, name: c.card_name.clone() };
            assert(rep == rep_of(*c));
            let ghost prev = r@;
            r.push(rep);
            assert(cards@.take(i as int).filter(q).push(*c).map_values(f) =~= prev.push(rep));
        }
        i = i + 1;
    }
    assert(cards@.take(cards@.len() as int) =~= cards@);
    r
}

/// Three deterministic sample cards per type: the fully limit-broken SSRs of
/// the type (rarity 3, five value panels) with the largest `idrank`s, largest
/// first (equal ones in database order); refused for the first type with
/// fewer than three.
pub fn select_representatives(cards: &[CardRecord]) -> (r: Result<[Vec<CardRepresentative>; 5], RepresentativeError>)
    requires
        forall|i: int| 0 <= i < cards@.len() ==> (#[trigger] cards@[i]).card_id <= 429496728,
    ensures
        match first_scarce(cards@) {
            Some(t) => r == Err::<[Vec<CardRepresentative>; 5], RepresentativeError>(
                RepresentativeError::TooFew { card_type: t as usize },
            ),
            None => r matches Ok(p) && forall|t: int|
                0 <= t < 5 ==> exists|s: Seq<CardRepresentative>|
                    reps_stable_sorted(candidates(cards@, t), s) && #[trigger] p[t]@ == s.take(3),
        },
{
    let c0 = candidates_of(cards, 0);
    let c1 = candidates_of(cards, 1);
    let c2 = candidates_of(cards, 2);
    let c3 = candidates_of(cards, 3);
    let c4 = candidates_of(cards, 4);
    let ghost g0 = c0@;
    let ghost g1 = c1@;
    let ghost g2 = c2@;
    let ghost g3 = c3@;
    let ghost g4 = c4@;
    let mut s0 = sort_reps(c0);
    if s0.len() < 3 {
        return Err(RepresentativeError::TooFew { card_type: 0 });
    }
    let mut s1 = sort_reps(c1);
    if s1.len() < 3 {
        return Err(RepresentativeError::TooFew { card_type: 1 });
    }
    let mut s2 = sort_reps(c2);
    if s2.len() < 3 {
        return Err(RepresentativeError::TooFew { card_type: 2 });
    }
    let mut s3 = sort_reps(c3);
    if s3.len() < 3 {
        return Err(RepresentativeError::TooFew { card_type: 3 });
    }
    let mut s4 = sort_reps(c4);
    if s4.len() < 3 {
        return Err(RepresentativeError::TooFew { card_type: 4 });
    }
    let ghost f0 = s0@;
    let ghost f1 = s1@;
    let ghost f2 = s2@;
    let ghost f3 = s3@;
    let ghost f4 = s4@;
    s0.truncate(3);
    s1.truncate(3);
    s2.truncate(3);
    s3.truncate(3);
    s4.truncate(3);
    let p = [s0, s1, s2, s3, s4];
    proof {
        assert(reps_stable_sorted(g0, f0) && p[0]@ == f0.take(3));
        assert(reps_stable_sorted(g1, f1) && p[1]@ == f1.take(3));
        assert(reps_stable_sorted(g2, f2) && p[2]@ == f2.take(3));
        assert(reps_stable_sorted(g3, f3) && p[3]@ == f3.take(3));
        assert(reps_stable_sorted(g4, f4) && p[4]@ == f4.take(3));
        assert forall|t: int| 0 <= t < 5 implies exists|s: Seq<CardRepresentative>|
            reps_stable_sorted(candidates(cards@, t), s) && #[trigger] p[t]@ == s.take(3) by {
            if t == 0 {
                assert(reps_stable_sorted(candidates(cards@, t), f0) && p[t]@ == f0.take(3));
            } else if t == 1 {
                assert(reps_stable_sorted(candidates(cards@, t), f1) && p[t]@ == f1.take(3));
            } else if t == 2 {
                assert(reps_stable_sorted(candidates(cards@, t), f2) && p[t]@ == f2.take(3));
            } else if t == 3 {
                assert(reps_stable_sorted(candidates(cards@, t), f3) && p[t]@ == f3.take(3));
            } else {
                assert(reps_stable_sorted(candidates(cards@, t), f4) && p[t]@ == f4.take(3));
            }
        }
    }
    Ok(p)
}

} // verus!
