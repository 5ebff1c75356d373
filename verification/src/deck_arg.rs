//! The `--deck` override of the benchmark tools: five support card
//! `idrank`s, optionally followed by the friend card, separated by commas.

use vstd::prelude::*;

use crate::text::{chars_of, parse_unsigned, parse_unsigned_chars};

verus! {

/// White space as Unicode's `White_Space` property (and so
/// `char::is_whitespace`) defines it.
pub open spec fn is_ws(c: char) -> bool {
    let u = c as u32;
    ||| 0x09 <= u <= 0x0D
    ||| u == 0x20
    ||| u == 0x85
    ||| u == 0xA0
    ||| u == 0x1680
    ||| 0x2000 <= u <= 0x200A
    ||| u == 0x2028
    ||| u == 0x2029
    ||| u == 0x202F
    ||| u == 0x205F
    ||| u == 0x3000
}

/// The text without leading white space.
pub open spec fn trim_start(s: Seq<char>) -> Seq<char>
    decreases s.len(),
{
    if s.len() > 0 && is_ws(s[0]) {
        trim_start(s.drop_first())
    } else {
        s
    }
}

/// The text without trailing white space.
pub open spec fn trim_end(s: Seq<char>) -> Seq<char>
    decreases s.len(),
{
    if s.len() > 0 && is_ws(s.last()) {
        trim_end(s.drop_last())
    } else {
        s
    }
}

/// The text without leading and trailing white space.
pub open spec fn trim(s: Seq<char>) -> Seq<char> {
    trim_end(trim_start(s))
}

/// The pieces of a text between commas (one more than there are commas).
pub open spec fn split_commas(s: Seq<char>) -> Seq<Seq<char>>
    decreases s.len(),
{
    if s.len() == 0 {
        seq![Seq::<char>::empty()]
    } else {
        let prev = split_commas(s.drop_last());
        if s.last() == ',' {
            prev.push(Seq::empty())
        } else {
            prev.update(prev.len() - 1, prev.last().push(s.last()))
        }
    }
}

/// Whether a piece is not empty.
pub open spec fn nonempty() -> spec_fn(Seq<char>) -> bool {
    |t: Seq<char>| t.len() > 0
}

/// The trimmed, non-empty pieces of a deck argument.
pub open spec fn deck_tokens(s: Seq<char>) -> Seq<Seq<char>> {
    split_commas(s).map_values(|p: Seq<char>| trim(p)).filter(nonempty())
}

/// Why a deck argument is refused.
#[derive(Debug, Clone, Copy, PartialEq, Eq, Structural)]
pub enum DeckArgError {
    /// It must name five cards, or six with the friend card.
    WrongCount { count: usize },
    /// A piece is not an unsigned 32-bit number.
    BadNumber,
}

/// The deck a `--deck` argument names: five `idrank`s and the friend card,
/// which is `friend` unless a sixth number is given.
pub open spec fn deck_arg_spec(s: Seq<char>, friend: u32) -> Result<Seq<u32>, DeckArgError> {
    let toks = deck_tokens(s);
    if !(toks.len() == 5 || toks.len() == 6) {
        Err(DeckArgError::WrongCount { count: toks.len() as usize })
    } else if exists|i: int| 0 <= i < toks.len() && parse_unsigned(toks[i], u32::MAX as nat) is None {
        Err(DeckArgError::BadNumber)
    } else {
        let v = toks.map_values(|t: Seq<char>| parse_unsigned(t, u32::MAX as nat)->0 as u32);
        Ok(v.take(5).push(if toks.len() == 6 { v[5] } else { friend }))
    }
}

fn is_ws_char(c: char) -> (b: bool)
    ensures
        b == is_ws(c),
{
    let u = c as u32;
    (0x09 <= u && u <= 0x0D) || u == 0x20 || u == 0x85 || u == 0xA0 || u == 0x1680 || (0x2000 <= u && u <= 0x200A)
        || u == 0x2028 || u == 0x2029 || u == 0x202F || u == 0x205F || u == 0x3000
}

fn trim_piece(v: &Vec<char>) -> (r: Vec<char>)
    ensures
        r@ == trim(v@),
{
    let n = v.len();
    let mut a: usize = 0;
    assert(v@.skip(0) =~= v@);
    while a < n && is_ws_char(v[a])
        invariant
            a <= n,
            n == v@.len(),
            trim_start(v@) == trim_start(v@.skip(a as int)),
        decreases n - a,
    {
        proof {
            let t = v@.skip(a as int);
            assert(t[0] == v@[a as int]);
            assert(t.drop_first() =~= v@.skip(a + 1));
        }
        a = a + 1;
    }
    assert(trim_start(v@.skip(a as int)) == v@.skip(a as int));
    let ghost st = v@.skip(a as int);
    let mut b: usize = n;
    while b > a && is_ws_char(v[b - 1])
        invariant
            a <= b <= n,
            n == v@.len(),
            st == v@.skip(a as int),
            trim_end(st) == trim_end(v@.subrange(a as int, b as int)),
        decreases b - a,
    {
        proof {
            let t = v@.subrange(a as int, b as int);
            assert(t.last() == v@[b - 1]);
            assert(t.drop_last() =~= v@.subrange(a as int, b - 1));
        }
        b = b - 1;
    }
    proof {
        assert(st =~= v@.subrange(a as int, n as int)) by {
            assert(v@.skip(a as int) =~= v@.subrange(a as int, n as int));
        }
        let t = v@.subrange(a as int, b as int);
        assert(trim_end(t) == t);
    }
    let mut r: Vec<char> = Vec::new();
    let mut k: usize = a;
    while k < b
        invariant
            a <= k <= b,
            b <= n,
            n == v@.len(),
            r@ == v@.subrange(a as int, k as int),
        decreases b - k,
    {
        r.push(v[k]);
        assert(v@.subrange(a as int, k + 1) =~= v@.subrange(a as int, k as int).push(v@[k as int]));
        k = k + 1;
    }
    r
}

fn tokens_of(s: &str) -> (toks: Vec<Vec<char>>)
    ensures
        toks@.map_values(|t: Vec<char>| t@) == deck_tokens(s@),
{
    let cs = chars_of(s);
    let ghost tr = |p: Seq<char>| trim(p);
    let mut toks: Vec<Vec<char>> = Vec::new();
    let mut cur: Vec<char> = Vec::new();
    let ghost mut done: Seq<Seq<char>> = Seq::empty();
    let mut i: usize = 0;
    while i < cs.len()
        invariant
            i <= cs@.len(),
            cs@ == s@,
            tr == (|p: Seq<char>| trim(p)),
            split_commas(cs@.take(i as int)) == done.push(cur@),
            toks@.map_values(|t: Vec<char>| t@) == done.map_values(tr).filter(nonempty()),
        decreases cs@.len() - i,
    {
        let c = cs[i];
        proof {
            assert(cs@.take(i + 1).drop_last() =~= cs@.take(i as int));
            assert(cs@.take(i + 1).last() == c);
        }
        if c == ',' {
            let piece = trim_piece(&cur);
            let ghost before = toks@.map_values(|t: Vec<char>| t@);
            proof {
                assert(done.push(cur@).map_values(tr) =~= done.map_values(tr).push(trim(cur@)));
                done.map_values(tr).lemma_filter_push(trim(cur@), nonempty());
            }
            if piece.len() > 0 {
                toks.push(piece);
                assert(toks@.map_values(|t: Vec<char>| t@) =~= before.push(trim(cur@)));
            }
            proof {
                done = done.push(cur@);
            }
            cur = Vec::new();
            assert(split_commas(cs@.take(i + 1)) =~= done.push(cur@));
        } else {
            let ghost old_cur = cur@;
            cur.push(c);
            assert(split_commas(cs@.take(i + 1)) =~= done.push(cur@)) by {
                let prev = split_commas(cs@.take(i as int));
                assert(prev.update(prev.len() - 1, prev.last().push(c)) =~= done.push(old_cur.push(c)));
            }
        }
        i = i + 1;
    }
    let piece = trim_piece(&cur);
    let ghost before = toks@.map_values(|t: Vec<char>| t@);
    proof {
        assert(cs@.take(cs@.len() as int) =~= cs@);
        assert(done.push(cur@).map_values(tr) =~= done.map_values(tr).push(trim(cur@)));
        done.map_values(tr).lemma_filter_push(trim(cur@), nonempty());
    }
    if piece.len() > 0 {
        toks.push(piece);
        assert(toks@.map_values(|t: Vec<char>| t@) =~= before.push(trim(cur@)));
    }
    toks
}

/// Reads a `--deck` argument (see [`deck_arg_spec`]).
pub fn parse_deck_override(s: &str, friend: u32) -> (r: Result<[u32; 6], DeckArgError>)
    ensures
        match deck_arg_spec(s@, friend) {
            Ok(d) => r matches Ok(arr) && arr@ == d,
            Err(e) => r == Err::<[u32; 6], DeckArgError>(e),
        },
{
    let toks = tokens_of(s);
    let ghost tv = toks@.map_values(|t: Vec<char>| t@);
    let n = toks.len();
    if !(n == 5 || n == 6) {
        return Err(DeckArgError::WrongCount { count: n });
    }
    let mut v: Vec<u32> = Vec::new();
    let mut i: usize = 0;
    while i < n
        invariant
            i <= n,
            n == toks@.len(),
            tv == toks@.map_values(|t: Vec<char>| t@),
            tv == deck_tokens(s@),
            n == 5 || n == 6,
            forall|j: int| 0 <= j < i ==> parse_unsigned(tv[j], u32::MAX as nat) is Some,
            v@ == tv.take(i as int).map_values(|t: Seq<char>| parse_unsigned(t, u32::MAX as nat)->0 as u32),
        decreases n - i,
    {
        assert(toks@[i as int]@ == tv[i as int]);
        match parse_unsigned_chars(toks[i].as_slice(), u32::MAX as u64) {
            Some(x) => {
                v.push(x as u32);
                assert(tv.take(i + 1).map_values(|t: Seq<char>| parse_unsigned(t, u32::MAX as nat)->0 as u32) =~= tv.take(
                    i as int,
                ).map_values(|t: Seq<char>| parse_unsigned(t, u32::MAX as nat)->0 as u32).push(x as u32));
            },
            None => {
                proof {
                    assert(parse_unsigned(tv[i as int], u32::MAX as nat) is None);
                    assert(tv == deck_tokens(s@));
                    assert(exists|j: int| 0 <= j < tv.len() && parse_unsigned(tv[j], u32::MAX as nat) is None);
                }
                return Err(DeckArgError::BadNumber);
            },
        }
        i = i + 1;
    }
    assert(tv.take(n as int) =~= tv);
    let last = if n == 6 { v[5] } else { friend };
    let arr = [v[0], v[1], v[2], v[3], v[4], last];
    proof {
        let full = tv.map_values(|t: Seq<char>| parse_unsigned(t, u32::MAX as nat)->0 as u32);
        assert(arr@ =~= full.take(5).push(last));
    }
    Ok(arr)
}

} // verus!
