//! The one-line summary of the Ramen Cup state shown before a training is
//! chosen: the bowl eaten and its effect, the regions, the feelings, the
//! hidden flavour and the scenario points with their bonus tier.
//!
//! The effect numbers come from the scenario's effect tables and are given
//! as plain values; the text is returned in segments so that the caller can
//! highlight the feeling and hidden-flavour segments.

use vstd::prelude::*;

use super::flow::is_super_ramen_turn;
use crate::text::{chars_of, dec_int, push_dec, string_from_chars};

verus! {

/// Effect numbers of a bowl, the super ramen or a scenario point tier
/// (the failure rate drop already as a whole number).
#[derive(Debug, Clone, Copy, PartialEq, Eq)]
pub struct RamenEffectNumbers {
    pub xunlian: i32,
    pub youqing: i32,
    pub deyilv: i32,
    pub fail_rate_drop: i32,
    pub friendship: i32,
    pub status_limit: i32,
    pub pt_bonus: i32,
    pub hint: i32,
    pub clone_count: i32,
}

/// What the summary reads.
#[derive(Debug, Clone)]
pub struct RamenInfoView {
    /// Current turn.
    pub turn: i32,
    /// Region name of the bowl eaten this turn, if any.
    pub current_name: Option<String>,
    /// Effect of that bowl on its first training.
    pub current_effect: RamenEffectNumbers,
    /// Effect of the super ramen.
    pub super_effect: RamenEffectNumbers,
    /// Names of the selected regions.
    pub region_names: Vec<String>,
    /// Base feeling gauges of the selected regions.
    pub gauge_base: Vec<i32>,
    /// Feeling stock (A/B/C).
    pub feeling_stock: [i32; 3],
    /// Feeling gauge (A/B/C).
    pub feeling_slot: [i32; 3],
    /// Hidden flavour stock.
    pub special_feeling: i32,
    /// Scenario points.
    pub scenario_pt: i32,
    /// Bonus of the scenario point tier.
    pub pt_effect: RamenEffectNumbers,
}

/// Parts joined by a separator.
pub open spec fn join_with(parts: Seq<Seq<char>>, sep: Seq<char>) -> Seq<char>
    decreases parts.len(),
{
    if parts.len() == 0 {
        Seq::empty()
    } else if parts.len() == 1 {
        parts[0]
    } else {
        join_with(parts.drop_last(), sep) + sep + parts.last()
    }
}

/// A labelled number, where the number is not zero.
pub open spec fn opt_part(v: i32, label: Seq<char>) -> Seq<Seq<char>> {
    if v != 0 {
        seq![label + dec_int(v as int)]
    } else {
        Seq::empty()
    }
}

/// The effect parts shown for a bowl.
pub open spec fn bowl_parts(e: RamenEffectNumbers) -> Seq<Seq<char>> {
    opt_part(e.xunlian, "训+"@) + opt_part(e.fail_rate_drop, "失败率-"@) + opt_part(e.friendship, "羁绊+"@)
        + opt_part(e.status_limit, "上限+"@) + opt_part(e.pt_bonus, "PT+"@)
}

/// The effect parts shown for the super ramen.
pub open spec fn super_parts(e: RamenEffectNumbers) -> Seq<Seq<char>> {
    opt_part(e.xunlian, "训+"@) + opt_part(e.youqing, "友情+"@) + opt_part(e.deyilv, "得意+"@) + opt_part(
        e.fail_rate_drop,
        "失败率-"@,
    ) + opt_part(e.friendship, "羁绊+"@) + opt_part(e.status_limit, "上限+"@) + opt_part(e.pt_bonus, "PT+"@)
        + opt_part(e.hint, "hint+"@) + opt_part(e.clone_count, "分身+"@)
}

/// The bonus parts shown for a scenario point tier.
pub open spec fn pt_parts(e: RamenEffectNumbers) -> Seq<Seq<char>> {
    opt_part(e.xunlian, "训+"@) + opt_part(e.deyilv, "得意+"@) + opt_part(e.hint, "hint+"@)
}

/// The bowl eaten: `无` for none, else its region name with its effect parts
/// in brackets (the name alone without parts).
pub open spec fn bowl_text(name: Option<Seq<char>>, e: RamenEffectNumbers) -> Seq<char> {
    match name {
        None => "无"@,
        Some(n) => if bowl_parts(e).len() == 0 {
            n
        } else {
            n + "("@ + join_with(bowl_parts(e), ","@) + ")"@
        },
    }
}

/// The summary of a super ramen turn.
pub open spec fn super_text(e: RamenEffectNumbers) -> Seq<char> {
    "超级拉面回合"@ + if super_parts(e).len() == 0 {
        Seq::<char>::empty()
    } else {
        " ["@ + join_with(super_parts(e), ","@) + "]"@
    }
}

/// Views of the strings.
pub open spec fn str_views(v: Seq<String>) -> Seq<Seq<char>> {
    v.map_values(|s: String| s@)
}

/// Decimal texts of the numbers.
pub open spec fn int_texts(v: Seq<i32>) -> Seq<Seq<char>> {
    v.map_values(|n: i32| dec_int(n as int))
}

/// The text before the feelings: bowl, regions and base gauges.
pub open spec fn head_text(v: RamenInfoView) -> Seq<char> {
    "拉面: "@ + bowl_text(
        match v.current_name {
            Some(n) => Some(n@),
            None => None,
        },
        v.current_effect,
    ) + " | 地区: "@ + join_with(str_views(v.region_names@), ","@) + " 槽["@ + join_with(
        int_texts(v.gauge_base@),
        ", "@,
    ) + "] | 诀窍 "@
}

/// The feelings: stock and gauge of A, B and C.
pub open spec fn feeling_text(stock: [i32; 3], slot: [i32; 3]) -> Seq<char> {
    "A"@ + dec_int(stock[0] as int) + "/"@ + dec_int(slot[0] as int) + " B"@ + dec_int(stock[1] as int) + "/"@
        + dec_int(slot[1] as int) + " C"@ + dec_int(stock[2] as int) + "/"@ + dec_int(slot[2] as int)
}

/// The text after the hidden flavour: points and the tier's bonus.
pub open spec fn tail_text(pt: i32, e: RamenEffectNumbers) -> Seq<char> {
    " | PT"@ + dec_int(pt as int) + " ["@ + if pt_parts(e).len() == 0 {
        "无加成"@
    } else {
        join_with(pt_parts(e), ","@)
    } + "]"@
}

/// The segments of the summary: none before turn 2; one on a super ramen
/// turn (72-77); otherwise the head, the feelings, the hidden flavour label, the
/// hidden flavour and the tail (feelings and hidden flavour are the ones to
/// highlight).
pub open spec fn info_segments(v: RamenInfoView) -> Seq<Seq<char>> {
    if v.turn < 2 {
        Seq::empty()
    } else if is_super_ramen_turn(v.turn) {
        seq![super_text(v.super_effect)]
    } else {
        seq![
            head_text(v),
            feeling_text(v.feeling_stock, v.feeling_slot),
            " | 隐藏诀窍 "@,
            dec_int(v.special_feeling as int),
            tail_text(v.scenario_pt, v.pt_effect),
        ]
    }
}

/// Appends the characters of `s`.
fn push_chars(out: &mut Vec<char>, s: &[char])
    ensures
        final(out)@ == old(out)@ + s@,
{
    let ghost base = out@;
    let mut k: usize = 0;
    while k < s.len()
        invariant
            k <= s@.len(),
            out@ == base + s@.take(k as int),
        decreases s@.len() - k,
    {
        out.push(s[k]);
        assert(s@.take(k + 1) =~= s@.take(k as int).push(s@[k as int]));
        k = k + 1;
    }
    assert(s@.take(s@.len() as int) =~= s@);
}

/// Appends the characters of a string slice.
fn push_str(out: &mut Vec<char>, s: &str)
    ensures
        final(out)@ == old(out)@ + s@,
{
    let v = chars_of(s);
    push_chars(out, v.as_slice());
}

/// Appends the decimal text of `n`.
fn push_int(out: &mut Vec<char>, n: i32)
    ensures
        final(out)@ == old(out)@ + dec_int(n as int),
{
    if n < 0 {
        out.push('-');
        let m: u64 = (-(n as i64)) as u64;
        let ghost mid = out@;
        push_dec(out, m);
        assert(out@ =~= old(out)@ + dec_int(n as int));
    } else {
        push_dec(out, n as u64);
    }
}

/// Views of the character lists.
pub open spec fn char_views(v: Seq<Vec<char>>) -> Seq<Seq<char>> {
    v.map_values(|p: Vec<char>| p@)
}

/// Appends the parts joined by `sep` (see [`join_with`]).
fn push_joined(out: &mut Vec<char>, parts: &Vec<Vec<char>>, sep: &str)
    ensures
        final(out)@ == old(out)@ + join_with(char_views(parts@), sep@),
{
    let ghost base = out@;
    let ghost pv = char_views(parts@);
    let mut i: usize = 0;
    while i < parts.len()
        invariant
            i <= parts@.len(),
            pv == char_views(parts@),
            out@ == base + join_with(pv.take(i as int), sep@),
        decreases parts@.len() - i,
    {
        if i > 0 {
            push_str(out, sep);
        }
        push_chars(out, parts[i].as_slice());
        proof {
            let t1 = pv.take(i + 1);
            assert(t1.drop_last() =~= pv.take(i as int));
            assert(t1.last() == parts@[i as int]@);
            if i == 0 {
                assert(t1.len() == 1);
                assert(out@ =~= base + join_with(t1, sep@));
            } else {
                assert(out@ =~= base + join_with(t1, sep@));
            }
        }
        i = i + 1;
    }
    assert(pv.take(pv.len() as int) =~= pv);
}

/// Adds the labelled number where it is not zero (see [`opt_part`]).
fn push_opt_part(parts: &mut Vec<Vec<char>>, v: i32, label: &str)
    ensures
        char_views(final(parts)@) == char_views(old(parts)@) + opt_part(v, label@),
{
    if v != 0 {
        let mut p: Vec<char> = Vec::new();
        push_str(&mut p, label);
        push_int(&mut p, v);
        let ghost pv = p@;
        parts.push(p);
        assert(char_views(parts@) =~= char_views(old(parts)@) + seq![pv]);
    } else {
        assert(char_views(parts@) =~= char_views(old(parts)@) + Seq::<Seq<char>>::empty());
    }
}

/// The effect parts of a bowl (see [`bowl_parts`]).
fn bowl_part_list(e: &RamenEffectNumbers) -> (r: Vec<Vec<char>>)
    ensures
        char_views(r@) == bowl_parts(*e),
{
    let mut parts: Vec<Vec<char>> = Vec::new();
    assert(char_views(parts@) =~= Seq::<Seq<char>>::empty());
    push_opt_part(&mut parts, e.xunlian, "训+");
    push_opt_part(&mut parts, e.fail_rate_drop, "失败率-");
    push_opt_part(&mut parts, e.friendship, "羁绊+");
    push_opt_part(&mut parts, e.status_limit, "上限+");
    push_opt_part(&mut parts, e.pt_bonus, "PT+");
    assert(char_views(parts@) =~= bowl_parts(*e));
    parts
}

/// The effect parts of the super ramen (see [`super_parts`]).
fn super_part_list(e: &RamenEffectNumbers) -> (r: Vec<Vec<char>>)
    ensures
        char_views(r@) == super_parts(*e),
{
    let mut parts: Vec<Vec<char>> = Vec::new();
    assert(char_views(parts@) =~= Seq::<Seq<char>>::empty());
    push_opt_part(&mut parts, e.xunlian, "训+");
    push_opt_part(&mut parts, e.youqing, "友情+");
    push_opt_part(&mut parts, e.deyilv, "得意+");
    push_opt_part(&mut parts, e.fail_rate_drop, "失败率-");
    push_opt_part(&mut parts, e.friendship, "羁绊+");
    push_opt_part(&mut parts, e.status_limit, "上限+");
    push_opt_part(&mut parts, e.pt_bonus, "PT+");
    push_opt_part(&mut parts, e.hint, "hint+");
    push_opt_part(&mut parts, e.clone_count, "分身+");
    assert(char_views(parts@) =~= super_parts(*e));
    parts
}

/// The bonus parts of a scenario point tier (see [`pt_parts`]).
fn pt_part_list(e: &RamenEffectNumbers) -> (r: Vec<Vec<char>>)
    ensures
        char_views(r@) == pt_parts(*e),
{
    let mut parts: Vec<Vec<char>> = Vec::new();
    assert(char_views(parts@) =~= Seq::<Seq<char>>::empty());
    push_opt_part(&mut parts, e.xunlian, "训+");
    push_opt_part(&mut parts, e.deyilv, "得意+");
    push_opt_part(&mut parts, e.hint, "hint+");
    assert(char_views(parts@) =~= pt_parts(*e));
    parts
}

/// The characters of each string.
fn string_chars(v: &Vec<String>) -> (r: Vec<Vec<char>>)
    ensures
        char_views(r@) == str_views(v@),
{
    let mut out: Vec<Vec<char>> = Vec::new();
    let mut i: usize = 0;
    while i < v.len()
        invariant
            i <= v@.len(),
            char_views(out@) == str_views(v@.take(i as int)),
        decreases v@.len() - i,
    {
        let c = chars_of(v[i].as_str());
        let ghost cv = c@;
        let ghost before = out@;
        out.push(c);
        proof {
            assert(v@.take(i + 1) =~= v@.take(i as int).push(v@[i as int]));
            assert(char_views(out@) =~= char_views(before).push(cv));
            assert(str_views(v@.take(i + 1)) =~= str_views(v@.take(i as int)).push(v@[i as int]@));
        }
        i = i + 1;
    }
    assert(v@.take(v@.len() as int) =~= v@);
    out
}

/// The decimal texts of the numbers.
fn int_chars(v: &Vec<i32>) -> (r: Vec<Vec<char>>)
    ensures
        char_views(r@) == int_texts(v@),
{
    let mut out: Vec<Vec<char>> = Vec::new();
    let mut i: usize = 0;
    while i < v.len()
        invariant
            i <= v@.len(),
            char_views(out@) == int_texts(v@.take(i as int)),
        decreases v@.len() - i,
    {
        let mut c: Vec<char> = Vec::new();
        push_int(&mut c, v[i]);
        let ghost cv = c@;
        let ghost before = out@;
        out.push(c);
        proof {
            assert(v@.take(i + 1) =~= v@.take(i as int).push(v@[i as int]));
            assert(char_views(out@) =~= char_views(before).push(cv));
            assert(int_texts(v@.take(i + 1)) =~= int_texts(v@.take(i as int)).push(dec_int(v@[i as int] as int)));
        }
        i = i + 1;
    }
    assert(v@.take(v@.len() as int) =~= v@);
    out
}

/// The bowl eaten (see [`bowl_text`]).
fn push_bowl(out: &mut Vec<char>, name: &Option<String>, e: &RamenEffectNumbers)
    ensures
        final(out)@ == old(out)@ + bowl_text(
            match *name {
                Some(n) => Some(n@),
                None => None,
            },
            *e,
        ),
{
    match name {
        None => push_str(out, "无"),
        Some(n) => {
            let parts = bowl_part_list(e);
            push_str(out, n.as_str());
            if parts.len() > 0 {
                push_str(out, "(");
                push_joined(out, &parts, ",");
                push_str(out, ")");
            }
            assert(out@ =~= old(out)@ + bowl_text(Some(n@), *e));
        },
    }
}

/// The summary of the Ramen Cup state, in segments (see [`info_segments`]):
/// nothing before turn 2; on a super ramen turn, the super ramen's effect;
/// otherwise the bowl eaten and its effect, the selected regions with their
/// base gauges, the feelings, the hidden flavour, and the scenario points
/// with the tier's bonus.
pub fn explain_ramen_info(v: &RamenInfoView) -> (r: Vec<String>)
    ensures
        str_views(r@) == info_segments(*v),
{
    let mut segs: Vec<String> = Vec::new();
    if v.turn < 2 {
        assert(str_views(segs@) =~= info_segments(*v));
        return segs;
    }
    if v.turn >= 72 && v.turn <= 77 {
        let parts = super_part_list(&v.super_effect);
        let mut s: Vec<char> = Vec::new();
        push_str(&mut s, "超级拉面回合");
        if parts.len() > 0 {
            push_str(&mut s, " [");
            push_joined(&mut s, &parts, ",");
            push_str(&mut s, "]");
        }
        assert(s@ =~= super_text(v.super_effect));
        segs.push(string_from_chars(s.as_slice()));
        assert(str_views(segs@) =~= info_segments(*v));
        return segs;
    }
    let mut head: Vec<char> = Vec::new();
    push_str(&mut head, "拉面: ");
    push_bowl(&mut head, &v.current_name, &v.current_effect);
    push_str(&mut head, " | 地区: ");
    let names = string_chars(&v.region_names);
    push_joined(&mut head, &names, ",");
    push_str(&mut head, " 槽[");
    let gauges = int_chars(&v.gauge_base);
    push_joined(&mut head, &gauges, ", ");
    push_str(&mut head, "] | 诀窍 ");
    assert(head@ =~= head_text(*v));
    let mut feel: Vec<char> = Vec::new();
    push_str(&mut feel, "A");
    push_int(&mut feel, v.feeling_stock[0]);
    push_str(&mut feel, "/");
    push_int(&mut feel, v.feeling_slot[0]);
    push_str(&mut feel, " B");
    push_int(&mut feel, v.feeling_stock[1]);
    push_str(&mut feel, "/");
    push_int(&mut feel, v.feeling_slot[1]);
    push_str(&mut feel, " C");
    push_int(&mut feel, v.feeling_stock[2]);
    push_str(&mut feel, "/");
    push_int(&mut feel, v.feeling_slot[2]);
    assert(feel@ =~= feeling_text(v.feeling_stock, v.feeling_slot));
    let mut special: Vec<char> = Vec::new();
    push_int(&mut special, v.special_feeling);
    assert(special@ =~= dec_int(v.special_feeling as int));
    let mut tail: Vec<char> = Vec::new();
    push_str(&mut tail, " | PT");
    push_int(&mut tail, v.scenario_pt);
    push_str(&mut tail, " [");
    let pts = pt_part_list(&v.pt_effect);
    if pts.len() == 0 {
        push_str(&mut tail, "无加成");
    } else {
        push_joined(&mut tail, &pts, ",");
    }
    push_str(&mut tail, "]");
    assert(tail@ =~= tail_text(v.scenario_pt, v.pt_effect));
    segs.push(string_from_chars(head.as_slice()));
    segs.push(string_from_chars(feel.as_slice()));
    let label = chars_of(" | 隐藏诀窍 ");
    segs.push(string_from_chars(label.as_slice()));
    segs.push(string_from_chars(special.as_slice()));
    segs.push(string_from_chars(tail.as_slice()));
    assert(str_views(segs@) =~= info_segments(*v));
    segs
}

} // verus!
