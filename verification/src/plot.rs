//! Rules of the luck trend plot: XML escaping of SVG text, the
//! classification of a chosen action by its description, and which
//! snapshots of a game's decision table are plotted.

use vstd::prelude::*;

use crate::record::views;
use crate::text::{chars_of, contains_chars, contains_sub, occurs_at, string_from_chars};

verus! {

/// The escaped form of one character: `&`, `<`, `>` and `"` become entities.
pub open spec fn esc_char(c: char) -> Seq<char> {
    if c == '&' {
        "&amp;"@
    } else if c == '<' {
        "&lt;"@
    } else if c == '>' {
        "&gt;"@
    } else if c == '"' {
        "&quot;"@
    } else {
        seq![c]
    }
}

/// XML escaping of a text: every character replaced by its escaped form.
pub open spec fn esc_spec(s: Seq<char>) -> Seq<char> {
    s.map_values(|c: char| esc_char(c)).flatten()
}

fn push_all(out: &mut Vec<char>, s: &str)
    ensures
        final(out)@ == old(out)@ + s@,
{
    let cs = chars_of(s);
    let mut k: usize = 0;
    while k < cs.len()
        invariant
            k <= cs@.len(),
            out@ == old(out)@ + cs@.take(k as int),
        decreases cs@.len() - k,
    {
        out.push(cs[k]);
        assert(cs@.take(k + 1) =~= cs@.take(k as int).push(cs@[k as int]));
        k = k + 1;
    }
    assert(cs@.take(cs@.len() as int) =~= cs@);
}

/// Escapes text for an SVG document (see [`esc_spec`]).
pub fn esc(s: &str) -> (r: String)
    ensures
        r@ == esc_spec(s@),
{
    proof {
        reveal_strlit("&amp;");
        reveal_strlit("&lt;");
        reveal_strlit("&gt;");
        reveal_strlit("&quot;");
    }
    let cs = chars_of(s);
    let mut out: Vec<char> = Vec::new();
    let mut i: usize = 0;
    while i < cs.len()
        invariant
            i <= cs@.len(),
            cs@ == s@,
            out@ == esc_spec(cs@.take(i as int)),
        decreases cs@.len() - i,
    {
        let c = cs[i];
        if c == '&' {
            push_all(&mut out, "&amp;");
        } else if c == '<' {
            push_all(&mut out, "&lt;");
        } else if c == '>' {
            push_all(&mut out, "&gt;");
        } else if c == '"' {
            push_all(&mut out, "&quot;");
        } else {
            out.push(c);
        }
        proof {
            let t = cs@.take(i as int);
            assert(cs@.take(i + 1) =~= t.push(c));
            assert(t.push(c).map_values(|c: char| esc_char(c)) =~= t.map_values(|c: char| esc_char(c)).push(
                esc_char(c),
            ));
            t.map_values(|c: char| esc_char(c)).lemma_flatten_push(esc_char(c));
            assert(out@ =~= esc_spec(t) + esc_char(c));
        }
        i = i + 1;
    }
    assert(cs@.take(cs@.len() as int) =~= cs@);
    string_from_chars(out.as_slice())
}

/// The plot's category of a chosen action, by its description: ramen
/// (`吃面`, `不吃面`) before training, then outing, rest and race; an empty
/// or other description is the region choice.
pub open spec fn action_category(desc: Seq<char>) -> Seq<char> {
    if desc.len() == 0 {
        "地区选择"@
    } else if contains_sub(desc, "吃面"@) || contains_sub(desc, "不吃面"@) {
        "吃面"@
    } else if contains_sub(desc, "训练"@) {
        "训练"@
    } else if contains_sub(desc, "出行"@) {
        "出行"@
    } else if contains_sub(desc, "休息"@) {
        "休息"@
    } else if contains_sub(desc, "比赛"@) {
        "比赛"@
    } else {
        "地区选择"@
    }
}

/// How a description is classified: any description mentioning eating
/// (`吃面`, which `不吃面` contains too) is ramen; otherwise any mentioning
/// training (`训练`, as in `速训练`) is training; otherwise outing (`出行`),
/// rest (`休息`) and race (`比赛`) in that order; an empty description, or one
/// mentioning none of these, is the region choice.
pub proof fn lemma_action_categories(desc: Seq<char>)
    ensures
        contains_sub(desc, "吃面"@) ==> action_category(desc) == "吃面"@,
        contains_sub(desc, "训练"@) && !contains_sub(desc, "吃面"@) && !contains_sub(desc, "不吃面"@)
            ==> action_category(desc) == "训练"@,
        contains_sub(desc, "出行"@) && !contains_sub(desc, "吃面"@) && !contains_sub(desc, "不吃面"@)
            && !contains_sub(desc, "训练"@) ==> action_category(desc) == "出行"@,
        contains_sub(desc, "休息"@) && !contains_sub(desc, "吃面"@) && !contains_sub(desc, "不吃面"@)
            && !contains_sub(desc, "训练"@) && !contains_sub(desc, "出行"@) ==> action_category(desc) == "休息"@,
        contains_sub(desc, "比赛"@) && !contains_sub(desc, "吃面"@) && !contains_sub(desc, "不吃面"@)
            && !contains_sub(desc, "训练"@) && !contains_sub(desc, "出行"@) && !contains_sub(desc, "休息"@)
            ==> action_category(desc) == "比赛"@,
        !contains_sub(desc, "吃面"@) && !contains_sub(desc, "不吃面"@) && !contains_sub(desc, "训练"@)
            && !contains_sub(desc, "出行"@) && !contains_sub(desc, "休息"@) && !contains_sub(desc, "比赛"@)
            ==> action_category(desc) == "地区选择"@,
        desc.len() == 0 ==> action_category(desc) == "地区选择"@,
{
    reveal_strlit("吃面");
    reveal_strlit("训练");
    reveal_strlit("出行");
    reveal_strlit("休息");
    reveal_strlit("比赛");
    if contains_sub(desc, "吃面"@) {
        let i = choose|i: int| occurs_at(desc, "吃面"@, i);
        assert(desc.len() > 0);
    }
    if contains_sub(desc, "训练"@) {
        let i = choose|i: int| occurs_at(desc, "训练"@, i);
        assert(desc.len() > 0);
    }
    if contains_sub(desc, "出行"@) {
        let i = choose|i: int| occurs_at(desc, "出行"@, i);
        assert(desc.len() > 0);
    }
    if contains_sub(desc, "休息"@) {
        let i = choose|i: int| occurs_at(desc, "休息"@, i);
        assert(desc.len() > 0);
    }
    if contains_sub(desc, "比赛"@) {
        let i = choose|i: int| occurs_at(desc, "比赛"@, i);
        assert(desc.len() > 0);
    }
}

fn has(desc: &Vec<char>, pat: &str) -> (b: bool)
    ensures
        b == contains_sub(desc@, pat@),
{
    let p = chars_of(pat);
    contains_chars(desc.as_slice(), p.as_slice())
}

/// Classifies a chosen action for the plot (see [`action_category`]).
pub fn classify_action(desc: &str) -> (r: &'static str)
    ensures
        r@ == action_category(desc@),
{
    let d = chars_of(desc);
    if d.len() == 0 {
        return "地区选择";
    }
    if has(&d, "吃面") || has(&d, "不吃面") {
        return "吃面";
    }
    if has(&d, "训练") {
        return "训练";
    }
    if has(&d, "出行") {
        return "出行";
    }
    if has(&d, "休息") {
        return "休息";
    }
    if has(&d, "比赛") {
        return "比赛";
    }
    "地区选择"
}

/// A row of a game's decision table as the plot reads it. The numeric luck
/// columns stay with the caller; `has_luck` says whether the row carries a
/// luck value.
#[derive(Debug, Clone)]
pub struct PlotRow {
    /// Snapshot file of the row.
    pub file: String,
    /// Turn.
    pub turn: u32,
    /// Row outcome (`calc`, `skip`, ...).
    pub outcome: String,
    /// Description of the chosen action.
    pub chosen_desc: String,
    /// Whether the row carries a luck value.
    pub has_luck: bool,
}

/// A plotted snapshot: its turn and category (from its last row, the main
/// decision) and the rows that hold its main decision and its luck values.
#[derive(Debug, Clone, PartialEq, Eq)]
pub struct PlotSnap {
    /// Turn of the main decision.
    pub turn: u32,
    /// Category of the main decision (see [`action_category`]).
    pub category: String,
    /// Index of the snapshot's last row (its main decision).
    pub main_row: usize,
    /// Index of the snapshot's last row with a luck value, if any.
    pub luck_row: Option<usize>,
}

/// The snapshot files of the rows.
pub open spec fn files_of(rows: Seq<PlotRow>) -> Seq<Seq<char>> {
    rows.map_values(|r: PlotRow| r.file@)
}

/// The distinct files, in order of first appearance.
pub open spec fn first_seen(files: Seq<Seq<char>>) -> Seq<Seq<char>>
    decreases files.len(),
{
    if files.len() == 0 {
        Seq::empty()
    } else {
        let p = first_seen(files.drop_last());
        if p.contains(files.last()) {
            p
        } else {
            p.push(files.last())
        }
    }
}

/// The last of the first `n` rows of file `f`, if any.
pub open spec fn last_row_of(rows: Seq<PlotRow>, f: Seq<char>, n: int) -> Option<int>
    decreases n,
{
    if n <= 0 {
        None
    } else if rows[n - 1].file@ == f {
        Some(n - 1)
    } else {
        last_row_of(rows, f, n - 1)
    }
}

/// The last of the first `n` rows of file `f` with a luck value, if any.
pub open spec fn last_luck_row_of(rows: Seq<PlotRow>, f: Seq<char>, n: int) -> Option<int>
    decreases n,
{
    if n <= 0 {
        None
    } else if rows[n - 1].file@ == f && rows[n - 1].has_luck {
        Some(n - 1)
    } else {
        last_luck_row_of(rows, f, n - 1)
    }
}

/// Whether every row of file `f` is a skipped one.
pub open spec fn all_skipped(rows: Seq<PlotRow>, f: Seq<char>) -> bool {
    forall|k: int| 0 <= k < rows.len() && #[trigger] rows[k].file@ == f ==> rows[k].outcome@ == "skip"@
}

/// Whether the snapshot of file `f` is plotted: some row of it is not skipped.
pub open spec fn plotted(rows: Seq<PlotRow>) -> spec_fn(Seq<char>) -> bool {
    |f: Seq<char>| !all_skipped(rows, f)
}

/// A plotted snapshot as plain values: turn, category, main row, luck row.
pub open spec fn snap_view(s: PlotSnap) -> (u32, Seq<char>, int, Option<int>) {
    (
        s.turn,
        s.category@,
        s.main_row as int,
        match s.luck_row {
            Some(k) => Some(k as int),
            None => None,
        },
    )
}

/// The plotted snapshot of file `f` (which has rows).
pub open spec fn snap_of(rows: Seq<PlotRow>, f: Seq<char>) -> (u32, Seq<char>, int, Option<int>) {
    let main = last_row_of(rows, f, rows.len() as int)->0;
    (rows[main].turn, action_category(rows[main].chosen_desc@), main, last_luck_row_of(rows, f, rows.len() as int))
}

/// The plotted snapshots: the snapshot files in order of first appearance,
/// those whose rows are all skipped left out, each summarised by
/// [`snap_of`].
pub open spec fn plot_snaps_spec(rows: Seq<PlotRow>) -> Seq<(u32, Seq<char>, int, Option<int>)> {
    first_seen(files_of(rows)).filter(plotted(rows)).map_values(|f: Seq<char>| snap_of(rows, f))
}

/// Every file that [`first_seen`] lists is the file of some row.
proof fn lemma_first_seen_from(files: Seq<Seq<char>>, j: int)
    requires
        0 <= j < first_seen(files).len(),
    ensures
        files.contains(first_seen(files)[j]),
    decreases files.len(),
{
    let p = first_seen(files.drop_last());
    if j < p.len() {
        lemma_first_seen_from(files.drop_last(), j);
        let w = choose|w: int| 0 <= w < files.drop_last().len() && files.drop_last()[w] == p[j];
        assert(files[w] == p[j]);
    } else {
        assert(files[files.len() - 1] == files.last());
    }
}

/// Where some of the first `n` rows is of file `f`, a last one is.
proof fn lemma_last_row_exists(rows: Seq<PlotRow>, f: Seq<char>, n: int, w: int)
    requires
        0 <= w < n <= rows.len(),
        rows[w].file@ == f,
    ensures
        last_row_of(rows, f, n) matches Some(x) && 0 <= x < n && rows[x].file@ == f,
    decreases n,
{
    if rows[n - 1].file@ != f {
        lemma_last_row_exists(rows, f, n - 1, w);
    }
}

/// Whether `order` holds `f`.
fn holds_name(order: &Vec<String>, f: &String) -> (b: bool)
    ensures
        b == views(order@).contains(f@),
{
    let mut k: usize = 0;
    while k < order.len()
        invariant
            k <= order@.len(),
            forall|j: int| 0 <= j < k ==> views(order@)[j] != f@,
        decreases order@.len() - k,
    {
        if order[k] == *f {
            assert(views(order@)[k as int] == f@);
            return true;
        }
        k = k + 1;
    }
    false
}

/// The snapshots of a game's decision table that the plot shows (see
/// [`plot_snaps_spec`]): grouped by snapshot file in order of first
/// appearance, skipped snapshots left out, each with the turn and category
/// of its last row and its last row with a luck value.
pub fn plot_snaps(rows: &[PlotRow]) -> (r: Vec<PlotSnap>)
    ensures
        r@.map_values(|s: PlotSnap| snap_view(s)) == plot_snaps_spec(rows@),
{
    let ghost fs = files_of(rows@);
    let mut order: Vec<String> = Vec::new();
    let mut i: usize = 0;
    proof {
        assert(fs.take(0) =~= Seq::<Seq<char>>::empty());
        assert(views(order@) =~= Seq::<Seq<char>>::empty());
    }
    while i < rows.len()
        invariant
            i <= rows@.len(),
            fs == files_of(rows@),
            views(order@) == first_seen(fs.take(i as int)),
        decreases rows@.len() - i,
    {
        let seen = holds_name(&order, &rows[i].file);
        proof {
            assert(fs.take(i + 1).drop_last() =~= fs.take(i as int));
            assert(fs.take(i + 1).last() == rows@[i as int].file@);
        }
        if !seen {
            order.push(rows[i].file.clone());
            proof {
                assert(views(order@) =~= first_seen(fs.take(i as int)).push(rows@[i as int].file@));
            }
        }
        i = i + 1;
    }
    proof {
        assert(fs.take(rows@.len() as int) =~= fs);
    }
    let ghost files = views(order@);
    let skip = "skip".to_owned();
    let mut out: Vec<PlotSnap> = Vec::new();
    let mut j: usize = 0;
    while j < order.len()
        invariant
            j <= order@.len(),
            files == views(order@),
            files == first_seen(files_of(rows@)),
            skip@ == "skip"@,
            out@.map_values(|s: PlotSnap| snap_view(s)) == files.take(j as int).filter(plotted(rows@)).map_values(
                |f: Seq<char>| snap_of(rows@, f),
            ),
        decreases order@.len() - j,
    {
        let f = &order[j];
        let ghost fv = f@;
        assert(fv == files[j as int]);
        let mut all_skip = true;
        let mut last: Option<usize> = None;
        let mut last_luck: Option<usize> = None;
        let mut k: usize = 0;
        while k < rows.len()
            invariant
                k <= rows@.len(),
                fv == f@,
                skip@ == "skip"@,
                all_skip == forall|m: int| 0 <= m < k && #[trigger] rows@[m].file@ == fv ==> rows@[m].outcome@
                    == "skip"@,
                match last {
                    Some(x) => last_row_of(rows@, fv, k as int) == Some(x as int),
                    None => last_row_of(rows@, fv, k as int) is None,
                },
                match last_luck {
                    Some(x) => last_luck_row_of(rows@, fv, k as int) == Some(x as int),
                    None => last_luck_row_of(rows@, fv, k as int) is None,
                },
            decreases rows@.len() - k,
        {
            if rows[k].file == *f {
                last = Some(k);
                if rows[k].has_luck {
                    last_luck = Some(k);
                }
                if !(rows[k].outcome == skip) {
                    all_skip = false;
                }
            }
            k = k + 1;
        }
        proof {
            files.take(j as int).lemma_filter_push(fv, plotted(rows@));
            assert(files.take(j + 1) =~= files.take(j as int).push(fv));
            assert(all_skip == all_skipped(rows@, fv));
        }
        let ghost before = out@;
        if !all_skip {
            proof {
                lemma_first_seen_from(files_of(rows@), j as int);
                let w = choose|w: int| 0 <= w < files_of(rows@).len() && files_of(rows@)[w] == fv;
                assert(rows@[w].file@ == fv);
                lemma_last_row_exists(rows@, fv, rows@.len() as int, w);
            }
            let main = match last {
                Some(x) => x,
                None => 0,
            };
            let category = classify_action(rows[main].chosen_desc.as_str()).to_owned();
            let snap = PlotSnap { turn: rows[main].turn, category, main_row: main, luck_row: last_luck };
            out.push(snap);
            proof {
                assert(snap_view(snap) == snap_of(rows@, fv));
                assert(out@.map_values(|s: PlotSnap| snap_view(s)) =~= before.map_values(|s: PlotSnap| snap_view(s)).push(
                    snap_view(snap),
                ));
                assert(files.take(j as int).filter(plotted(rows@)).push(fv).map_values(
                    |g: Seq<char>| snap_of(rows@, g),
                ) =~= files.take(j as int).filter(plotted(rows@)).map_values(|g: Seq<char>| snap_of(rows@, g)).push(
                    snap_of(rows@, fv),
                ));
            }
        }
        j = j + 1;
    }
    proof {
        assert(files.take(order@.len() as int) =~= files);
    }
    out
}

} // verus!
