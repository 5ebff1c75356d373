//! Offline replay of recorded snapshots: the snapshot locator read from a
//! file name, what each replayed snapshot adds to the detail table and to
//! its game's counters, and the columns of the per-game summary.

use vstd::prelude::*;

use crate::record::{parse_file_name, parse_file_name_spec, views, SnapRef};
use crate::text::{chars_of, string_from_chars};

verus! {

/// A recorded snapshot found on disk, located by its file name.
#[derive(Debug)]
pub struct SnapshotRef {
    /// Game id (the file name's `game` prefix).
    pub game: u64,
    /// Turn.
    pub turn: u32,
    /// Sequence number within the turn (0 without suffix).
    pub seq: u32,
    /// File name.
    pub file: String,
}

/// The row locator of a replayed snapshot.
pub fn snap_ref(snap: &SnapshotRef, source: &str, playing_state: u64, stage: &str) -> (r: SnapRef)
    ensures
        r.game == snap.game,
        r.file@ == snap.file@,
        r.turn == snap.turn,
        r.seq == snap.seq,
        r.source@ == source@,
        r.playing_state == playing_state,
        r.stage@ == stage@,
{
    SnapRef {
        game: snap.game,
        file: snap.file.clone(),
        turn: snap.turn,
        seq: snap.seq,
        source: source.to_owned(),
        playing_state,
        stage: stage.to_owned(),
    }
}

/// Columns of the per-game summary, in order.
pub open spec fn summary_header_spec() -> Seq<Seq<char>> {
    seq![
        "game"@,
        "snapshots"@,
        "calc_snaps"@,
        "no_emit_snaps"@,
        "emit_rows"@,
        "skip_snaps"@,
        "skip_event"@,
        "skip_playing_state5"@,
        "skip_rmj"@,
        "skip_data_incomplete"@,
        "skip_super_drop"@,
        "skip_parse_error"@,
        "skip_onsen"@,
        "skip_process_error"@,
        "skip_other"@,
        "luck_rows"@,
        "delta_display_n"@,
        "delta_display_mean"@,
        "delta_display_std"@,
        "delta_display_min"@,
        "delta_display_max"@,
        "delta_display_sum"@,
        "delta_display_neg"@,
        "delta_display_pos"@,
        "delta_raw_n"@,
        "delta_raw_mean"@,
        "delta_raw_std"@,
        "delta_raw_min"@,
        "delta_raw_max"@,
        "delta_raw_sum"@,
        "delta_raw_neg"@,
        "delta_raw_pos"@,
        "total_luck_end"@,
    ]
}

fn push_name(cols: &mut Vec<String>, s: &str)
    ensures
        views(final(cols)@) == views(old(cols)@).push(s@),
{
    cols.push(s.to_owned());
    assert(views(cols@) =~= views(old(cols)@).push(s@));
}

/// Columns of the per-game summary (33 columns).
pub fn summary_header() -> (h: Vec<String>)
    ensures
        views(h@) == summary_header_spec(),
        h@.len() == 33,
{
    let mut c: Vec<String> = Vec::new();
    push_name(&mut c, "game");
    push_name(&mut c, "snapshots");
    push_name(&mut c, "calc_snaps");
    push_name(&mut c, "no_emit_snaps");
    push_name(&mut c, "emit_rows");
    push_name(&mut c, "skip_snaps");
    push_name(&mut c, "skip_event");
    push_name(&mut c, "skip_playing_state5");
    push_name(&mut c, "skip_rmj");
    push_name(&mut c, "skip_data_incomplete");
    push_name(&mut c, "skip_super_drop");
    push_name(&mut c, "skip_parse_error");
    push_name(&mut c, "skip_onsen");
    push_name(&mut c, "skip_process_error");
    push_name(&mut c, "skip_other");
    push_name(&mut c, "luck_rows");
    push_name(&mut c, "delta_display_n");
    push_name(&mut c, "delta_display_mean");
    push_name(&mut c, "delta_display_std");
    push_name(&mut c, "delta_display_min");
    push_name(&mut c, "delta_display_max");
    push_name(&mut c, "delta_display_sum");
    push_name(&mut c, "delta_display_neg");
    push_name(&mut c, "delta_display_pos");
    push_name(&mut c, "delta_raw_n");
    push_name(&mut c, "delta_raw_mean");
    push_name(&mut c, "delta_raw_std");
    push_name(&mut c, "delta_raw_min");
    push_name(&mut c, "delta_raw_max");
    push_name(&mut c, "delta_raw_sum");
    push_name(&mut c, "delta_raw_neg");
    push_name(&mut c, "delta_raw_pos");
    push_name(&mut c, "total_luck_end");
    assert(views(c@) =~= summary_header_spec());
    c
}

/// A located snapshot as plain values: game, turn, sequence number, file name.
pub open spec fn ref_view(s: SnapshotRef) -> (u64, u32, u32, Seq<char>) {
    (s.game, s.turn, s.seq, s.file@)
}

/// Located snapshots as plain values.
pub open spec fn refs_view(v: Seq<SnapshotRef>) -> Seq<(u64, u32, u32, Seq<char>)> {
    v.map_values(|s: SnapshotRef| ref_view(s))
}

/// The snapshot files among `names`, in the given order, each with the
/// game, turn and sequence number read from its name.
pub open spec fn located(names: Seq<Seq<char>>) -> Seq<(u64, u32, u32, Seq<char>)>
    decreases names.len(),
{
    if names.len() == 0 {
        Seq::empty()
    } else {
        located(names.drop_last()) + match parse_file_name_spec(names.last()) {
            Some(k) => seq![(k.0, k.1, k.2, names.last())],
            None => Seq::empty(),
        }
    }
}

/// Whether `a` comes no later than `b` by (game, turn, sequence number).
pub open spec fn key_le(a: (u64, u32, u32, Seq<char>), b: (u64, u32, u32, Seq<char>)) -> bool {
    a.0 < b.0 || (a.0 == b.0 && (a.1 < b.1 || (a.1 == b.1 && a.2 <= b.2)))
}

/// Whether a located snapshot has the key `k`.
pub open spec fn has_key(k: (u64, u32, u32)) -> spec_fn((u64, u32, u32, Seq<char>)) -> bool {
    |s: (u64, u32, u32, Seq<char>)| s.0 == k.0 && s.1 == k.1 && s.2 == k.2
}

/// `out` holds the snapshots of `input` ordered by key, those of one key in
/// their input order.
pub open spec fn ordered_stably(input: Seq<(u64, u32, u32, Seq<char>)>, out: Seq<(u64, u32, u32, Seq<char>)>) -> bool {
    &&& forall|i: int, j: int| 0 <= i < j < out.len() ==> key_le(#[trigger] out[i], #[trigger] out[j])
    &&& forall|k: (u64, u32, u32)| #[trigger] out.filter(has_key(k)) == input.filter(has_key(k))
}

/// Why a replay has nothing to read.
#[derive(Debug, Clone, Copy, PartialEq, Eq, Structural)]
pub enum ReplayError {
    /// No file name is a snapshot's.
    NoSnapshots,
}

/// A filter keeps nothing of a sequence where it keeps none of its items.
proof fn lemma_filter_nothing<A>(s: Seq<A>, p: spec_fn(A) -> bool)
    requires
        forall|k: int| 0 <= k < s.len() ==> !p(#[trigger] s[k]),
    ensures
        s.filter(p) == Seq::<A>::empty(),
    decreases s.len(),
{
    reveal(Seq::filter);
    if s.len() > 0 {
        lemma_filter_nothing(s.drop_last(), p);
    }
}

/// Inserting `x` where everything after is later keeps each key's group,
/// with `x` last in its own.
proof fn lemma_insert_groups(
    out: Seq<(u64, u32, u32, Seq<char>)>,
    p: int,
    x: (u64, u32, u32, Seq<char>),
    k: (u64, u32, u32),
)
    requires
        0 <= p <= out.len(),
        forall|j: int| p <= j < out.len() ==> !key_le(#[trigger] out[j], x),
    ensures
        out.insert(p, x).filter(has_key(k)) == if has_key(k)(x) {
            out.filter(has_key(k)).push(x)
        } else {
            out.filter(has_key(k))
        },
{
    broadcast use vstd::seq_lib::group_seq_properties;

    let a = out.take(p);
    let b = out.skip(p);
    assert(out =~= a + b);
    assert(out.insert(p, x) =~= (a + seq![x]) + b);
    assert(a.push(x) =~= a + seq![x]);
    Seq::filter_distributes_over_add(a + seq![x], b, has_key(k));
    Seq::filter_distributes_over_add(a, b, has_key(k));
    a.lemma_filter_push(x, has_key(k));
    if has_key(k)(x) {
        assert forall|j: int| 0 <= j < b.len() implies !has_key(k)(#[trigger] b[j]) by {
            assert(b[j] == out[p + j]);
        }
        lemma_filter_nothing(b, has_key(k));
    }
}

/// The snapshot files among `names`, ordered by (game, turn, sequence
/// number), files of one key in their listed order; refused where no name
/// is a snapshot's.
pub fn collect_snapshots(names: &[String]) -> (r: Result<Vec<SnapshotRef>, ReplayError>)
    ensures
        match r {
            Ok(v) => located(views(names@)).len() > 0 && ordered_stably(located(views(names@)), refs_view(v@)),
            Err(e) => e == ReplayError::NoSnapshots && located(views(names@)).len() == 0,
        },
{
    let ghost nv = views(names@);
    let mut out: Vec<SnapshotRef> = Vec::new();
    let mut i: usize = 0;
    proof {
        assert(nv.take(0) =~= Seq::<Seq<char>>::empty());
        assert(refs_view(out@) =~= Seq::<(u64, u32, u32, Seq<char>)>::empty());
    }
    while i < names.len()
        invariant
            i <= names@.len(),
            nv == views(names@),
            ordered_stably(located(nv.take(i as int)), refs_view(out@)),
            out@.len() == located(nv.take(i as int)).len(),
        decreases names@.len() - i,
    {
        let ghost prev = located(nv.take(i as int));
        proof {
            assert(nv.take(i + 1).drop_last() =~= nv.take(i as int));
            assert(nv.take(i + 1).last() == names@[i as int]@);
        }
        match parse_file_name(names[i].as_str()) {
            Some((game, turn, seq)) => {
                let snap = SnapshotRef { game, turn, seq, file: names[i].clone() };
                let ghost x = ref_view(snap);
                let mut p: usize = 0;
                while p < out.len() && (out[p].game < game || (out[p].game == game && (out[p].turn < turn || (
                out[p].turn == turn && out[p].seq <= seq))))
                    invariant
                        p <= out@.len(),
                        x.0 == game && x.1 == turn && x.2 == seq,
                        forall|j: int| 0 <= j < p ==> key_le(#[trigger] refs_view(out@)[j], x),
                    decreases out@.len() - p,
                {
                    proof {
                        assert(refs_view(out@)[p as int] == ref_view(out@[p as int]));
                    }
                    p = p + 1;
                }
                let ghost before = refs_view(out@);
                proof {
                    assert forall|j: int| p <= j < before.len() implies !key_le(#[trigger] before[j], x) by {
                        assert(!key_le(before[p as int], x));
                        if j > p {
                            assert(key_le(before[p as int], before[j]));
                        }
                    }
                }
                out.insert(p, snap);
                proof {
                    assert(refs_view(out@) =~= before.insert(p as int, x));
                    let now = refs_view(out@);
                    assert forall|a: int, b: int| 0 <= a < b < now.len() implies key_le(#[trigger] now[a], #[trigger] now[b]) by {
                        if a < p && b < p {
                        } else if a < p && b == p {
                        } else if a < p && b > p {
                            assert(now[b] == before[b - 1]);
                            assert(key_le(before[a], x));
                        } else if a == p {
                            assert(now[b] == before[b - 1]);
                            assert(!key_le(before[b - 1], x));
                        } else {
                            assert(now[a] == before[a - 1]);
                            assert(now[b] == before[b - 1]);
                        }
                    }
                    assert(located(nv.take(i + 1)) =~= prev.push(x));
                    assert forall|k: (u64, u32, u32)| #[trigger] now.filter(has_key(k)) == located(nv.take(i + 1)).filter(
                        has_key(k),
                    ) by {
                        lemma_insert_groups(before, p as int, x, k);
                        prev.lemma_filter_push(x, has_key(k));
                    }
                }
            },
            None => {
                proof {
                    assert(located(nv.take(i + 1)) =~= prev);
                }
            },
        }
        i = i + 1;
    }
    proof {
        assert(nv.take(names@.len() as int) =~= nv);
    }
    if out.len() == 0 {
        Err(ReplayError::NoSnapshots)
    } else {
        Ok(out)
    }
}

/// What replaying one snapshot came to.
#[derive(Debug, Clone)]
pub enum ReplayOutcome {
    /// The file could not be read (the error text).
    Unreadable(String),
    /// The file is not JSON (the error text).
    BadJson(String),
    /// The snapshot could not be parsed (the error text).
    Unparsed(String),
    /// A snapshot of the Onsen scenario.
    Onsen,
    /// A `Begin` snapshot, skipped for the reason given.
    Begin(String),
    /// Processed, with this many decisions emitted.
    Processed(usize),
    /// Processing failed (the error text).
    Failed(String),
}

/// Kind of a detail row of a replayed snapshot.
#[derive(Debug, Clone, Copy, PartialEq, Eq, Structural)]
pub enum ReplayRowKind {
    /// A skipped snapshot.
    Skip,
    /// A processed snapshot without a decision.
    NoEmit,
    /// Decision `index` of a chain of `chain_len`.
    Calc { chain_len: usize, index: usize },
}

/// A detail row of a replayed snapshot: its kind and reason.
#[derive(Debug, Clone)]
pub struct ReplayRow {
    pub kind: ReplayRowKind,
    pub reason: String,
}

/// Counters of one game's replay.
#[derive(Debug, Clone)]
pub struct ReplayCounts {
    /// Snapshots replayed.
    pub snaps: u64,
    /// Snapshots that were processed and emitted decisions.
    pub calc_snaps: u64,
    /// Snapshots that were processed without a decision.
    pub no_emit_snaps: u64,
    /// Decision rows.
    pub emit_rows: u64,
    /// Skipped snapshots by reason key, in order of first appearance.
    pub skips: Vec<(String, u64)>,
}

/// The skip counters as plain values.
pub open spec fn skip_view(v: Seq<(String, u64)>) -> Seq<(Seq<char>, u64)> {
    v.map_values(|e: (String, u64)| (e.0@, e.1))
}

/// The skip counters after one more skip of `key`: its (first) count grows
/// by one, or it is added with count 1.
pub open spec fn bump_spec(v: Seq<(Seq<char>, u64)>, key: Seq<char>) -> Seq<(Seq<char>, u64)> {
    if exists|i: int| 0 <= i < v.len() && v[i].0 == key {
        let i = choose|i: int|
            0 <= i < v.len() && v[i].0 == key && forall|j: int| 0 <= j < i ==> v[j].0 != key;
        v.update(i, (key, (v[i].1 + 1) as u64))
    } else {
        v.push((key, 1u64))
    }
}

/// The skip reason key and the row reason of an outcome that skips the
/// snapshot, `None` for a processed one.
pub open spec fn skip_of(o: ReplayOutcome) -> Option<(Seq<char>, Seq<char>)> {
    match o {
        ReplayOutcome::Unreadable(e) => Some(("skip_other"@, "read_error: "@ + e@)),
        ReplayOutcome::BadJson(e) => Some(("skip_parse_error"@, "parse_error(json): "@ + e@)),
        ReplayOutcome::Unparsed(e) => Some(("skip_parse_error"@, "parse_error: "@ + e@)),
        ReplayOutcome::Onsen => Some(("skip_onsen"@, "onsen_scenario"@)),
        ReplayOutcome::Begin(r) => Some((r@, r@)),
        ReplayOutcome::Failed(e) => Some(("skip_process_error"@, "process_error: "@ + e@)),
        ReplayOutcome::Processed(_) => None,
    }
}

/// Whether the counters can take one more snapshot.
pub open spec fn counts_fit(c: ReplayCounts, o: ReplayOutcome) -> bool {
    &&& c.snaps < u64::MAX
    &&& c.calc_snaps < u64::MAX
    &&& c.no_emit_snaps < u64::MAX
    &&& forall|i: int| 0 <= i < c.skips@.len() ==> #[trigger] c.skips@[i].1 < u64::MAX
    &&& o matches ReplayOutcome::Processed(n) ==> c.emit_rows + n <= u64::MAX
}

/// The rows of a replayed snapshot as plain values.
pub open spec fn row_views(rows: Seq<ReplayRow>) -> Seq<(ReplayRowKind, Seq<char>)> {
    rows.map_values(|r: ReplayRow| (r.kind, r.reason@))
}

/// The rows an outcome gives: one `skip` row with its reason; one
/// `no_emit` row (`no_decision`) for a processed snapshot without a
/// decision; otherwise one `calc` row per decision of the chain.
pub open spec fn replay_rows_spec(o: ReplayOutcome) -> Seq<(ReplayRowKind, Seq<char>)> {
    match skip_of(o) {
        Some((_, reason)) => seq![(ReplayRowKind::Skip, reason)],
        None => match o {
            ReplayOutcome::Processed(n) => if n == 0 {
                seq![(ReplayRowKind::NoEmit, "no_decision"@)]
            } else {
                Seq::new(n as nat, |i: int| (ReplayRowKind::Calc { chain_len: n, index: i as usize }, Seq::<char>::empty()))
            },
            _ => Seq::empty(),
        },
    }
}

fn string_of(s: &str) -> (r: String)
    ensures
        r@ == s@,
{
    let v = chars_of(s);
    string_from_chars(v.as_slice())
}

fn prefixed(prefix: &str, e: &String) -> (r: String)
    ensures
        r@ == prefix@ + e@,
{
    let mut v = chars_of(prefix);
    let mut w = chars_of(e.as_str());
    v.append(&mut w);
    string_from_chars(v.as_slice())
}

/// Counts one more skip of `key` (see [`bump_spec`]).
fn bump(skips: &mut Vec<(String, u64)>, key: String)
    requires
        forall|i: int| 0 <= i < old(skips)@.len() ==> #[trigger] old(skips)@[i].1 < u64::MAX,
    ensures
        skip_view(final(skips)@) == bump_spec(skip_view(old(skips)@), key@),
{
    let ghost v = skip_view(skips@);
    let mut i: usize = 0;
    while i < skips.len()
        invariant
            i <= skips@.len(),
            v == skip_view(skips@),
            *skips == *old(skips),
            forall|j: int| 0 <= j < skips@.len() ==> #[trigger] skips@[j].1 < u64::MAX,
            forall|j: int| 0 <= j < i ==> v[j].0 != key@,
        decreases skips@.len() - i,
    {
        if skips[i].0 == key {
            assert(v[i as int].0 == key@);
            let n = skips[i].1;
            assert(n < u64::MAX) by {
                assert(skips@[i as int].1 < u64::MAX);
            }
            let ghost c = choose|c: int|
                0 <= c < v.len() && v[c].0 == key@ && forall|j: int| 0 <= j < c ==> v[j].0 != key@;
            assert(0 <= c < v.len() && v[c].0 == key@ && forall|j: int| 0 <= j < c ==> v[j].0 != key@);
            assert(c == i as int) by {
                if c < i {
                    assert(v[c].0 != key@);
                } else if c > i {
                    assert(v[i as int].0 != key@);
                }
            }
            skips.set(i, (key, n + 1));
            assert(skip_view(skips@) =~= bump_spec(v, key@));
            return;
        }
        i = i + 1;
    }
    let ghost k = key@;
    skips.push((key, 1));
    assert(skip_view(skips@) =~= v.push((k, 1u64)));
}

/// What one replayed snapshot adds: its detail rows (see
/// [`replay_rows_spec`]) and its game's counters (one more snapshot; a
/// skip counted under its key, see [`skip_of`]; a processed snapshot
/// counted as `no_emit` without a decision, else as a calculated one with
/// its decisions counted as rows).
pub fn replay_step(counts: &mut ReplayCounts, outcome: &ReplayOutcome) -> (rows: Vec<ReplayRow>)
    requires
        counts_fit(*old(counts), *outcome),
    ensures
        row_views(rows@) == replay_rows_spec(*outcome),
        final(counts).snaps == old(counts).snaps + 1,
        skip_view(final(counts).skips@) == match skip_of(*outcome) {
            Some((key, _)) => bump_spec(skip_view(old(counts).skips@), key),
            None => skip_view(old(counts).skips@),
        },
        final(counts).no_emit_snaps == old(counts).no_emit_snaps + if *outcome == ReplayOutcome::Processed(0) {
            1int
        } else {
            0
        },
        final(counts).calc_snaps == old(counts).calc_snaps + match *outcome {
            ReplayOutcome::Processed(n) => if n > 0 { 1int } else { 0 },
            _ => 0,
        },
        final(counts).emit_rows == old(counts).emit_rows + match *outcome {
            ReplayOutcome::Processed(n) => n as int,
            _ => 0,
        },
{
    counts.snaps = counts.snaps + 1;
    let mut rows: Vec<ReplayRow> = Vec::new();
    let (key, reason): (String, String) = match outcome {
        ReplayOutcome::Unreadable(e) => (string_of("skip_other"), prefixed("read_error: ", e)),
        ReplayOutcome::BadJson(e) => (string_of("skip_parse_error"), prefixed("parse_error(json): ", e)),
        ReplayOutcome::Unparsed(e) => (string_of("skip_parse_error"), prefixed("parse_error: ", e)),
        ReplayOutcome::Onsen => (string_of("skip_onsen"), string_of("onsen_scenario")),
        ReplayOutcome::Begin(r) => (r.clone(), r.clone()),
        ReplayOutcome::Failed(e) => (string_of("skip_process_error"), prefixed("process_error: ", e)),
        ReplayOutcome::Processed(n) => {
            let n = *n;
            if n == 0 {
                counts.no_emit_snaps = counts.no_emit_snaps + 1;
                rows.push(ReplayRow { kind: ReplayRowKind::NoEmit, reason: string_of("no_decision") });
                assert(row_views(rows@) =~= replay_rows_spec(*outcome));
            } else {
                counts.calc_snaps = counts.calc_snaps + 1;
                counts.emit_rows = counts.emit_rows + n as u64;
                let mut i: usize = 0;
                while i < n
                    invariant
                        i <= n,
                        row_views(rows@) == Seq::new(
                            i as nat,
                            |k: int| (ReplayRowKind::Calc { chain_len: n, index: k as usize }, Seq::<char>::empty()),
                        ),
                    decreases n - i,
                {
                    let empty = String::new();
                    let ghost before = rows@;
                    rows.push(ReplayRow { kind: ReplayRowKind::Calc { chain_len: n, index: i }, reason: empty });
                    assert(row_views(rows@) =~= row_views(before).push(
                        (ReplayRowKind::Calc { chain_len: n, index: i }, Seq::<char>::empty()),
                    ));
                    assert(row_views(rows@) =~= Seq::new(
                        (i + 1) as nat,
                        |k: int| (ReplayRowKind::Calc { chain_len: n, index: k as usize }, Seq::<char>::empty()),
                    ));
                    i = i + 1;
                }
            }
            return rows;
        },
    };
    bump(&mut counts.skips, key);
    let ghost rv = reason@;
    rows.push(ReplayRow { kind: ReplayRowKind::Skip, reason });
    assert(row_views(rows@) =~= seq![(ReplayRowKind::Skip, rv)]);
    rows
}

} // verus!
