//! Decision record schema shared by the online recorder and the offline
//! replay: snapshot locators, the detail CSV header and rows, snapshot file
//! names and the classification of `Begin` snapshots.

use vstd::prelude::*;

use crate::text::{
    all_digits, char_digit, chars_of, dec_digits, digit_char, digits_value, find_sub,
    first_occurrence, lemma_first_occurrence, occurs_at, parse_unsigned, parse_unsigned_chars, push_dec,
    string_from_chars,
};

verus! {

/// Number of candidate columns of a detail row.
pub const MAX_CAND_COLS: usize = 5;

/// Locator of one snapshot, filling the leading columns of a detail row.
#[derive(Debug, Default)]
pub struct SnapRef {
    /// Game id (`single_mode_chara_id`; 0 for an unknown game).
    pub game: u64,
    /// Snapshot file name.
    pub file: String,
    /// Turn (0 when it could not be read).
    pub turn: u32,
    /// Sequence number within the turn (0: no suffix).
    pub seq: u32,
    /// `baseGame.source`.
    pub source: String,
    /// `baseGame.playing_state`.
    pub playing_state: u64,
    /// Stage after dispatch.
    pub stage: String,
}

impl Clone for SnapRef {
    fn clone(&self) -> (r: Self)
        ensures
            r == *self,
    {
        SnapRef {
            game: self.game,
            file: self.file.clone(),
            turn: self.turn,
            seq: self.seq,
            source: self.source.clone(),
            playing_state: self.playing_state,
            stage: self.stage.clone(),
        }
    }
}

/// A snapshot locator as plain values.
pub ghost struct SnapRefModel {
    pub game: u64,
    pub file: Seq<char>,
    pub turn: u32,
    pub seq: u32,
    pub source: Seq<char>,
    pub playing_state: u64,
    pub stage: Seq<char>,
}

impl View for SnapRef {
    type V = SnapRefModel;

    open spec fn view(&self) -> SnapRefModel {
        SnapRefModel {
            game: self.game,
            file: self.file@,
            turn: self.turn,
            seq: self.seq,
            source: self.source@,
            playing_state: self.playing_state,
            stage: self.stage@,
        }
    }
}

/// What the recorder is told about an arriving snapshot.
#[derive(Debug, Default)]
pub struct SnapMeta {
    /// Game id (`None`: the snapshot could not be parsed).
    pub game: Option<u64>,
    /// Turn (`None`: unknown).
    pub turn: Option<u32>,
    /// Stage after dispatch.
    pub stage: String,
    /// Reason the snapshot dispatches no decision (`Begin`, parse failure).
    pub skip: Option<String>,
    /// Last turn of the scenario, for detecting the game's end.
    pub max_turn: Option<u32>,
}

/// What the recorder is told about a snapshot, as plain values.
pub ghost struct SnapMetaModel {
    pub game: Option<u64>,
    pub turn: Option<u32>,
    pub stage: Seq<char>,
    pub skip: Option<Seq<char>>,
    pub max_turn: Option<u32>,
}

/// View of an optional string.
pub open spec fn opt_view(s: Option<String>) -> Option<Seq<char>> {
    match s {
        Some(x) => Some(x@),
        None => None,
    }
}

impl View for SnapMeta {
    type V = SnapMetaModel;

    open spec fn view(&self) -> SnapMetaModel {
        SnapMetaModel {
            game: self.game,
            turn: self.turn,
            stage: self.stage@,
            skip: opt_view(self.skip),
            max_turn: self.max_turn,
        }
    }
}

impl Clone for SnapMeta {
    fn clone(&self) -> (r: Self)
        ensures
            r == *self,
    {
        SnapMeta {
            game: self.game,
            turn: self.turn,
            stage: self.stage.clone(),
            skip: match &self.skip {
                Some(s) => Some(s.clone()),
                None => None,
            },
            max_turn: self.max_turn,
        }
    }
}

impl SnapMeta {
    /// A snapshot that parsed.
    pub fn normal(game: u64, turn: u32, stage: &str) -> (m: Self)
        ensures
            m.game == Some(game),
            m.turn == Some(turn),
            m.stage@ == stage@,
            m.skip is None,
            m.max_turn is None,
    {
        SnapMeta { game: Some(game), turn: Some(turn), stage: stage.to_owned(), skip: None, max_turn: None }
    }

    /// Sets the skip reason.
    pub fn with_skip(self, skip: Option<String>) -> (m: Self)
        ensures
            m == (SnapMeta { skip, ..self }),
    {
        SnapMeta { skip, ..self }
    }

    /// Sets the scenario's last turn.
    pub fn with_max_turn(self, max_turn: u32) -> (m: Self)
        ensures
            m == (SnapMeta { max_turn: Some(max_turn), ..self }),
    {
        SnapMeta { max_turn: Some(max_turn), ..self }
    }

    /// A snapshot that failed to parse (game and turn unknown, skipped for `reason`).
    pub fn failed(reason: &str) -> (m: Self)
        ensures
            m.game is None,
            m.turn is None,
            m.stage@ == Seq::<char>::empty(),
            m.skip is Some && m.skip->0@ == reason@,
            m.max_turn is None,
    {
        SnapMeta { game: None, turn: None, stage: String::new(), skip: Some(reason.to_owned()), max_turn: None }
    }
}

/// `"cand{i}{suffix}"` for the five candidate columns.
pub open spec fn cand_cols(suffix: Seq<char>) -> Seq<Seq<char>> {
    Seq::new(5, |i: int| "cand"@ + dec_digits((i + 1) as nat) + suffix)
}

/// Column names of the detail CSV, in column order.
pub open spec fn detail_header_spec() -> Seq<Seq<char>> {
    seq![
        "game"@,
        "file"@,
        "turn"@,
        "seq"@,
        "source"@,
        "playing_state"@,
        "stage"@,
        "outcome"@,
        "reason"@,
        "step"@,
        "chain_len"@,
        "decision_kind"@,
        "n_actions"@,
    ] + cand_cols("_desc"@) + cand_cols("_score"@) + cand_cols("_n"@) + seq![
        "chosen_idx"@,
        "chosen_desc"@,
        "chosen_action_luck"@,
        "t_n_raw"@,
        "t_n_display"@,
        "total_luck"@,
        "turn_delta"@,
    ]
}

/// Views of a list of strings.
pub open spec fn views(v: Seq<String>) -> Seq<Seq<char>> {
    v.map_values(|s: String| s@)
}

fn push_lit(cols: &mut Vec<String>, s: &str)
    ensures
        views(final(cols)@) == views(old(cols)@).push(s@),
{
    cols.push(s.to_owned());
    assert(views(cols@) =~= views(old(cols)@).push(s@));
}

fn push_cand_cols(cols: &mut Vec<String>, suffix: &str)
    ensures
        views(final(cols)@) == views(old(cols)@) + cand_cols(suffix@),
{
    let ghost start = views(cols@);
    let mut i: u64 = 1;
    while i <= 5
        invariant
            1 <= i <= 6,
            views(cols@) == start + cand_cols(suffix@).take(i - 1),
        decreases 6 - i,
    {
        let mut v = chars_of("cand");
        push_dec(&mut v, i);
        let sv = chars_of(suffix);
        let mut k: usize = 0;
        let ghost base = v@;
        while k < sv.len()
            invariant
                k <= sv@.len(),
                v@ == base + sv@.take(k as int),
            decreases sv@.len() - k,
        {
            v.push(sv[k]);
            assert(sv@.take(k + 1) =~= sv@.take(k as int).push(sv@[k as int]));
            k = k + 1;
        }
        assert(sv@.take(sv@.len() as int) =~= sv@);
        let ghost old_cols = views(cols@);
        cols.push(string_from_chars(v.as_slice()));
        proof {
            assert(views(cols@) =~= old_cols.push(v@));
            assert(cand_cols(suffix@)[i - 1] == "cand"@ + dec_digits(i as nat) + suffix@);
            assert(v@ =~= "cand"@ + dec_digits(i as nat) + suffix@);
            assert(cand_cols(suffix@).take(i as int) =~= cand_cols(suffix@).take(i - 1).push(
                cand_cols(suffix@)[i - 1],
            ));
        }
        i = i + 1;
    }
    assert(cand_cols(suffix@).take(5) =~= cand_cols(suffix@));
}

/// Column names of the detail CSV (35 columns: 9 locator, 4 decision,
/// 15 candidate, 7 choice and luck columns).
pub fn detail_header() -> (h: Vec<String>)
    ensures
        views(h@) == detail_header_spec(),
        h@.len() == 35,
{
    let mut cols: Vec<String> = Vec::new();
    push_lit(&mut cols, "game");
    push_lit(&mut cols, "file");
    push_lit(&mut cols, "turn");
    push_lit(&mut cols, "seq");
    push_lit(&mut cols, "source");
    push_lit(&mut cols, "playing_state");
    push_lit(&mut cols, "stage");
    push_lit(&mut cols, "outcome");
    push_lit(&mut cols, "reason");
    push_lit(&mut cols, "step");
    push_lit(&mut cols, "chain_len");
    push_lit(&mut cols, "decision_kind");
    push_lit(&mut cols, "n_actions");
    push_cand_cols(&mut cols, "_desc");
    push_cand_cols(&mut cols, "_score");
    push_cand_cols(&mut cols, "_n");
    push_lit(&mut cols, "chosen_idx");
    push_lit(&mut cols, "chosen_desc");
    push_lit(&mut cols, "chosen_action_luck");
    push_lit(&mut cols, "t_n_raw");
    push_lit(&mut cols, "t_n_display");
    push_lit(&mut cols, "total_luck");
    push_lit(&mut cols, "turn_delta");
    assert(views(cols@) =~= detail_header_spec());
    cols
}

/// Luck columns of a decision row, formatted by the caller (two decimals;
/// empty where the value is missing).
#[derive(Debug, Default)]
pub struct LuckCols {
    /// Luck of the chosen action.
    pub chosen_luck: String,
    /// Raw terminal baseline T(n).
    pub t_raw: String,
    /// Displayed terminal baseline.
    pub t_display: String,
    /// Total luck score.
    pub total: String,
    /// Luck change of the last turn.
    pub delta: String,
}

/// One decision as a detail row reads it.
#[derive(Debug)]
pub struct DecisionInfo {
    /// Index of the chosen candidate.
    pub action_index: usize,
    /// Kind of decision (`train`, `ramen_select`, ...).
    pub decision_kind: String,
    /// Candidate descriptions, in candidate order.
    pub candidate_descriptions: Vec<String>,
    /// Candidate scores, formatted with two decimals.
    pub candidate_scores: Vec<String>,
    /// Search visits of each candidate.
    pub candidate_n: Vec<u64>,
    /// Luck columns, where the decision carries luck data.
    pub luck: Option<LuckCols>,
}

impl Default for DecisionInfo {
    fn default() -> (d: Self)
        ensures
            d.action_index == 0,
            d.decision_kind@ == Seq::<char>::empty(),
            d.candidate_descriptions@.len() == 0,
            d.candidate_scores@.len() == 0,
            d.candidate_n@.len() == 0,
            d.luck is None,
    {
        DecisionInfo {
            action_index: 0,
            decision_kind: String::new(),
            candidate_descriptions: Vec::new(),
            candidate_scores: Vec::new(),
            candidate_n: Vec::new(),
            luck: None,
        }
    }
}

/// The game as a decision sees it.
#[derive(Debug, Clone, Copy, Default)]
pub struct GameView {
    /// Current turn.
    pub turn: u32,
    /// Number of turns of the scenario.
    pub max_turn: u32,
}

/// The `i`-th entry, or the empty column past the end.
pub open spec fn col_at(v: Seq<Seq<char>>, i: int) -> Seq<char> {
    if 0 <= i < v.len() {
        v[i]
    } else {
        Seq::empty()
    }
}

/// The first five entries, padded with empty columns.
pub open spec fn cand_block(v: Seq<Seq<char>>) -> Seq<Seq<char>> {
    Seq::new(5, |i: int| col_at(v, i))
}

/// Decimal views of a list of counts.
pub open spec fn dec_views(v: Seq<u64>) -> Seq<Seq<char>> {
    v.map_values(|n: u64| dec_digits(n as nat))
}

/// The 13 leading columns: locator, outcome, chain position and decision kind.
pub open spec fn row_head(
    snap: SnapRef,
    outcome: Seq<char>,
    reason: Seq<char>,
    emit: Option<DecisionInfo>,
    chain_len: usize,
    step: usize,
) -> Seq<Seq<char>> {
    seq![
        dec_digits(snap.game as nat),
        snap.file@,
        dec_digits(snap.turn as nat),
        dec_digits(snap.seq as nat),
        snap.source@,
        dec_digits(snap.playing_state as nat),
        snap.stage@,
        outcome,
        reason,
        if chain_len > 0 { dec_digits((step + 1) as nat) } else { Seq::empty() },
        if chain_len > 0 { dec_digits(chain_len as nat) } else { Seq::empty() },
        match emit { Some(info) => info.decision_kind@, None => Seq::empty() },
        match emit { Some(info) => dec_digits(info.candidate_descriptions@.len()), None => Seq::empty() },
    ]
}

/// The 15 candidate columns (descriptions, scores, visits).
pub open spec fn row_cands(emit: Option<DecisionInfo>) -> Seq<Seq<char>> {
    match emit {
        Some(info) => cand_block(views(info.candidate_descriptions@)) + cand_block(views(info.candidate_scores@))
            + cand_block(dec_views(info.candidate_n@)),
        None => Seq::new(15, |i: int| Seq::<char>::empty()),
    }
}

/// The 7 trailing columns: the choice and the luck columns.
pub open spec fn row_tail(emit: Option<DecisionInfo>) -> Seq<Seq<char>> {
    match emit {
        Some(info) => seq![
            dec_digits(info.action_index as nat),
            col_at(views(info.candidate_descriptions@), info.action_index as int),
        ] + match info.luck {
            Some(l) => seq![l.chosen_luck@, l.t_raw@, l.t_display@, l.total@, l.delta@],
            None => Seq::new(5, |i: int| Seq::<char>::empty()),
        },
        None => Seq::new(7, |i: int| Seq::<char>::empty()),
    }
}

/// A detail row, column for column as [`detail_header_spec`] names them.
pub open spec fn build_row_spec(
    snap: SnapRef,
    outcome: Seq<char>,
    reason: Seq<char>,
    emit: Option<DecisionInfo>,
    chain_len: usize,
    step: usize,
) -> Seq<Seq<char>> {
    row_head(snap, outcome, reason, emit, chain_len, step) + row_cands(emit) + row_tail(emit)
}

fn push_col(cols: &mut Vec<String>, s: String)
    ensures
        views(final(cols)@) == views(old(cols)@).push(s@),
{
    let ghost sv = s@;
    cols.push(s);
    assert(views(cols@) =~= views(old(cols)@).push(sv));
}

fn push_block(cols: &mut Vec<String>, v: &Vec<String>)
    ensures
        views(final(cols)@) == views(old(cols)@) + cand_block(views(v@)),
{
    let ghost start = views(cols@);
    let ghost block = cand_block(views(v@));
    let mut i: usize = 0;
    while i < MAX_CAND_COLS
        invariant
            i <= 5,
            block == cand_block(views(v@)),
            views(cols@) == start + block.take(i as int),
        decreases 5 - i,
    {
        let c = if i < v.len() { v[i].clone() } else { String::new() };
        assert(c@ == block[i as int]);
        push_col(cols, c);
        assert(block.take(i + 1) =~= block.take(i as int).push(block[i as int]));
        i = i + 1;
    }
    assert(block.take(5) =~= block);
}

fn push_empty(cols: &mut Vec<String>, n: usize)
    ensures
        views(final(cols)@) == views(old(cols)@) + Seq::new(n as nat, |i: int| Seq::<char>::empty()),
{
    let mut i: usize = 0;
    while i < n
        invariant
            i <= n,
            views(cols@) == views(old(cols)@) + Seq::new(i as nat, |k: int| Seq::<char>::empty()),
        decreases n - i,
    {
        push_col(cols, String::new());
        assert(Seq::new((i + 1) as nat, |k: int| Seq::<char>::empty()) =~= Seq::new(
            i as nat,
            |k: int| Seq::<char>::empty(),
        ).push(Seq::<char>::empty()));
        i = i + 1;
    }
}

fn dec_strings(v: &Vec<u64>) -> (r: Vec<String>)
    ensures
        views(r@) == dec_views(v@),
{
    let mut r: Vec<String> = Vec::new();
    let mut i: usize = 0;
    while i < v.len()
        invariant
            i <= v@.len(),
            views(r@) == dec_views(v@.take(i as int)),
        decreases v@.len() - i,
    {
        push_col(&mut r, crate::text::dec_string(v[i]));
        assert(v@.take(i + 1) =~= v@.take(i as int).push(v@[i as int]));
        assert(dec_views(v@.take(i + 1)) =~= dec_views(v@.take(i as int)).push(dec_digits(v@[i as int] as nat)));
        i = i + 1;
    }
    assert(v@.take(v@.len() as int) =~= v@);
    r
}

fn push_row_head(
    cols: &mut Vec<String>,
    snap: &SnapRef,
    outcome: &str,
    reason: &str,
    emit: Option<&DecisionInfo>,
    chain_len: usize,
    step: usize,
)
    requires
        chain_len > 0 ==> step < usize::MAX,
    ensures
        views(final(cols)@) == views(old(cols)@) + row_head(
            *snap,
            outcome@,
            reason@,
            match emit { Some(e) => Some(*e), None => None },
            chain_len,
            step,
        ),
{
    let ghost start = views(cols@);
    push_col(cols, crate::text::dec_string(snap.game));
    push_col(cols, snap.file.clone());
    push_col(cols, crate::text::dec_string(snap.turn as u64));
    push_col(cols, crate::text::dec_string(snap.seq as u64));
    push_col(cols, snap.source.clone());
    push_col(cols, crate::text::dec_string(snap.playing_state));
    push_col(cols, snap.stage.clone());
    push_col(cols, outcome.to_owned());
    push_col(cols, reason.to_owned());
    if chain_len > 0 {
        push_col(cols, crate::text::dec_string((step + 1) as u64));
        push_col(cols, crate::text::dec_string(chain_len as u64));
    } else {
        push_col(cols, String::new());
        push_col(cols, String::new());
    }
    match emit {
        Some(info) => {
            push_col(cols, info.decision_kind.clone());
            push_col(cols, crate::text::dec_string(info.candidate_descriptions.len() as u64));
        },
        None => {
            push_col(cols, String::new());
            push_col(cols, String::new());
        },
    }
    assert(views(cols@) =~= start + row_head(
        *snap,
        outcome@,
        reason@,
        match emit { Some(e) => Some(*e), None => None },
        chain_len,
        step,
    ));
}

/// One detail row, column for column as [`detail_header`] names them: the
/// snapshot locator, outcome and reason, the chain position (only where
/// `chain_len > 0`), and for a decision its kind, candidate count, the first
/// five candidates, the choice and its luck columns; empty columns otherwise.
pub fn build_row(
    snap: &SnapRef,
    outcome: &str,
    reason: &str,
    emit: Option<&DecisionInfo>,
    chain_len: usize,
    step: usize,
) -> (row: Vec<String>)
    requires
        chain_len > 0 ==> step < usize::MAX,
    ensures
        views(row@) == build_row_spec(
            *snap,
            outcome@,
            reason@,
            match emit { Some(e) => Some(*e), None => None },
            chain_len,
            step,
        ),
        row@.len() == 35,
{
    let ghost e = match emit { Some(e) => Some(*e), None => None };
    let mut cols: Vec<String> = Vec::new();
    push_row_head(&mut cols, snap, outcome, reason, emit, chain_len, step);
    let ghost head = views(cols@);
    match emit {
        Some(info) => {
            push_block(&mut cols, &info.candidate_descriptions);
            push_block(&mut cols, &info.candidate_scores);
            let ns = dec_strings(&info.candidate_n);
            push_block(&mut cols, &ns);
            assert(views(cols@) =~= head + row_cands(e));
            let ghost mid = views(cols@);
            push_col(&mut cols, crate::text::dec_string(info.action_index as u64));
            let chosen = if info.action_index < info.candidate_descriptions.len() {
                info.candidate_descriptions[info.action_index].clone()
            } else {
                String::new()
            };
            push_col(&mut cols, chosen);
            match &info.luck {
                Some(l) => {
                    push_col(&mut cols, l.chosen_luck.clone());
                    push_col(&mut cols, l.t_raw.clone());
                    push_col(&mut cols, l.t_display.clone());
                    push_col(&mut cols, l.total.clone());
                    push_col(&mut cols, l.delta.clone());
                },
                None => {
                    push_empty(&mut cols, 5);
                },
            }
            assert(views(cols@) =~= mid + row_tail(e));
        },
        None => {
            push_empty(&mut cols, 15);
            assert(views(cols@) =~= head + row_cands(e));
            let ghost mid = views(cols@);
            push_empty(&mut cols, 7);
            assert(views(cols@) =~= mid + row_tail(e));
        },
    }
    assert(views(cols@) =~= build_row_spec(*snap, outcome@, reason@, e, chain_len, step));
    cols
}

/// What the classification of a `Begin` snapshot reads of the raw snapshot
/// (missing values read as 0, empty or `None`).
#[derive(Debug, Default)]
pub struct BeginSnapshot {
    /// `baseGame.turn`.
    pub turn: u64,
    /// `baseGame.source`.
    pub source: String,
    /// `baseGame.playing_state`.
    pub playing_state: u64,
    /// `ramen.selected_regions`, where it is an array (entries that are not
    /// unsigned integers read as 0).
    pub selected_regions: Option<Vec<u64>>,
    /// Length of `ramen.active_effect_array`, where it is an array.
    pub active_effect_len: Option<usize>,
}

/// The selected regions are present and all zero (region data not yet sent).
pub open spec fn regions_unset(regions: Option<Seq<u64>>) -> bool {
    match regions {
        Some(r) => all_zero_spec(r),
        None => false,
    }
}

/// Every entry is zero.
pub open spec fn all_zero_spec(r: Seq<u64>) -> bool {
    forall|i: int| 0 <= i < r.len() ==> r[i] == 0
}

/// The active effect array is missing, not an array, or empty.
pub open spec fn active_effect_empty(len: Option<usize>) -> bool {
    match len {
        Some(n) => n == 0,
        None => true,
    }
}

/// Why a snapshot dispatched to `Begin` has no decision, in the order the
/// protocol's stage dispatch tests the cases.
pub open spec fn begin_reason_spec(
    turn: u64,
    source: Seq<char>,
    playing_state: u64,
    regions: Option<Seq<u64>>,
    active_len: Option<usize>,
) -> Seq<char> {
    if 2 <= turn <= 71 && regions_unset(regions) {
        "data_incomplete(selected_regions=0)"@
    } else if source == "event"@ {
        "event"@
    } else if playing_state == 5 {
        "playing_state=5(event)"@
    } else if playing_state == 46 {
        "rmj_settle(46)"@
    } else if playing_state == 48 {
        "rmj_final(48)"@
    } else if turn >= 72 && active_effect_empty(active_len) {
        "super_ramen_drop(active_effect empty)"@
    } else {
        "begin_unclassified"@
    }
}

/// View of optional selected regions.
pub open spec fn regions_view(r: Option<Vec<u64>>) -> Option<Seq<u64>> {
    match r {
        Some(v) => Some(v@),
        None => None,
    }
}

fn all_zero(v: &Vec<u64>) -> (b: bool)
    ensures
        b == all_zero_spec(v@),
{
    let mut i: usize = 0;
    while i < v.len()
        invariant
            i <= v@.len(),
            forall|k: int| 0 <= k < i ==> v@[k] == 0,
        decreases v@.len() - i,
    {
        if v[i] != 0 {
            assert(!all_zero_spec(v@)) by {
                assert(v@[i as int] != 0);
            }
            return false;
        }
        i = i + 1;
    }
    true
}

/// Labels a snapshot whose stage after dispatch is `Begin` with the reason
/// it carries no decision (see [`begin_reason_spec`]).
pub fn classify_begin_reason(snap: &BeginSnapshot) -> (r: &'static str)
    ensures
        r@ == begin_reason_spec(
            snap.turn,
            snap.source@,
            snap.playing_state,
            regions_view(snap.selected_regions),
            snap.active_effect_len,
        ),
{
    let unset = match &snap.selected_regions {
        Some(v) => all_zero(v),
        None => false,
    };
    let effect_empty = match snap.active_effect_len {
        Some(n) => n == 0,
        None => true,
    };
    let event = "event".to_owned();
    let is_event = snap.source == event;
    if 2 <= snap.turn && snap.turn <= 71 && unset {
        "data_incomplete(selected_regions=0)"
    } else if is_event {
        "event"
    } else if snap.playing_state == 5 {
        "playing_state=5(event)"
    } else if snap.playing_state == 46 {
        "rmj_settle(46)"
    } else if snap.playing_state == 48 {
        "rmj_final(48)"
    } else if snap.turn >= 72 && effect_empty {
        "super_ramen_drop(active_effect empty)"
    } else {
        "begin_unclassified"
    }
}

/// `game{id}`, or `game_unknown` when the game is not known.
pub open spec fn game_name_spec(game: Option<u64>) -> Seq<char> {
    match game {
        Some(id) => "game"@ + dec_digits(id as nat),
        None => "game_unknown"@,
    }
}

/// Snapshot file name: `game{id}_turn{turn}.json`, or
/// `game{id}_turn{turn}_{seq}.json` when `seq > 0`.
pub open spec fn snapshot_file_name_spec(game: Option<u64>, turn: u32, seq: u32) -> Seq<char> {
    if seq > 0 {
        game_name_spec(game) + "_turn"@ + dec_digits(turn as nat) + seq!['_'] + dec_digits(seq as nat) + ".json"@
    } else {
        game_name_spec(game) + "_turn"@ + dec_digits(turn as nat) + ".json"@
    }
}

/// File name of the `n`-th unparsed snapshot: `game{id}_unparsed_{n}.json`.
pub open spec fn unparsed_file_name_spec(game: Option<u64>, n: u64) -> Seq<char> {
    game_name_spec(game) + "_unparsed_"@ + dec_digits(n as nat) + ".json"@
}

fn append_str(v: &mut Vec<char>, s: &str)
    ensures
        final(v)@ == old(v)@ + s@,
{
    let sv = chars_of(s);
    let mut k: usize = 0;
    while k < sv.len()
        invariant
            k <= sv@.len(),
            v@ == old(v)@ + sv@.take(k as int),
        decreases sv@.len() - k,
    {
        v.push(sv[k]);
        assert(sv@.take(k + 1) =~= sv@.take(k as int).push(sv@[k as int]));
        k = k + 1;
    }
    assert(sv@.take(sv@.len() as int) =~= sv@);
}

fn push_game_name(v: &mut Vec<char>, game: Option<u64>)
    ensures
        final(v)@ == old(v)@ + game_name_spec(game),
{
    match game {
        Some(id) => {
            append_str(v, "game");
            push_dec(v, id);
            assert(v@ =~= old(v)@ + game_name_spec(game));
        },
        None => {
            append_str(v, "game_unknown");
        },
    }
}

/// `game{id}` / `game_unknown`.
pub fn game_name(game: Option<u64>) -> (s: String)
    ensures
        s@ == game_name_spec(game),
{
    let mut v: Vec<char> = Vec::new();
    push_game_name(&mut v, game);
    assert(v@ =~= game_name_spec(game));
    string_from_chars(v.as_slice())
}

/// Name of a stored snapshot (see [`snapshot_file_name_spec`]).
pub fn snapshot_file_name(game: Option<u64>, turn: u32, seq: u32) -> (s: String)
    ensures
        s@ == snapshot_file_name_spec(game, turn, seq),
{
    let mut v: Vec<char> = Vec::new();
    push_game_name(&mut v, game);
    append_str(&mut v, "_turn");
    push_dec(&mut v, turn as u64);
    if seq > 0 {
        v.push('_');
        push_dec(&mut v, seq as u64);
    }
    append_str(&mut v, ".json");
    assert(v@ =~= snapshot_file_name_spec(game, turn, seq));
    string_from_chars(v.as_slice())
}

/// Name of the `n`-th snapshot that failed to parse.
pub fn unparsed_file_name(game: Option<u64>, n: u64) -> (s: String)
    ensures
        s@ == unparsed_file_name_spec(game, n),
{
    let mut v: Vec<char> = Vec::new();
    push_game_name(&mut v, game);
    append_str(&mut v, "_unparsed_");
    push_dec(&mut v, n);
    append_str(&mut v, ".json");
    assert(v@ =~= unparsed_file_name_spec(game, n));
    string_from_chars(v.as_slice())
}

/// The name without its `.json` suffix, if it has one.
pub open spec fn strip_json(name: Seq<char>) -> Option<Seq<char>> {
    if name.len() >= 5 && name.skip(name.len() - 5) == ".json"@ {
        Some(name.take(name.len() - 5))
    } else {
        None
    }
}

/// The stem without its `game` prefix, if it has one.
pub open spec fn strip_game(stem: Seq<char>) -> Option<Seq<char>> {
    if stem.len() >= 4 && stem.take(4) == "game"@ {
        Some(stem.skip(4))
    } else {
        None
    }
}

/// Turn and sequence number of the part after `_turn`: the turn runs up to
/// the first `_`, the sequence number (0 when there is no `_`) follows it.
pub open spec fn parse_turn_seq(rest: Seq<char>) -> Option<(nat, nat)> {
    match first_occurrence(rest, seq!['_']) {
        Some(j) => match (
            parse_unsigned(rest.take(j), u32::MAX as nat),
            parse_unsigned(rest.skip(j + 1), u32::MAX as nat),
        ) {
            (Some(t), Some(q)) => Some((t, q)),
            _ => None,
        },
        None => match parse_unsigned(rest, u32::MAX as nat) {
            Some(t) => Some((t, 0nat)),
            None => None,
        },
    }
}

/// Game, turn and sequence number of the part after `game`: the game is
/// everything before the first `_turn`.
pub open spec fn parse_body(body: Seq<char>) -> Option<(u64, u32, u32)> {
    match first_occurrence(body, "_turn"@) {
        None => None,
        Some(k) => match (parse_unsigned(body.take(k), u64::MAX as nat), parse_turn_seq(body.skip(k + 5))) {
            (Some(g), Some((t, q))) => Some((g as u64, t as u32, q as u32)),
            _ => None,
        },
    }
}

/// Reads `(game, turn, seq)` back from a snapshot file name
/// `game{game}_turn{turn}[_{seq}].json`; `None` for any other name.
pub open spec fn parse_file_name_spec(name: Seq<char>) -> Option<(u64, u32, u32)> {
    match strip_json(name) {
        None => None,
        Some(stem) => match strip_game(stem) {
            None => None,
            Some(body) => parse_body(body),
        },
    }
}

fn slice_range(v: &Vec<char>, from: usize, to: usize) -> (r: Vec<char>)
    requires
        from <= to <= v@.len(),
    ensures
        r@ == v@.subrange(from as int, to as int),
{
    let mut r: Vec<char> = Vec::new();
    let mut i: usize = from;
    while i < to
        invariant
            from <= i <= to,
            to <= v@.len(),
            r@ == v@.subrange(from as int, i as int),
        decreases to - i,
    {
        r.push(v[i]);
        assert(v@.subrange(from as int, i + 1) =~= v@.subrange(from as int, i as int).push(v@[i as int]));
        i = i + 1;
    }
    r
}

fn strip_json_exec(cs: &Vec<char>) -> (r: Option<Vec<char>>)
    ensures
        match strip_json(cs@) {
            Some(t) => r is Some && r->0@ == t,
            None => r is None,
        },
{
    proof {
        reveal_strlit(".json");
    }
    let n = cs.len();
    if n < 5 || cs[n - 5] != '.' || cs[n - 4] != 'j' || cs[n - 3] != 's' || cs[n - 2] != 'o' || cs[n - 1] != 'n' {
        proof {
            if n >= 5 {
                let suffix = cs@.skip(n - 5);
                if suffix == ".json"@ {
                    assert(suffix[0] == '.' && suffix[1] == 'j' && suffix[2] == 's' && suffix[3] == 'o' && suffix[4] == 'n');
                }
            }
        }
        return None;
    }
    assert(cs@.skip(n - 5) =~= ".json"@);
    Some(slice_range(cs, 0, n - 5))
}

fn strip_game_exec(stem: &Vec<char>) -> (r: Option<Vec<char>>)
    ensures
        match strip_game(stem@) {
            Some(t) => r is Some && r->0@ == t,
            None => r is None,
        },
{
    proof {
        reveal_strlit("game");
    }
    let m = stem.len();
    if m < 4 || stem[0] != 'g' || stem[1] != 'a' || stem[2] != 'm' || stem[3] != 'e' {
        proof {
            if m >= 4 && stem@.take(4) == "game"@ {
                assert(stem@.take(4)[0] == 'g' && stem@.take(4)[1] == 'a' && stem@.take(4)[2] == 'm'
                    && stem@.take(4)[3] == 'e');
            }
        }
        return None;
    }
    assert(stem@.take(4) =~= "game"@);
    Some(slice_range(stem, 4, m))
}

fn parse_turn_seq_exec(rest: &Vec<char>) -> (r: Option<(u32, u32)>)
    ensures
        match parse_turn_seq(rest@) {
            Some((t, q)) => r == Some((t as u32, q as u32)),
            None => r is None,
        },
{
    let under = vec!['_'];
    assert(under@ =~= seq!['_']);
    match find_sub(rest.as_slice(), under.as_slice()) {
        Some(j) => parse_turn_seq_split(rest, j),
        None => match parse_unsigned_chars(rest.as_slice(), u32::MAX as u64) {
            Some(tv) => Some((tv as u32, 0)),
            None => None,
        },
    }
}

fn parse_turn_seq_split(rest: &Vec<char>, j: usize) -> (r: Option<(u32, u32)>)
    requires
        first_occurrence(rest@, seq!['_']) == Some(j as int),
    ensures
        match parse_turn_seq(rest@) {
            Some((t, q)) => r == Some((t as u32, q as u32)),
            None => r is None,
        },
{
    proof {
        crate::text::lemma_first_occurrence_props(rest@, seq!['_']);
        assert(occurs_at(rest@, seq!['_'], j as int));
        assert(seq!['_'].len() == 1);
        assert(j + 1 <= rest@.len());
    }
    let t = slice_range(rest, 0, j);
    let n = rest.len();
    assert(j < n);
    let q = slice_range(rest, j + 1, n);
    assert(t@ =~= rest@.take(j as int));
    assert(q@ =~= rest@.skip(j + 1));
    let tv = parse_unsigned_chars(t.as_slice(), u32::MAX as u64);
    let qv = parse_unsigned_chars(q.as_slice(), u32::MAX as u64);
    match (tv, qv) {
        (Some(tv), Some(qv)) => Some((tv as u32, qv as u32)),
        _ => None,
    }
}

fn parse_body_exec(body: &Vec<char>) -> (r: Option<(u64, u32, u32)>)
    ensures
        r == parse_body(body@),
{
    proof {
        reveal_strlit("_turn");
    }
    let turn_pat = chars_of("_turn");
    let k = match find_sub(body.as_slice(), turn_pat.as_slice()) {
        Some(k) => k,
        None => return None,
    };
    proof {
        crate::text::lemma_first_occurrence_props(body@, turn_pat@);
    }
    let blen = body.len();
    assert(k + 5 <= body@.len());
    let game_s = slice_range(body, 0, k);
    assert(game_s@ =~= body@.take(k as int));
    let rest = slice_range(body, k + 5, body.len());
    assert(rest@ =~= body@.skip(k + 5));
    match (parse_unsigned_chars(game_s.as_slice(), u64::MAX), parse_turn_seq_exec(&rest)) {
        (Some(g), Some((t, q))) => Some((g, t, q)),
        _ => None,
    }
}

/// Reads `(game, turn, seq)` from a snapshot file name (see [`parse_file_name_spec`]).
pub fn parse_file_name(name: &str) -> (r: Option<(u64, u32, u32)>)
    ensures
        r == parse_file_name_spec(name@),
{
    let cs = chars_of(name);
    let stem = match strip_json_exec(&cs) {
        Some(s) => s,
        None => return None,
    };
    let body = match strip_game_exec(&stem) {
        Some(b) => b,
        None => return None,
    };
    parse_body_exec(&body)
}

/// The decimal digits of a number are digits and read back as the number.
pub proof fn lemma_dec_digits_read_back(n: nat)
    ensures
        dec_digits(n).len() > 0,
        all_digits(dec_digits(n)),
        digits_value(dec_digits(n)) == n,
    decreases n,
{
    let d = dec_digits(n);
    let m = n % 10;
    assert(char_digit(digit_char(m)) == Some(m));
    if n >= 10 {
        lemma_dec_digits_read_back(n / 10);
        assert(d.drop_last() =~= dec_digits(n / 10));
        assert(d.last() == digit_char(m));
        assert(digits_value(d) == digits_value(d.drop_last()) * 10 + m);
        assert forall|i: int| 0 <= i < d.len() implies (#[trigger] char_digit(d[i])) is Some by {
            if i < d.len() - 1 {
                assert(d[i] == dec_digits(n / 10)[i]);
            }
        }
    } else {
        assert(m == n);
        assert(d =~= seq![digit_char(n)]);
        assert(d.drop_last() =~= Seq::<char>::empty());
        assert(digits_value(Seq::<char>::empty()) == 0);
        assert(digits_value(d) == digits_value(d.drop_last()) * 10 + n);
    }
}

/// A number written in decimal reads back as itself.
pub proof fn lemma_parse_dec(n: nat, max: nat)
    requires
        n <= max,
    ensures
        parse_unsigned(dec_digits(n), max) == Some(n),
{
    reveal(parse_unsigned);
    lemma_dec_digits_read_back(n);
    assert(char_digit(dec_digits(n)[0]) is Some);
}

proof fn lemma_digits_not_at(s: Seq<char>, tail: Seq<char>, pat: Seq<char>, j: int)
    requires
        all_digits(s),
        pat.len() > 0,
        pat[0] == '_',
        0 <= j < s.len(),
    ensures
        !occurs_at(s + tail, pat, j),
{
    if occurs_at(s + tail, pat, j) {
        assert((s + tail).subrange(j, j + pat.len())[0] == pat[0]);
        assert((s + tail)[j] == s[j]);
        assert(char_digit(s[j]) is Some);
    }
}

proof fn lemma_no_occurrence_in_digits(s: Seq<char>, tail: Seq<char>, pat: Seq<char>)
    requires
        all_digits(s),
        pat.len() > 0,
        pat[0] == '_',
        occurs_at(s + tail, pat, s.len() as int),
    ensures
        first_occurrence(s + tail, pat) == Some(s.len() as int),
{
    assert forall|j: int| 0 <= j < s.len() implies !occurs_at(s + tail, pat, j) by {
        lemma_digits_not_at(s, tail, pat, j);
    }
    lemma_first_occurrence(s + tail, pat, s.len() as int);
}

proof fn lemma_digits_have_no_underscore(s: Seq<char>)
    requires
        all_digits(s),
    ensures
        first_occurrence(s, seq!['_']) is None,
{
    assert forall|j: int| !occurs_at(s, seq!['_'], j) by {
        if 0 <= j < s.len() {
            lemma_digits_not_at(s, Seq::empty(), seq!['_'], j);
            assert(s + Seq::<char>::empty() =~= s);
        }
    }
    crate::text::lemma_no_occurrence(s, seq!['_']);
}

proof fn lemma_parse_turn_only(turn: u32)
    ensures
        parse_turn_seq(dec_digits(turn as nat)) == Some((turn as nat, 0nat)),
{
    lemma_dec_digits_read_back(turn as nat);
    lemma_parse_dec(turn as nat, u32::MAX as nat);
    lemma_digits_have_no_underscore(dec_digits(turn as nat));
}

proof fn lemma_parse_turn_and_seq(turn: u32, seq: u32)
    ensures
        parse_turn_seq(dec_digits(turn as nat) + (seq!['_'] + dec_digits(seq as nat)))
            == Some((turn as nat, seq as nat)),
{
    let td = dec_digits(turn as nat);
    let qd = dec_digits(seq as nat);
    let tail = seq!['_'] + qd;
    let rest = td + tail;
    lemma_dec_digits_read_back(turn as nat);
    lemma_parse_dec(turn as nat, u32::MAX as nat);
    lemma_parse_dec(seq as nat, u32::MAX as nat);
    assert(rest.subrange(td.len() as int, td.len() as int + 1) =~= seq!['_']);
    lemma_no_occurrence_in_digits(td, tail, seq!['_']);
    assert(rest.take(td.len() as int) =~= td);
    assert(rest.skip(td.len() as int + 1) =~= qd);
}

proof fn lemma_parse_turn_seq(turn: u32, seq: u32)
    ensures
        ({
            let td = dec_digits(turn as nat);
            let tail: Seq<char> = if seq > 0 { seq!['_'] + dec_digits(seq as nat) } else { Seq::empty() };
            parse_turn_seq(td + tail) == Some((turn as nat, seq as nat))
        }),
{
    let td = dec_digits(turn as nat);
    if seq > 0 {
        lemma_parse_turn_and_seq(turn, seq);
    } else {
        lemma_parse_turn_only(turn);
        assert(td + Seq::<char>::empty() =~= td);
    }
}

proof fn lemma_parse_body(game: u64, rest: Seq<char>, t: nat, q: nat)
    requires
        parse_turn_seq(rest) == Some((t, q)),
    ensures
        parse_body(dec_digits(game as nat) + ("_turn"@ + rest)) == Some((game, t as u32, q as u32)),
{
    reveal_strlit("_turn");
    let gd = dec_digits(game as nat);
    let pat = "_turn"@;
    lemma_dec_digits_read_back(game as nat);
    lemma_parse_dec(game as nat, u64::MAX as nat);
    let body = gd + (pat + rest);
    assert(body.subrange(gd.len() as int, gd.len() as int + 5) =~= pat);
    lemma_no_occurrence_in_digits(gd, pat + rest, pat);
    assert(body.take(gd.len() as int) =~= gd);
    assert(body.skip(gd.len() as int + 5) =~= rest);
}

/// The replay reads back every snapshot name the recorder writes for a known
/// game: `parse_file_name(snapshot_file_name(Some(g), t, q)) == Some((g, t, q))`.
pub proof fn lemma_snapshot_name_roundtrip(game: u64, turn: u32, seq: u32)
    ensures
        parse_file_name_spec(snapshot_file_name_spec(Some(game), turn, seq)) == Some((game, turn, seq)),
{
    reveal_strlit(".json");
    reveal_strlit("game");
    let gd = dec_digits(game as nat);
    let td = dec_digits(turn as nat);
    let tail: Seq<char> = if seq > 0 { seq!['_'] + dec_digits(seq as nat) } else { Seq::empty() };
    let rest = td + tail;
    let name = snapshot_file_name_spec(Some(game), turn, seq);
    let body = gd + ("_turn"@ + rest);
    let stem = "game"@ + body;
    assert(name =~= stem + ".json"@);
    assert(name.skip(name.len() - 5) =~= ".json"@);
    assert(name.take(name.len() - 5) =~= stem);
    assert(stem.take(4) =~= "game"@);
    assert(stem.skip(4) =~= body);
    lemma_parse_turn_seq(turn, seq);
    lemma_parse_body(game, rest, turn as nat, seq as nat);
}

/// After packing, a game's directory is removed only where it is a
/// `game*` directory directly under `logs`.
pub open spec fn deletion_allowed_spec(parent: Option<Seq<char>>, name: Option<Seq<char>>) -> bool {
    &&& parent == Some("logs"@)
    &&& name matches Some(n) && n.len() >= 4 && n.take(4) == "game"@
}

/// Whether a packed game directory may be removed (see [`deletion_allowed_spec`]).
pub fn deletion_allowed(parent: Option<&str>, name: Option<&str>) -> (b: bool)
    ensures
        b == deletion_allowed_spec(
            match parent {
                Some(p) => Some(p@),
                None => None,
            },
            match name {
                Some(n) => Some(n@),
                None => None,
            },
        ),
{
    proof {
        reveal_strlit("logs");
        reveal_strlit("game");
    }
    let parent_ok = match parent {
        Some(p) => {
            let cs = chars_of(p);
            let ok = cs.len() == 4 && cs[0] == 'l' && cs[1] == 'o' && cs[2] == 'g' && cs[3] == 's';
            proof {
                if cs@ == "logs"@ {
                    assert(cs@[0] == 'l' && cs@[1] == 'o' && cs@[2] == 'g' && cs@[3] == 's');
                }
                if ok {
                    assert(cs@ =~= "logs"@);
                }
            }
            ok
        },
        None => false,
    };
    let name_ok = match name {
        Some(n) => {
            let cs = chars_of(n);
            let ok = cs.len() >= 4 && cs[0] == 'g' && cs[1] == 'a' && cs[2] == 'm' && cs[3] == 'e';
            proof {
                if cs@.len() >= 4 && cs@.take(4) == "game"@ {
                    assert(cs@.take(4)[0] == 'g' && cs@.take(4)[1] == 'a' && cs@.take(4)[2] == 'm'
                        && cs@.take(4)[3] == 'e');
                }
                if ok {
                    assert(cs@.take(4) =~= "game"@);
                }
            }
            ok
        },
        None => false,
    };
    parent_ok && name_ok
}

} // verus!
