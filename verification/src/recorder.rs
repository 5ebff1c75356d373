//! Decisions of the online recorder: which snapshot files, detail rows and
//! meta records a stream of snapshots and decisions produces.
//!
//! The recorder keeps one game's record open at a time. Each entry point
//! updates the recorder and returns the actions the caller performs in order
//! (create the game directory, store the raw snapshot, append a CSV row,
//! write `meta.json` and the trend plot, close the game).

use vstd::prelude::*;

use crate::record::{
    opt_view, snapshot_file_name, snapshot_file_name_spec, unparsed_file_name, unparsed_file_name_spec,
    DecisionInfo, GameView, SnapMeta, SnapMetaModel, SnapRef, SnapRefModel,
};

verus! {

/// Why a game's record is closed.
#[derive(Debug, Clone, Copy, PartialEq, Eq, Structural)]
pub enum EndReason {
    /// Another game's snapshot arrived.
    Switch,
    /// The process is shutting down.
    ProcessExit,
    /// The second snapshot of the last turn has been processed.
    GameEnd,
}

impl EndReason {
    /// The `end_reason` written to `meta.json`.
    pub open spec fn spec_name(self) -> Seq<char> {
        match self {
            EndReason::Switch => "switch"@,
            EndReason::ProcessExit => "process_exit"@,
            EndReason::GameEnd => "game_end"@,
        }
    }

    /// The `end_reason` written to `meta.json`.
    pub fn as_str(&self) -> (s: &'static str)
        ensures
            s@ == self.spec_name(),
    {
        match self {
            EndReason::Switch => "switch",
            EndReason::ProcessExit => "process_exit",
            EndReason::GameEnd => "game_end",
        }
    }
}

/// What kind of detail row is written.
#[derive(Debug)]
pub enum RowKind {
    /// A decision (`outcome = calc`).
    Calc,
    /// A snapshot that dispatches no decision, with its reason.
    Skip(String),
    /// A snapshot that produced no decision.
    NoEmit,
}

/// A row kind as plain values.
pub ghost enum RowKindModel {
    Calc,
    Skip(Seq<char>),
    NoEmit,
}

impl View for RowKind {
    type V = RowKindModel;

    open spec fn view(&self) -> RowKindModel {
        match self {
            RowKind::Calc => RowKindModel::Calc,
            RowKind::Skip(r) => RowKindModel::Skip(r@),
            RowKind::NoEmit => RowKindModel::NoEmit,
        }
    }
}

impl RowKind {
    /// The `outcome` column.
    pub fn outcome(&self) -> (s: &'static str)
        ensures
            s@ == match self@ {
                RowKindModel::Calc => "calc"@,
                RowKindModel::Skip(_) => "skip"@,
                RowKindModel::NoEmit => "no_emit"@,
            },
    {
        match self {
            RowKind::Calc => "calc",
            RowKind::Skip(_) => "skip",
            RowKind::NoEmit => "no_emit",
        }
    }

    /// The `reason` column.
    pub fn reason(&self) -> (s: String)
        ensures
            s@ == match self@ {
                RowKindModel::Calc => Seq::<char>::empty(),
                RowKindModel::Skip(r) => r,
                RowKindModel::NoEmit => "no_decision"@,
            },
    {
        match self {
            RowKind::Calc => String::new(),
            RowKind::Skip(r) => r.clone(),
            RowKind::NoEmit => "no_decision".to_owned(),
        }
    }

    /// Whether the row records a decision.
    pub fn is_decision(&self) -> (b: bool)
        ensures
            b == (self@ is Calc),
    {
        match self {
            RowKind::Calc => true,
            _ => false,
        }
    }
}

/// The record of the current game as far as the recorder's decisions need it.
#[derive(Debug, Clone, Copy, PartialEq, Eq, Structural)]
pub struct GameCtx {
    /// Game id (`None`: unknown game).
    pub game: Option<u64>,
    /// Turn of the game's first snapshot (> 0: joined mid-game).
    pub start_turn: Option<u32>,
    /// Snapshots received for this game.
    pub snaps: u64,
    /// A snapshot of the last turn has arrived.
    pub end_turn_seen: bool,
    /// The second snapshot of the last turn arrived; the game closes once its
    /// decisions are written.
    pub end_pending: bool,
    /// `meta.json` and the plot were written at the game's end.
    pub end_done: bool,
}

/// The current snapshot: its locator and what has been written for it.
#[derive(Debug)]
pub struct SnapCtx {
    /// Locator columns of its rows.
    pub sref: SnapRef,
    /// Skip reason (a skipped snapshot gets no decision rows).
    pub skip: Option<String>,
    /// Whether a row has been written for it.
    pub emitted: bool,
}

/// The current snapshot as plain values.
pub ghost struct SnapCtxModel {
    pub sref: SnapRefModel,
    pub skip: Option<Seq<char>>,
    pub emitted: bool,
}

impl View for SnapCtx {
    type V = SnapCtxModel;

    open spec fn view(&self) -> SnapCtxModel {
        SnapCtxModel { sref: self.sref@, skip: opt_view(self.skip), emitted: self.emitted }
    }
}

/// What the raw snapshot's `baseGame` section says (missing values read as
/// `None`, empty or 0).
#[derive(Debug)]
pub struct BaseGameInfo {
    /// `baseGame.turn`.
    pub turn: Option<u32>,
    /// `baseGame.source`.
    pub source: String,
    /// `baseGame.playing_state`.
    pub playing_state: u64,
    /// `baseGame.umaId`.
    pub uma_id: Option<u32>,
}

/// The `baseGame` readings as plain values.
pub ghost struct BaseGameModel {
    pub turn: Option<u32>,
    pub source: Seq<char>,
    pub playing_state: u64,
    pub uma_id: Option<u32>,
}

impl View for BaseGameInfo {
    type V = BaseGameModel;

    open spec fn view(&self) -> BaseGameModel {
        BaseGameModel {
            turn: self.turn,
            source: self.source@,
            playing_state: self.playing_state,
            uma_id: self.uma_id,
        }
    }
}

/// What the caller does for the recorder.
#[derive(Debug)]
pub enum RecordAction {
    /// Create the game's directory (`game{id}` / `game_unknown`) and its
    /// `decisions.csv` with the header row.
    OpenGame { game: Option<u64>, start_turn: Option<u32>, uma_id: Option<u32> },
    /// Store the raw snapshot text under this name in the game's directory.
    StoreSnapshot { file: String },
    /// Append a detail row for this snapshot (a decision row takes the
    /// decision being recorded).
    WriteRow { sref: SnapRef, kind: RowKind },
    /// Write `meta.json` with this end reason.
    WriteMeta { reason: EndReason, record: GameCtx },
    /// Render the luck trend plot (`luck_trend.svg`) of the game's rows.
    RenderPlot { game: u64 },
    /// Pack the game's directory into `game{id}.zip` beside it and remove
    /// the directory.
    PackGame,
    /// Close the game's files.
    CloseGame,
}

/// An action as plain values.
pub ghost enum ActionModel {
    OpenGame { game: Option<u64>, start_turn: Option<u32>, uma_id: Option<u32> },
    StoreSnapshot { file: Seq<char> },
    WriteRow { sref: SnapRefModel, kind: RowKindModel },
    WriteMeta { reason: EndReason, record: GameCtx },
    RenderPlot { game: u64 },
    PackGame,
    CloseGame,
}

impl View for RecordAction {
    type V = ActionModel;

    open spec fn view(&self) -> ActionModel {
        match self {
            RecordAction::OpenGame { game, start_turn, uma_id } => ActionModel::OpenGame {
                game: *game,
                start_turn: *start_turn,
                uma_id: *uma_id,
            },
            RecordAction::StoreSnapshot { file } => ActionModel::StoreSnapshot { file: file@ },
            RecordAction::WriteRow { sref, kind } => ActionModel::WriteRow { sref: sref@, kind: kind@ },
            RecordAction::WriteMeta { reason, record } => ActionModel::WriteMeta { reason: *reason, record: *record },
            RecordAction::RenderPlot { game } => ActionModel::RenderPlot { game: *game },
            RecordAction::PackGame => ActionModel::PackGame,
            RecordAction::CloseGame => ActionModel::CloseGame,
        }
    }
}

/// Views of a list of actions.
pub open spec fn action_views(v: Seq<RecordAction>) -> Seq<ActionModel> {
    v.map_values(|a: RecordAction| a@)
}

/// The online recorder: the open game, the current snapshot and the
/// counters that name snapshot files.
#[derive(Debug)]
pub struct OnlineRecorder {
    /// Root directory of the records.
    pub logs_dir: String,
    /// The open game.
    pub game: Option<GameCtx>,
    /// The current snapshot.
    pub snap: Option<SnapCtx>,
    /// Turn of the last snapshot with a known turn.
    pub last_turn: Option<u32>,
    /// Sequence number of the last snapshot within its turn.
    pub seq: u32,
    /// Number of unparsed snapshots so far.
    pub unparsed: u64,
}

/// The recorder as plain values.
pub ghost struct RecorderModel {
    pub logs_dir: Seq<char>,
    pub game: Option<GameCtx>,
    pub snap: Option<SnapCtxModel>,
    pub last_turn: Option<u32>,
    pub seq: u32,
    pub unparsed: u64,
}

/// View of an optional snapshot context.
pub open spec fn snap_view(s: Option<SnapCtx>) -> Option<SnapCtxModel> {
    match s {
        Some(c) => Some(c@),
        None => None,
    }
}

impl View for OnlineRecorder {
    type V = RecorderModel;

    open spec fn view(&self) -> RecorderModel {
        RecorderModel {
            logs_dir: self.logs_dir@,
            game: self.game,
            snap: snap_view(self.snap),
            last_turn: self.last_turn,
            seq: self.seq,
            unparsed: self.unparsed,
        }
    }
}

/// `x + 1`, staying at the maximum.
pub open spec fn inc_u32(x: u32) -> u32 {
    if x < u32::MAX { (x + 1) as u32 } else { x }
}

/// `x + 1`, staying at the maximum.
pub open spec fn inc_u64(x: u64) -> u64 {
    if x < u64::MAX { (x + 1) as u64 } else { x }
}

/// The `no_emit` row owed by the current snapshot: one that was not skipped
/// and got no decision row.
pub open spec fn no_emit_rows(r: RecorderModel) -> Seq<ActionModel> {
    match r.snap {
        Some(p) => if p.skip is None && !p.emitted && r.game is Some {
            seq![ActionModel::WriteRow { sref: p.sref, kind: RowKindModel::NoEmit }]
        } else {
            Seq::empty()
        },
        None => Seq::empty(),
    }
}

/// Writing a game's meta: `meta.json` with the end reason, then the luck
/// trend plot, then, at the game's end, the archive.
pub open spec fn meta_acts(reason: EndReason, ctx: GameCtx) -> Seq<ActionModel> {
    seq![
        ActionModel::WriteMeta { reason, record: ctx },
        ActionModel::RenderPlot { game: match ctx.game { Some(g) => g, None => 0 } },
    ] + if reason == EndReason::GameEnd {
        seq![ActionModel::PackGame]
    } else {
        Seq::<ActionModel>::empty()
    }
}

/// Closing the current game: the owed `no_emit` row, the meta (see
/// [`meta_acts`]) unless it was written at the game's end, and closing the
/// files.
pub open spec fn finalize_model(r: RecorderModel, reason: EndReason) -> (RecorderModel, Seq<ActionModel>) {
    let rows = no_emit_rows(r);
    match r.game {
        None => (RecorderModel { snap: None, last_turn: None, ..r }, rows),
        Some(ctx) => (
            RecorderModel { game: None, snap: None, last_turn: None, ..r },
            rows + (if ctx.end_done {
                Seq::<ActionModel>::empty()
            } else {
                meta_acts(reason, ctx)
            }) + seq![ActionModel::CloseGame],
        ),
    }
}

/// Game id of the open game.
pub open spec fn current_game(r: RecorderModel) -> Option<u64> {
    match r.game {
        Some(c) => c.game,
        None => None,
    }
}

/// The game a snapshot belongs to: its own id, else the open game's.
pub open spec fn snapshot_game(r: RecorderModel, meta: SnapMetaModel) -> Option<u64> {
    match meta.game {
        Some(g) => Some(g),
        None => current_game(r),
    }
}

/// The snapshot's turn: the parsed one, else the raw `baseGame.turn`.
pub open spec fn snapshot_turn(meta: SnapMetaModel, raw: BaseGameModel) -> Option<u32> {
    match meta.turn {
        Some(t) => Some(t),
        None => raw.turn,
    }
}

/// Sequence number of a snapshot of turn `t`: 0 for the first of its turn,
/// then 2, 3, ...
pub open spec fn next_seq(last_turn: Option<u32>, seq: u32, t: u32) -> u32 {
    if last_turn == Some(t) {
        if seq == 0 { 2 } else { inc_u32(seq) }
    } else {
        0
    }
}

/// A fresh game record.
pub open spec fn new_game(game: Option<u64>, start_turn: Option<u32>) -> GameCtx {
    GameCtx { game, start_turn, snaps: 0, end_turn_seen: false, end_pending: false, end_done: false }
}

/// Closing the open game and opening the snapshot's, where the snapshot
/// belongs to another game or none is open.
pub open spec fn open_model(r: RecorderModel, meta: SnapMetaModel, raw: BaseGameModel) -> (
    RecorderModel,
    Seq<ActionModel>,
) {
    let g = snapshot_game(r, meta);
    if r.game is None || g != current_game(r) {
        let (f, acts) = finalize_model(r, EndReason::Switch);
        let t = snapshot_turn(meta, raw);
        (
            RecorderModel { game: Some(new_game(g, t)), ..f },
            acts.push(ActionModel::OpenGame { game: g, start_turn: t, uma_id: raw.uma_id }),
        )
    } else {
        (r, Seq::empty())
    }
}

/// The snapshot's file name, turn and sequence columns, and the counters after it.
pub open spec fn name_model(r: RecorderModel, game: Option<u64>, turn: Option<u32>) -> (
    RecorderModel,
    Seq<char>,
    u32,
    u32,
) {
    match turn {
        Some(t) => {
            let s = next_seq(r.last_turn, r.seq, t);
            (RecorderModel { seq: s, last_turn: Some(t), ..r }, snapshot_file_name_spec(game, t, s), t, s)
        },
        None => {
            let n = inc_u64(r.unparsed);
            (RecorderModel { unparsed: n, ..r }, unparsed_file_name_spec(game, n), 0, 0)
        },
    }
}

/// The game record after one more snapshot: counted, its first turn noted,
/// and the last turn's first and second snapshots marked.
pub open spec fn counted(ctx: GameCtx, turn: Option<u32>, max_turn: Option<u32>) -> GameCtx {
    let c = GameCtx {
        snaps: inc_u64(ctx.snaps),
        start_turn: if ctx.start_turn is None { turn } else { ctx.start_turn },
        ..ctx
    };
    match (max_turn, turn) {
        (Some(m), Some(t)) => if t >= m {
            if c.end_turn_seen {
                GameCtx { end_pending: true, ..c }
            } else {
                GameCtx { end_turn_seen: true, ..c }
            }
        } else {
            c
        },
        _ => c,
    }
}

/// A snapshot arrives: the previous snapshot's owed `no_emit` row, a game
/// switch, the stored raw snapshot and, for a skipped snapshot, its `skip` row.
pub open spec fn snapshot_model(r: RecorderModel, meta: SnapMetaModel, raw: BaseGameModel) -> (
    RecorderModel,
    Seq<ActionModel>,
) {
    let rows = no_emit_rows(r);
    let game = snapshot_game(r, meta);
    let turn = snapshot_turn(meta, raw);
    let (r1, open_acts) = open_model(RecorderModel { snap: None, ..r }, meta, raw);
    let (r2, file, turn_cell, seq_cell) = name_model(r1, game, turn);
    let sref = SnapRefModel {
        game: match game {
            Some(g) => g,
            None => 0,
        },
        file,
        turn: turn_cell,
        seq: seq_cell,
        source: raw.source,
        playing_state: raw.playing_state,
        stage: meta.stage,
    };
    let skip_rows = match meta.skip {
        Some(reason) => seq![ActionModel::WriteRow { sref, kind: RowKindModel::Skip(reason) }],
        None => Seq::empty(),
    };
    let ctx = match r2.game {
        Some(c) => Some(counted(c, turn, meta.max_turn)),
        None => None,
    };
    (
        RecorderModel {
            game: ctx,
            snap: Some(SnapCtxModel { sref, skip: meta.skip, emitted: meta.skip is Some }),
            ..r2
        },
        rows + open_acts + seq![ActionModel::StoreSnapshot { file }] + skip_rows,
    )
}

/// A decision is emitted: a `calc` row for the current snapshot unless it
/// was skipped.
pub open spec fn emit_model(r: RecorderModel) -> (RecorderModel, Seq<ActionModel>) {
    match r.snap {
        Some(s) => if s.skip is None {
            (
                RecorderModel { snap: Some(SnapCtxModel { emitted: true, ..s }), ..r },
                if r.game is Some {
                    seq![ActionModel::WriteRow { sref: s.sref, kind: RowKindModel::Calc }]
                } else {
                    Seq::empty()
                },
            )
        } else {
            (r, Seq::empty())
        },
        None => (r, Seq::empty()),
    }
}

/// A snapshot has been processed: at the game's end, `meta.json`, the plot and
/// the archive (see [`meta_acts`]).
pub open spec fn turn_done_model(r: RecorderModel) -> (RecorderModel, Seq<ActionModel>) {
    match r.game {
        Some(ctx) => if ctx.end_pending {
            (
                RecorderModel { game: Some(GameCtx { end_done: true, end_pending: false, ..ctx }), ..r },
                meta_acts(EndReason::GameEnd, ctx),
            )
        } else {
            (r, Seq::empty())
        },
        None => (r, Seq::empty()),
    }
}

fn push_action(acts: &mut Vec<RecordAction>, a: RecordAction)
    ensures
        action_views(final(acts)@) == action_views(old(acts)@).push(a@),
{
    let ghost av = a@;
    acts.push(a);
    assert(action_views(acts@) =~= action_views(old(acts)@).push(av));
}

/// Queues the actions of [`meta_acts`].
fn push_meta_acts(acts: &mut Vec<RecordAction>, reason: EndReason, ctx: GameCtx)
    ensures
        action_views(final(acts)@) == action_views(old(acts)@) + meta_acts(reason, ctx),
{
    push_action(acts, RecordAction::WriteMeta { reason, record: ctx });
    let game: u64 = match ctx.game {
        Some(g) => g,
        None => 0,
    };
    push_action(acts, RecordAction::RenderPlot { game });
    if reason == EndReason::GameEnd {
        push_action(acts, RecordAction::PackGame);
    }
    assert(action_views(acts@) =~= action_views(old(acts)@) + meta_acts(reason, ctx));
}

impl OnlineRecorder {
    /// A recorder writing under `logs_dir`, with no game open.
    pub fn new(logs_dir: String) -> (r: Self)
        ensures
            r@ == (RecorderModel {
                logs_dir: logs_dir@,
                game: None,
                snap: None,
                last_turn: None,
                seq: 0,
                unparsed: 0,
            }),
    {
        OnlineRecorder { logs_dir, game: None, snap: None, last_turn: None, seq: 0, unparsed: 0 }
    }

    fn take_no_emit_row(&mut self, acts: &mut Vec<RecordAction>)
        ensures
            final(self)@ == (RecorderModel { snap: None, ..old(self)@ }),
            action_views(final(acts)@) == action_views(old(acts)@) + no_emit_rows(old(self)@),
    {
        let pending = self.snap.take();
        match pending {
            Some(p) => {
                if p.skip.is_none() && !p.emitted && self.game.is_some() {
                    push_action(acts, RecordAction::WriteRow { sref: p.sref, kind: RowKind::NoEmit });
                } else {
                    assert(action_views(acts@) =~= action_views(old(acts)@) + no_emit_rows(old(self)@));
                }
            },
            None => {
                assert(action_views(acts@) =~= action_views(old(acts)@) + no_emit_rows(old(self)@));
            },
        }
        assert(self@ =~= (RecorderModel { snap: None, ..old(self)@ }));
    }

    fn finalize_into(&mut self, reason: EndReason, acts: &mut Vec<RecordAction>)
        ensures
            final(self)@ == finalize_model(old(self)@, reason).0,
            action_views(final(acts)@) == action_views(old(acts)@) + finalize_model(old(self)@, reason).1,
    {
        let ghost start = action_views(acts@);
        self.take_no_emit_row(acts);
        let ghost rows = no_emit_rows(old(self)@);
        match self.game.take() {
            None => {
                self.last_turn = None;
            },
            Some(ctx) => {
                if !ctx.end_done {
                    push_meta_acts(acts, reason, ctx);
                }
                push_action(acts, RecordAction::CloseGame);
                self.last_turn = None;
                assert(action_views(acts@) =~= start + finalize_model(old(self)@, reason).1);
            },
        }
        assert(self@ =~= finalize_model(old(self)@, reason).0);
    }

    /// Closes the current game (see [`finalize_model`]).
    pub fn finalize(&mut self, reason: EndReason) -> (acts: Vec<RecordAction>)
        ensures
            (final(self)@, action_views(acts@)) == finalize_model(old(self)@, reason),
    {
        let mut acts: Vec<RecordAction> = Vec::new();
        self.finalize_into(reason, &mut acts);
        assert(action_views(acts@) =~= finalize_model(old(self)@, reason).1);
        acts
    }

    fn open_into(&mut self, meta: &SnapMeta, raw: &BaseGameInfo, acts: &mut Vec<RecordAction>)
        ensures
            final(self)@ == open_model(old(self)@, meta@, raw@).0,
            action_views(final(acts)@) == action_views(old(acts)@) + open_model(old(self)@, meta@, raw@).1,
            final(self).game is Some,
    {
        let cur: Option<u64> = match &self.game {
            Some(c) => c.game,
            None => None,
        };
        let g: Option<u64> = match meta.game {
            Some(x) => Some(x),
            None => cur,
        };
        if self.game.is_none() || g != cur {
            let ghost start = action_views(acts@);
            self.finalize_into(EndReason::Switch, acts);
            let t: Option<u32> = match meta.turn {
                Some(x) => Some(x),
                None => raw.turn,
            };
            self.game = Some(GameCtx {
                game: g,
                start_turn: t,
                snaps: 0,
                end_turn_seen: false,
                end_pending: false,
                end_done: false,
            });
            push_action(acts, RecordAction::OpenGame { game: g, start_turn: t, uma_id: raw.uma_id });
            assert(action_views(acts@) =~= start + open_model(old(self)@, meta@, raw@).1);
            assert(self@ =~= open_model(old(self)@, meta@, raw@).0);
        } else {
            assert(action_views(acts@) =~= action_views(old(acts)@) + open_model(old(self)@, meta@, raw@).1);
        }
    }

    fn name_snapshot(&mut self, game: Option<u64>, turn: Option<u32>) -> (r: (String, u32, u32))
        ensures
            final(self)@ == name_model(old(self)@, game, turn).0,
            r.0@ == name_model(old(self)@, game, turn).1,
            r.1 == name_model(old(self)@, game, turn).2,
            r.2 == name_model(old(self)@, game, turn).3,
    {
        match turn {
            Some(t) => {
                if self.last_turn == Some(t) {
                    self.seq = if self.seq == 0 { 2 } else { self.seq.saturating_add(1) };
                } else {
                    self.seq = 0;
                    self.last_turn = Some(t);
                }
                assert(self@ =~= name_model(old(self)@, game, turn).0);
                (snapshot_file_name(game, t, self.seq), t, self.seq)
            },
            None => {
                self.unparsed = self.unparsed.saturating_add(1);
                assert(self@ =~= name_model(old(self)@, game, turn).0);
                (unparsed_file_name(game, self.unparsed), 0, 0)
            },
        }
    }

    /// A snapshot arrives (see [`snapshot_model`]).
    pub fn handle_snapshot(&mut self, meta: &SnapMeta, raw: &BaseGameInfo) -> (acts: Vec<RecordAction>)
        ensures
            (final(self)@, action_views(acts@)) == snapshot_model(old(self)@, meta@, raw@),
    {
        let mut acts: Vec<RecordAction> = Vec::new();
        let ghost r0 = self@;
        let cur: Option<u64> = match &self.game {
            Some(c) => c.game,
            None => None,
        };
        let game: Option<u64> = match meta.game {
            Some(x) => Some(x),
            None => cur,
        };
        let turn: Option<u32> = match meta.turn {
            Some(x) => Some(x),
            None => raw.turn,
        };
        self.take_no_emit_row(&mut acts);
        let ghost r_taken = self@;
        let ghost after_rows = action_views(acts@);
        self.open_into(meta, raw, &mut acts);
        let ghost r1 = self@;
        let ghost after_open = action_views(acts@);
        let (file, turn_cell, seq_cell) = self.name_snapshot(game, turn);
        let ghost r2 = self@;
        let ghost file_view = file@;
        push_action(&mut acts, RecordAction::StoreSnapshot { file: file.clone() });
        let sref = SnapRef {
            game: match game {
                Some(g) => g,
                None => 0,
            },
            file,
            turn: turn_cell,
            seq: seq_cell,
            source: raw.source.clone(),
            playing_state: raw.playing_state,
            stage: meta.stage.clone(),
        };
        let skip: Option<String> = match &meta.skip {
            Some(s) => Some(s.clone()),
            None => None,
        };
        let emitted = skip.is_some();
        match &meta.skip {
            Some(reason) => {
                push_action(&mut acts, RecordAction::WriteRow { sref: sref.clone(), kind: RowKind::Skip(reason.clone()) });
            },
            None => {},
        }
        self.snap = Some(SnapCtx { sref, skip, emitted });
        match self.game {
            Some(ctx) => {
                let mut c = ctx;
                c.snaps = c.snaps.saturating_add(1);
                if c.start_turn.is_none() {
                    c.start_turn = turn;
                }
                match (meta.max_turn, turn) {
                    (Some(m), Some(t)) => {
                        if t >= m {
                            if c.end_turn_seen {
                                c.end_pending = true;
                            } else {
                                c.end_turn_seen = true;
                            }
                        }
                    },
                    _ => {},
                }
                self.game = Some(c);
            },
            None => {},
        }
        proof {
            let m = snapshot_model(r0, meta@, raw@);
            assert(r_taken == (RecorderModel { snap: None, ..r0 }));
            assert(action_views(acts@) =~= m.1);
            assert(self@ =~= m.0);
        }
        acts
    }

    /// A decision is emitted (see [`emit_model`]).
    pub fn handle_emit(&mut self) -> (acts: Vec<RecordAction>)
        ensures
            (final(self)@, action_views(acts@)) == emit_model(old(self)@),
    {
        let mut acts: Vec<RecordAction> = Vec::new();
        let has_game = self.game.is_some();
        match &mut self.snap {
            Some(s) => {
                if s.skip.is_none() {
                    s.emitted = true;
                    if has_game {
                        push_action(&mut acts, RecordAction::WriteRow { sref: s.sref.clone(), kind: RowKind::Calc });
                    }
                }
            },
            None => {},
        }
        assert(action_views(acts@) =~= emit_model(old(self)@).1);
        assert(self@ =~= emit_model(old(self)@).0);
        acts
    }

    /// A snapshot has been processed (see [`turn_done_model`]).
    pub fn handle_turn_done(&mut self) -> (acts: Vec<RecordAction>)
        ensures
            (final(self)@, action_views(acts@)) == turn_done_model(old(self)@),
    {
        let mut acts: Vec<RecordAction> = Vec::new();
        match self.game {
            Some(ctx) => {
                if ctx.end_pending {
                    push_meta_acts(&mut acts, EndReason::GameEnd, ctx);
                    self.game = Some(GameCtx { end_done: true, end_pending: false, ..ctx });
                }
            },
            None => {},
        }
        assert(action_views(acts@) =~= turn_done_model(old(self)@).1);
        assert(self@ =~= turn_done_model(old(self)@).0);
        acts
    }
}

/// Why the recorder could not be installed.
#[derive(Debug, Clone, Copy, PartialEq, Eq, Structural)]
pub enum RecorderError {
    /// A recorder is installed already.
    AlreadyInitialized,
}

/// View of the installed recorder, if any.
pub open spec fn slot_view(slot: Option<OnlineRecorder>) -> Option<RecorderModel> {
    match slot {
        Some(r) => Some(r@),
        None => None,
    }
}

/// Installs a recorder writing under `logs_dir` in the process-wide slot.
/// Disabled recording leaves the slot empty (every entry point then does
/// nothing); a second installation is refused.
pub fn init(slot: &mut Option<OnlineRecorder>, enabled: bool, logs_dir: String) -> (r: Result<(), RecorderError>)
    ensures
        !enabled ==> r is Ok && slot_view(*final(slot)) == slot_view(*old(slot)),
        enabled && slot_view(*old(slot)) is Some ==> r == Err::<(), RecorderError>(RecorderError::AlreadyInitialized)
            && slot_view(*final(slot)) == slot_view(*old(slot)),
        enabled && slot_view(*old(slot)) is None ==> r is Ok && slot_view(*final(slot)) == Some(
            RecorderModel { logs_dir: logs_dir@, game: None, snap: None, last_turn: None, seq: 0, unparsed: 0 },
        ),
{
    if !enabled {
        return Ok(());
    }
    if slot.is_some() {
        return Err(RecorderError::AlreadyInitialized);
    }
    *slot = Some(OnlineRecorder::new(logs_dir));
    Ok(())
}

/// A snapshot arrives; nothing happens while no recorder is installed.
pub fn on_snapshot(slot: &mut Option<OnlineRecorder>, meta: &SnapMeta, raw: &BaseGameInfo) -> (acts: Vec<RecordAction>)
    ensures
        match slot_view(*old(slot)) {
            Some(r) => slot_view(*final(slot)) == Some(snapshot_model(r, meta@, raw@).0)
                && action_views(acts@) == snapshot_model(r, meta@, raw@).1,
            None => slot_view(*final(slot)) is None && acts@.len() == 0,
        },
{
    match slot {
        Some(rec) => rec.handle_snapshot(meta, raw),
        None => Vec::new(),
    }
}

/// A decision is emitted; nothing happens while no recorder is installed.
pub fn on_emit(slot: &mut Option<OnlineRecorder>) -> (acts: Vec<RecordAction>)
    ensures
        match slot_view(*old(slot)) {
            Some(r) => slot_view(*final(slot)) == Some(emit_model(r).0) && action_views(acts@) == emit_model(r).1,
            None => slot_view(*final(slot)) is None && acts@.len() == 0,
        },
{
    match slot {
        Some(rec) => rec.handle_emit(),
        None => Vec::new(),
    }
}

/// A snapshot has been processed; nothing happens while no recorder is installed.
pub fn on_turn_done(slot: &mut Option<OnlineRecorder>) -> (acts: Vec<RecordAction>)
    ensures
        match slot_view(*old(slot)) {
            Some(r) => slot_view(*final(slot)) == Some(turn_done_model(r).0)
                && action_views(acts@) == turn_done_model(r).1,
            None => slot_view(*final(slot)) is None && acts@.len() == 0,
        },
{
    match slot {
        Some(rec) => rec.handle_turn_done(),
        None => Vec::new(),
    }
}

/// The process shuts down: the open game is closed with `process_exit`.
pub fn finalize_shutdown(slot: &mut Option<OnlineRecorder>) -> (acts: Vec<RecordAction>)
    ensures
        match slot_view(*old(slot)) {
            Some(r) => slot_view(*final(slot)) == Some(finalize_model(r, EndReason::ProcessExit).0)
                && action_views(acts@) == finalize_model(r, EndReason::ProcessExit).1,
            None => slot_view(*final(slot)) is None && acts@.len() == 0,
        },
{
    match slot {
        Some(rec) => rec.finalize(EndReason::ProcessExit),
        None => Vec::new(),
    }
}

/// Where decisions are sent.
pub trait DecisionSink {
    /// Receives one decision.
    fn emit(&mut self, info: &DecisionInfo, view: &GameView);
}

/// A sink that drops every decision.
#[derive(Debug, Clone, Copy, Default)]
pub struct EmptySink;

impl DecisionSink for EmptySink {
    fn emit(&mut self, info: &DecisionInfo, view: &GameView) {
    }
}

/// A sink that forwards every decision to an inner sink and records it in
/// the recorder it holds; the recorder's actions queue up until taken.
pub struct RecordingSink<S: DecisionSink> {
    inner: S,
    slot: Option<OnlineRecorder>,
    queued: Vec<RecordAction>,
}

impl<S: DecisionSink> RecordingSink<S> {
    /// The wrapped sink.
    pub closed spec fn spec_inner(&self) -> S {
        self.inner
    }

    /// The recorder held, as plain values.
    pub closed spec fn recorder_view(&self) -> Option<RecorderModel> {
        slot_view(self.slot)
    }

    /// The recorder's actions not yet taken, as plain values.
    pub closed spec fn queued_view(&self) -> Seq<ActionModel> {
        action_views(self.queued@)
    }

    /// Wraps `inner`, with no recorder installed and nothing queued.
    pub fn new(inner: S) -> (r: Self)
        ensures
            r.spec_inner() == inner,
            r.recorder_view() is None,
            r.queued_view() == Seq::<ActionModel>::empty(),
    {
        let r = RecordingSink { inner, slot: None, queued: Vec::new() };
        assert(action_views(r.queued@) =~= Seq::<ActionModel>::empty());
        r
    }

    /// The wrapped sink.
    pub fn inner(&self) -> (r: &S)
        ensures
            *r == self.spec_inner(),
    {
        &self.inner
    }

    /// The recorder slot, for installing a recorder and for the snapshot
    /// entry points ([`init`], [`on_snapshot`], [`on_turn_done`],
    /// [`finalize_shutdown`]); the inner sink and the queue stay as they are.
    pub fn slot_mut(&mut self) -> (r: &mut Option<OnlineRecorder>)
        ensures
            slot_view(*r) == old(self).recorder_view(),
            final(self).recorder_view() == slot_view(*final(r)),
            final(self).spec_inner() == old(self).spec_inner(),
            final(self).queued_view() == old(self).queued_view(),
    {
        &mut self.slot
    }

    /// Takes the queued actions, oldest first, leaving the queue empty.
    pub fn take_actions(&mut self) -> (acts: Vec<RecordAction>)
        ensures
            action_views(acts@) == old(self).queued_view(),
            final(self).queued_view() == Seq::<ActionModel>::empty(),
            final(self).recorder_view() == old(self).recorder_view(),
            final(self).spec_inner() == old(self).spec_inner(),
    {
        let mut acts: Vec<RecordAction> = Vec::new();
        std::mem::swap(&mut acts, &mut self.queued);
        assert(action_views(self.queued@) =~= Seq::<ActionModel>::empty());
        acts
    }
}

impl<S: DecisionSink> DecisionSink for RecordingSink<S> {
    /// Forwards the decision to the inner sink, then records it (see
    /// [`emit_model`]) and queues the recorder's actions; nothing is
    /// recorded while no recorder is installed.
    fn emit(&mut self, info: &DecisionInfo, view: &GameView)
        ensures
            match old(self).recorder_view() {
                Some(r) => final(self).recorder_view() == Some(emit_model(r).0) && final(self).queued_view()
                    == old(self).queued_view() + emit_model(r).1,
                None => final(self).recorder_view() is None && final(self).queued_view() == old(self).queued_view(),
            },
    {
        self.inner.emit(info, view);
        let mut acts = on_emit(&mut self.slot);
        let ghost q0 = self.queued@;
        let ghost a0 = acts@;
        self.queued.append(&mut acts);
        proof {
            assert(action_views(self.queued@) =~= action_views(q0) + action_views(a0));
        }
    }
}

/// The same snapshot arriving `k` times in a row.
pub open spec fn repeat_snapshot(r: RecorderModel, meta: SnapMetaModel, raw: BaseGameModel, k: nat) -> RecorderModel
    decreases k,
{
    if k == 0 {
        r
    } else {
        snapshot_model(repeat_snapshot(r, meta, raw, (k - 1) as nat), meta, raw).0
    }
}

/// Snapshots of one turn are numbered as the game's plugin archives them:
/// the first of the turn has no suffix (sequence 0), the second is `_2`, the
/// third `_3`, and so on; the file of each is named accordingly.
pub proof fn lemma_snapshot_numbering(r: RecorderModel, meta: SnapMetaModel, raw: BaseGameModel, t: u32, k: nat)
    requires
        meta.turn == Some(t),
        r.last_turn != Some(t),
        1 <= k < u32::MAX,
    ensures
        ({
            let rk = repeat_snapshot(r, meta, raw, k);
            let sk: u32 = if k == 1 { 0 } else { k as u32 };
            &&& rk.seq == sk
            &&& rk.last_turn == Some(t)
            &&& rk.game is Some
            &&& current_game(rk) == snapshot_game(r, meta)
            &&& rk.snap matches Some(c) && c.sref.file == snapshot_file_name_spec(snapshot_game(r, meta), t, sk)
                && c.sref.turn == t && c.sref.seq == sk
        }),
    decreases k,
{
    let g = snapshot_game(r, meta);
    if k == 1 {
        assert(repeat_snapshot(r, meta, raw, 0) == r);
        let r0 = RecorderModel { snap: None, ..r };
        let r1 = open_model(r0, meta, raw).0;
        assert(r1.last_turn != Some(t));
        assert(current_game(r1) == g);
    } else {
        lemma_snapshot_numbering(r, meta, raw, t, (k - 1) as nat);
        let prev = repeat_snapshot(r, meta, raw, (k - 1) as nat);
        assert(snapshot_game(prev, meta) == g);
        let p0 = RecorderModel { snap: None, ..prev };
        assert(open_model(p0, meta, raw).0 == p0);
        assert(next_seq(prev.last_turn, prev.seq, t) == k as u32);
    }
}

/// A snapshot that is not skipped and gets no decision owes exactly one
/// `no_emit` row, written first when the next snapshot arrives; once a
/// decision row is written for it, nothing is owed.
pub proof fn lemma_no_emit_row_owed(
    r: RecorderModel,
    m1: SnapMetaModel,
    b1: BaseGameModel,
    m2: SnapMetaModel,
    b2: BaseGameModel,
)
    requires
        m1.skip is None,
    ensures
        ({
            let r1 = snapshot_model(r, m1, b1).0;
            let a2 = snapshot_model(r1, m2, b2).1;
            &&& r1.snap matches Some(c) && a2.len() > 0 && a2[0] == (ActionModel::WriteRow {
                sref: c.sref,
                kind: RowKindModel::NoEmit,
            })
            &&& emit_model(r1).1 == seq![ActionModel::WriteRow { sref: r1.snap->0.sref, kind: RowKindModel::Calc }]
            &&& no_emit_rows(emit_model(r1).0) == Seq::<ActionModel>::empty()
        }),
{
    let r1 = snapshot_model(r, m1, b1).0;
    let a2 = snapshot_model(r1, m2, b2).1;
    assert(no_emit_rows(r1).len() == 1);
    assert(a2[0] == no_emit_rows(r1)[0]);
}

/// A skipped snapshot gets its `skip` row at once, and neither decision
/// rows nor a `no_emit` row later.
pub proof fn lemma_skipped_snapshot_rows(r: RecorderModel, meta: SnapMetaModel, raw: BaseGameModel)
    requires
        meta.skip is Some,
    ensures
        ({
            let (r1, acts) = snapshot_model(r, meta, raw);
            &&& acts.last() == (ActionModel::WriteRow {
                sref: r1.snap->0.sref,
                kind: RowKindModel::Skip(meta.skip->0),
            })
            &&& emit_model(r1).1 == Seq::<ActionModel>::empty()
            &&& no_emit_rows(r1) == Seq::<ActionModel>::empty()
        }),
{
}

/// The game's end is recognised on the second snapshot of the last turn:
/// after the first, finishing the snapshot writes nothing; after the second,
/// it writes `meta.json` with `game_end`.
pub proof fn lemma_game_end_on_second_last_turn_snapshot(
    r: RecorderModel,
    meta: SnapMetaModel,
    raw: BaseGameModel,
    t: u32,
)
    requires
        r.game matches Some(ctx) && !ctx.end_turn_seen && !ctx.end_pending,
        meta.game is None || meta.game == current_game(r),
        meta.turn == Some(t),
        meta.max_turn matches Some(m) && t >= m,
    ensures
        ({
            let r1 = snapshot_model(r, meta, raw).0;
            let r2 = snapshot_model(r1, meta, raw).0;
            &&& turn_done_model(r1).1 == Seq::<ActionModel>::empty()
            &&& turn_done_model(r2).1 == meta_acts(EndReason::GameEnd, r2.game->0)
            &&& turn_done_model(r2).1 == seq![
                ActionModel::WriteMeta { reason: EndReason::GameEnd, record: r2.game->0 },
                ActionModel::RenderPlot { game: match r2.game->0.game { Some(g) => g, None => 0 } },
                ActionModel::PackGame,
            ]
        }),
{
    let r1 = snapshot_model(r, meta, raw).0;
    let r2 = snapshot_model(r1, meta, raw).0;
    assert(turn_done_model(r2).1 =~= seq![
        ActionModel::WriteMeta { reason: EndReason::GameEnd, record: r2.game->0 },
        ActionModel::RenderPlot { game: match r2.game->0.game { Some(g) => g, None => 0 } },
        ActionModel::PackGame,
    ]);
}

/// `meta.json`, the plot and the archive are made once: after the game's
/// end made them, closing the game (switch or exit) and finishing further
/// snapshots make no other.
pub proof fn lemma_game_end_meta_written_once(r: RecorderModel, reason: EndReason)
    requires
        r.game matches Some(ctx) && ctx.end_pending,
    ensures
        ({
            let r1 = turn_done_model(r).0;
            let closing = finalize_model(r1, reason).1;
            &&& turn_done_model(r).1 == meta_acts(EndReason::GameEnd, r.game->0)
            &&& turn_done_model(r1).1 == Seq::<ActionModel>::empty()
            &&& forall|i: int|
                0 <= i < closing.len() ==> !(#[trigger] closing[i] is WriteMeta) && !(closing[i] is RenderPlot)
                    && !(closing[i] is PackGame)
        }),
{
    let r1 = turn_done_model(r).0;
    let closing = finalize_model(r1, reason).1;
    assert forall|i: int| 0 <= i < closing.len() implies !(#[trigger] closing[i] is WriteMeta) && !(
    closing[i] is RenderPlot) && !(closing[i] is PackGame) by {
        if i < no_emit_rows(r1).len() {
            assert(closing[i] == no_emit_rows(r1)[i]);
        }
    }
}

/// A snapshot of another game closes the open game with `switch` (writing
/// its `meta.json` and plot, without packing it) before opening the new
/// one.
pub proof fn lemma_switch_closes_open_game(r: RecorderModel, meta: SnapMetaModel, raw: BaseGameModel, b: u64)
    requires
        r.game matches Some(ctx) && !ctx.end_done && ctx.game != Some(b),
        meta.game == Some(b),
    ensures
        ({
            let acts = snapshot_model(r, meta, raw).1;
            let k = no_emit_rows(r).len() as int;
            &&& acts[k] == (ActionModel::WriteMeta { reason: EndReason::Switch, record: r.game->0 })
            &&& acts[k + 1] == (ActionModel::RenderPlot {
                game: match r.game->0.game {
                    Some(g) => g,
                    None => 0,
                },
            })
            &&& acts[k + 2] == ActionModel::CloseGame
            &&& acts[k + 3] == (ActionModel::OpenGame {
                game: Some(b),
                start_turn: snapshot_turn(meta, raw),
                uma_id: raw.uma_id,
            })
            &&& current_game(snapshot_model(r, meta, raw).0) == Some(b)
        }),
{
    let r0 = RecorderModel { snap: None, ..r };
    assert(no_emit_rows(r0) == Seq::<ActionModel>::empty());
}

} // verus!
