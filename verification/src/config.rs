//! Run configuration: the simulation, policy and output sections, and the
//! default values of the configuration file's optional entries.

use vstd::prelude::*;

verus! {

/// How the regions of the third year are chosen (years one and two always
/// enumerate every combination).
#[derive(Debug, Clone, Copy, PartialEq, Eq, Structural)]
pub enum RamenRegionStrategy {
    /// Enumerate every legal combination for the trainer (the default).
    All,
    /// Use the single fixed combination of the configuration.
    Fixed,
}

impl Default for RamenRegionStrategy {
    fn default() -> (s: Self)
        ensures
            s == RamenRegionStrategy::All,
    {
        RamenRegionStrategy::All
    }
}

/// Simulation section: scenario, trainer, trainee, deck and run count.
#[derive(Debug, Clone)]
pub struct SimulationConfig {
    /// `basic`, `onsen` or `ramen`.
    pub scenario: String,
    /// `manual`, `random`, `handwritten`, `collector`, `neuralnet` or `mcts`.
    pub trainer: String,
    /// Trainee id.
    pub uma: u32,
    /// The six support cards (`idrank`).
    pub cards: [u32; 6],
    /// Blue factor counts of the parents.
    pub blue_count: [i32; 5],
    /// Extra parent attributes.
    pub extra_count: [i32; 6],
    /// Number of runs.
    pub simulation_count: usize,
}

/// Policy section: how the third year's regions are chosen.
#[derive(Debug, Clone)]
pub struct PolicyConfig {
    /// Third-year region strategy.
    pub ramen_region_strategy: RamenRegionStrategy,
    /// The fixed third-year combination (`Fixed` strategy; exactly one entry
    /// of three region ids).
    pub ramen_region_fixed: Option<Vec<[usize; 3]>>,
}

/// Output section.
#[derive(Debug, Clone)]
pub struct OutputConfig {
    /// `debug`, `off`, `info` or `trace`.
    pub log_level: String,
}

/// Default search count per action.
pub fn default_mcts_search_n() -> (n: usize)
    ensures
        n == 10240,
{
    10240
}

/// Default search depth (0: to the end of the game).
pub fn default_mcts_max_depth() -> (n: usize)
    ensures
        n == 0,
{
    0
}

/// Default evaluator of truncated rollouts.
pub fn default_mcts_rollout_evaluator() -> (s: String)
    ensures
        s@ == "handwritten"@,
{
    "handwritten".to_owned()
}

/// Default batch size of leaf evaluation.
pub fn default_mcts_rollout_batch_size() -> (n: usize)
    ensures
        n == 32,
{
    32
}

/// UCB search allocation is on by default.
pub fn default_mcts_use_ucb() -> (b: bool)
    ensures
        b,
{
    true
}

/// Default searches per UCB group.
pub fn default_mcts_search_group_size() -> (n: usize)
    ensures
        n == 512,
{
    512
}

/// Rollout streams are reseeded per turn and stage by default.
pub fn default_mcts_crn_stage_reseed() -> (b: bool)
    ensures
        b,
{
    true
}

/// Default number of accepted samples to collect.
pub fn default_collector_target_samples() -> (n: usize)
    ensures
        n == 100000,
{
    100000
}

/// Default cap on simulated games.
pub fn default_collector_max_games() -> (n: usize)
    ensures
        n == 50000,
{
    50000
}

/// Samples with a zero mean are dropped by default.
pub fn default_collector_drop_zero_mean() -> (b: bool)
    ensures
        b,
{
    true
}

/// Choice samples are collected by default.
pub fn default_collector_collect_choice() -> (b: bool)
    ensures
        b,
{
    true
}

/// Default rollouts per choice option.
pub fn default_collector_choice_rollouts_per_option() -> (n: usize)
    ensures
        n == 8,
{
    8
}

/// Events with more choices than the feature width are skipped by default.
pub fn default_collector_choice_skip_if_too_many() -> (b: bool)
    ensures
        b,
{
    true
}

/// Choice samples follow the action sampling turns by default.
pub fn default_collector_choice_follow_action_turn_range() -> (b: bool)
    ensures
        b,
{
    true
}

/// Uncollected turns decide choices without rollouts by default.
pub fn default_collector_choice_rollout_on_uncollected_turns() -> (b: bool)
    ensures
        !b,
{
    false
}

/// Games finish fast once the target is reached, by default.
pub fn default_collector_fast_after_target() -> (b: bool)
    ensures
        b,
{
    true
}

/// Default first sampled turn (human count, 1-based).
pub fn default_collector_turn_min() -> (n: i32)
    ensures
        n == 1,
{
    1
}

/// Default last sampled turn (human count).
pub fn default_collector_turn_max() -> (n: i32)
    ensures
        n == 78,
{
    78
}

/// Default sampling stride.
pub fn default_collector_turn_stride() -> (n: i32)
    ensures
        n == 1,
{
    1
}

/// Default output directory of collected samples.
pub fn default_collector_output_dir() -> (s: String)
    ensures
        s@ == "training_data/mean_filtered"@,
{
    "training_data/mean_filtered".to_owned()
}

/// Default output name (empty: write to the output directory itself).
pub fn default_collector_output_name() -> (s: String)
    ensures
        s@ == Seq::<char>::empty(),
{
    String::new()
}

/// No timestamp is appended to the output directory by default.
pub fn default_collector_output_append_timestamp() -> (b: bool)
    ensures
        !b,
{
    false
}

/// Default timestamp format of output directories.
pub fn default_collector_output_timestamp_format() -> (s: String)
    ensures
        s@ == "%Y%m%d_%H%M%S"@,
{
    "%Y%m%d_%H%M%S".to_owned()
}

/// Default samples per shard.
pub fn default_collector_shard_size() -> (n: usize)
    ensures
        n == 4096,
{
    4096
}

/// Default file name of the score means.
pub fn default_collector_score_mean_values_name() -> (s: String)
    ensures
        s@ == "score_mean_values.bin"@,
{
    "score_mean_values.bin".to_owned()
}

/// Collection resumes from existing shards by default.
pub fn default_collector_resume() -> (b: bool)
    ensures
        b,
{
    true
}

/// Output directories are not overwritten by default.
pub fn default_collector_overwrite() -> (b: bool)
    ensures
        !b,
{
    false
}

/// Default worker threads.
pub fn default_collector_threads() -> (n: usize)
    ensures
        n == 24,
{
    24
}

/// Default progress interval (games).
pub fn default_collector_progress_interval() -> (n: usize)
    ensures
        n == 100,
{
    100
}

/// Default expected score bonus per turn of the search.
pub fn default_mcts_turn_bonus() -> (n: i32)
    ensures
        n == 70,
{
    70
}

/// Race grade of each of the turns 0-71 (the final turns 72-77 are G1 and
/// not listed).
pub open spec fn race_grades_spec() -> Seq<i32> {
    seq![
        0i32, 0, 0, 0, 0, 0, 0, 0, 0, 0, 0, 4, 0, 3, 4, 3, 3, 4, 3, 3, 2, 3, 1, 1, 3, 4, 3, 4, 2, 2, 1, 2, 1,
        1, 1, 1, 1, 3, 3, 3, 3, 1, 1, 1, 1, 1, 2, 1, 2, 3, 1, 1, 2, 1, 2, 1, 1, 2, 1, 1, 3, 3, 3, 3, 3, 1, 2,
        1, 1, 1, 2, 1,
    ]
}

/// Default race grade table (72 entries, turns 0-71).
pub fn default_race_grades() -> (v: Vec<i32>)
    ensures
        v@ == race_grades_spec(),
        v@.len() == 72,
{
    let v: Vec<i32> = vec![
        0, 0, 0, 0, 0, 0, 0, 0, 0, 0, 0, 4, 0, 3, 4, 3, 3, 4, 3, 3, 2, 3, 1, 1, 3, 4, 3, 4, 2, 2, 1, 2, 1, 1, 1,
        1, 1, 3, 3, 3, 3, 1, 1, 1, 1, 1, 2, 1, 2, 3, 1, 1, 2, 1, 2, 1, 1, 2, 1, 1, 3, 3, 3, 3, 3, 1, 2, 1, 1, 1,
        2, 1,
    ];
    assert(v@ =~= race_grades_spec());
    v
}

/// Default scenario.
pub fn default_scenario() -> (s: String)
    ensures
        s@ == "basic"@,
{
    "basic".to_owned()
}

/// Default log level.
pub fn default_log_level() -> (s: String)
    ensures
        s@ == "debug"@,
{
    "debug".to_owned()
}

/// Default trainer.
pub fn default_trainer() -> (s: String)
    ensures
        s@ == "manual"@,
{
    "manual".to_owned()
}

/// Default path of the neural network model.
pub fn default_neuralnet_model_path() -> (s: String)
    ensures
        s@ == "saved_models/onsen_v4/model.onnx"@,
{
    "saved_models/onsen_v4/model.onnx".to_owned()
}

/// Default number of runs.
pub fn default_simulation_count() -> (n: usize)
    ensures
        n == 1,
{
    1
}

/// Index of the first rank whose threshold is above the score (negative
/// scores count as 0).
pub open spec fn rank_index(rank_scores: Seq<i32>, score: i32) -> Option<int> {
    let s = if score < 0 { 0 } else { score as int };
    if exists|i: int| 0 <= i < rank_scores.len() && s < rank_scores[i] {
        Some(choose|i: int| 0 <= i < rank_scores.len() && s < rank_scores[i] && forall|j: int| 0 <= j < i ==> s >= rank_scores[j])
    } else {
        None
    }
}

/// Name of a score's rank: the name before the first threshold above the
/// score, or `US9` above every threshold.
pub open spec fn rank_name_spec(rank_scores: Seq<i32>, rank_names: Seq<Seq<char>>, score: i32) -> Seq<char> {
    match rank_index(rank_scores, score) {
        Some(i) => rank_names[i - 1],
        None => "US9"@,
    }
}

/// Name of a score's rank (see [`rank_name_spec`]); the first threshold must
/// not be above the score.
pub fn get_rank_name(rank_scores: &[i32], rank_names: &[String], score: i32) -> (r: String)
    requires
        match rank_index(rank_scores@, score) {
            Some(i) => 1 <= i <= rank_names@.len(),
            None => true,
        },
    ensures
        r@ == rank_name_spec(rank_scores@, rank_names@.map_values(|n: String| n@), score),
{
    let s: i32 = if score < 0 { 0 } else { score };
    let mut i: usize = 0;
    while i < rank_scores.len()
        invariant
            i <= rank_scores@.len(),
            s as int == (if score < 0 { 0 } else { score as int }),
            forall|j: int| 0 <= j < i ==> s >= rank_scores@[j],
            match rank_index(rank_scores@, score) {
                Some(k) => 1 <= k <= rank_names@.len(),
                None => true,
            },
        decreases rank_scores@.len() - i,
    {
        if s < rank_scores[i] {
            proof {
                let c = choose|c: int|
                    0 <= c < rank_scores@.len() && s < rank_scores@[c] && forall|j: int| 0 <= j < c ==> s >= rank_scores@[j];
                assert(0 <= c < rank_scores@.len() && s < rank_scores@[c] && forall|j: int| 0 <= j < c ==> s >= rank_scores@[j]);
                if c < i {
                    assert(s >= rank_scores@[c]);
                }
                if (i as int) < c {
                    assert(s >= rank_scores@[i as int]);
                }
                assert(rank_index(rank_scores@, score) == Some(i as int));
            }
            return rank_names[i - 1].clone();
        }
        i = i + 1;
    }
    "US9".to_owned()
}

} // verus!
