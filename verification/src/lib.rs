//! Decision logic for organizing directories of music-game content packs:
//! bucket classification of names, extension-priority deduplication rules,
//! and the pairing/planning logic behind splitting, merging and relocating
//! work folders. All functions here are pure: they take directory listings
//! as plain values and return plans; performing the filesystem actions is
//! the caller's concern.

pub mod classify;
pub mod dedup;
pub mod merge;
pub mod mover;
pub mod rules;
pub mod split;
pub mod text;

pub use classify::first_char_rules_find;
pub use dedup::{FileEntry, count_remaining_with_ext, workdir_compute_removals};
pub use merge::{collect_merge_pairs, find_duplicate_destinations, plan_merge_split_folders};
pub use mover::{WorksMovePlan, pair_works_with_same_name, plan_move_out, plan_move_works};
pub use rules::{
    get_remove_media_file_rules, get_remove_media_rule_mpg_fill_wmv, get_remove_media_rule_oraja,
    get_remove_media_rule_wav_fill_flac, select_media_rule,
};
pub use split::{bucket_dir_name, plan_split_folders, plan_undo_split};
