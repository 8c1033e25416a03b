pub mod common;
pub mod stats;
pub mod share_limits;
pub mod tracker_tags;
pub mod tag_names;
pub mod cat_moves;
pub mod requests;
pub mod steps;
pub mod dry_run;
