//! Verified core of the prpr chart player and its offset-study tools.
//!
//! - The binary chart format: `bin` (readers, writers, uleb numbers, the
//!   `BinaryData` trait), `keyframe`, `anim`, `object`, `note`, `line` and
//!   `chart`, each with the law that a read gives back what was written;
//!   `line_tree` (the check that parents do not loop) and `chart_order`
//!   (the order lines are drawn in, and the lines that move interface
//!   elements).
//! - Chart metadata and archives: `info` (the `Key: Value` text and the
//!   comma-separated table), `chart_files` (which archive files are chart,
//!   music, illustration), `chart_format` (which parser a chart needs),
//!   `chart_info` (the info editor's picked files and the patches they
//!   make) and `fs` (patches over a file system, charts in zip archives,
//!   rewriting an archive with patches).
//! - The player: `judge` (judgement bookkeeping), `replay`, `scene_stack`,
//!   `dir` (joins that stay inside a directory), `tween`, `rpe`, `config`,
//!   `platform`, `l10n` (the order translations are consulted in) and
//!   `request` (answers awaited from file dialogs and input boxes).
//! - The study tools: `csv`, `report`, `study`, `samples`, `retry`,
//!   `methods`, `api`.

pub mod anim;
pub mod api;
pub mod bin;
pub mod chart;
pub mod chart_files;
pub mod chart_info;
pub mod chart_order;
pub mod chart_format;
pub mod config;
pub mod csv;
pub mod dir;
pub mod fs;
pub mod info;
pub mod judge;
pub mod l10n;
pub mod keyframe;
pub mod line;
pub mod line_tree;
pub mod methods;
pub mod note;
pub mod object;
pub mod platform;
pub mod replay;
pub mod request;
pub mod report;
pub mod retry;
pub mod rpe;
pub mod samples;
pub mod scene_stack;
pub mod study;
mod text;
pub mod tween;
