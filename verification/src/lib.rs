//! Match analysis, posting state and message rendering for a League of
//! Legends game tracker.

pub mod analysis;
pub mod archive;
pub mod candidates;
pub mod chart_laws;
pub mod charts;
pub mod cli;
pub mod clip_laws;
pub mod clip_pass;
pub mod discord;
pub mod dump;
pub mod event_laws;
pub mod game;
pub mod highlights;
pub mod import;
pub mod journal;
pub mod journal_laws;
pub mod json;
pub mod kinds;
pub mod leaves;
pub mod lowlights;
pub mod moment_laws;
pub mod moments;
pub mod naming_laws;
pub mod pass_laws;
pub mod pick_laws;
pub mod picks;
pub mod post;
pub mod posting_laws;
pub mod rank;
pub mod record;
pub mod report;
pub mod riot;
pub mod scan;
pub mod seqs;
pub mod stats;
pub mod storage;
pub mod storage_laws;
pub mod summary;
pub mod table;
pub mod text;
pub mod text_laws;
pub mod tick;
pub mod timeline;
pub mod timeline_laws;
pub mod watch_laws;
