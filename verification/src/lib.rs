//! Verified analyzers for repository automation.
//!
//! The crate's center is a Cobertura coverage pipeline: [`coverage`] parses
//! a coverage report from XML — tokenized by [`xml`], with rates held
//! exactly by [`percent`] — and filters it into uncovered-function records.
//! Around it stand the text heuristics the automation agents run on
//! repository text: feature-request classification ([`feature`],
//! [`implementer`]), annotated-note and TODO scanning ([`notes`], [`todo`]),
//! architectural and refactoring metrics ([`architecture`], [`refactor`]),
//! issue batching ([`subagent`]), checklist review ([`checklist`], [`scan`],
//! [`quality`], [`report`]), issue validation ([`issues`]) and git-output
//! parsing ([`gitinfo`]) — all built on the character-level toolkit in
//! [`text`].
//!
//! Every function is specified against a mathematical model of its strings
//! and proved to meet it; reading files, running processes and talking to
//! services are left to callers, which hand plain values in and take plain
//! values back.

pub mod architecture;
pub mod checklist;
pub mod coverage;
pub mod feature;
pub mod gitinfo;
pub mod implementer;
pub mod issues;
pub mod notes;
pub mod percent;
pub mod quality;
pub mod refactor;
pub mod report;
pub mod scan;
pub mod subagent;
pub mod testgen;
pub mod text;
pub mod todo;
pub mod xml;
