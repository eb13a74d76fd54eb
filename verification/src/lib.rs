//! Big Five personality reports: from the plain text of a report to scored
//! domains, and from there to a JSON value.
//!
//! A report is a run of blocks, one for each trait domain. A block opens with
//! a header line, which gives the domain's name and its overall score, and
//! goes on with one line for each facet of the domain; on every line a dot
//! leader parts the label from the score:
//!
//! ```text
//! EXTRAVERSION.........54
//! Friendliness.........94
//! Gregariousness.......72
//! ```
//!
//! [`new`] reads a report into [`BigFiveResults`], and
//! [`BigFiveResultsTextToHash::to_h`] projects the results onto a
//! `serde_json::Value`.
//!
//! The modules, from the leaves up:
//!
//! - [`pattern`] and [`json`] are the boundaries to the `regex` and
//!   `serde_json` crates. What they state is trusted, not proved.
//! - [`grammar`] holds the two patterns of the report grammar.
//! - [`text`], [`lines`] and [`score`] compare texts, cut a text into lines and
//!   read a score from its digits.
//! - [`blocks`] pairs the headers of a report with the blocks below them.
//! - [`field`] reads the label and the score of one line, [`facets`] keeps the
//!   facet scores of a domain, and [`domain`] assembles a domain from a
//!   header and a block.
//! - [`results`] reads a whole report, and [`projection`] turns results into
//!   JSON.

pub mod blocks;
pub mod domain;
pub mod error;
pub mod facets;
pub mod field;
pub mod grammar;
pub mod json;
pub mod lines;
pub mod pattern;
pub mod projection;
pub mod results;
pub mod score;
pub mod text;

pub use domain::BigFiveResult;
pub use error::BigFiveError;
pub use facets::Facets;
pub use projection::BigFiveResultsTextToHash;
pub use results::{new, BigFiveResults};
