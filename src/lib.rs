//! Moves the entries of a directory to destinations chosen by filename rules.
//!
//! `rules` holds the rule set and its edits, `matching` the substring test and
//! path joining, `pass` the decisions of one scan-and-move pass, and `report`
//! the coloured lines shown to the operator.
pub mod matching;
pub mod pass;
pub mod report;
pub mod rules;
