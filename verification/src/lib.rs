//! The verified core of the BudgetTool API: file names, journal settings
//! and their managed header, hledger rules and journal generation, manual
//! entries, reports, and the decisions behind the HTTP handlers.
pub mod auth;
pub mod error;
pub mod filename;
pub mod files;
pub mod hledger;
pub mod journal_settings;
pub mod json;
pub mod manual_entries;
pub mod manual_entries_gen;
pub mod pattern;
pub mod reports;
pub mod rules;
pub mod rules_gen;
pub mod settings_laws;
pub mod text;
