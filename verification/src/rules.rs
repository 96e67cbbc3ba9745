//! Stored rules configs: their records, the requests that create and change
//! them, and the names and checks behind generating their `.rules` files.
use vstd::prelude::*;

use crate::error::{AppError, ErrorView};
use crate::json::{is_json_text, json_text_parses};
use crate::manual_entries::pick;
use crate::text::{blank, chars_of, is_blank, push_char, push_signed, push_str, signed_decimal};

verus! {

#[derive(Debug, Clone)]
pub struct RulesConfigRecord {
    pub id: i64,
    pub user_id: i64,
    pub name: String,
    pub description: String,
    /// The config, as JSON text.
    pub config: String,
    pub disk_path: Option<String>,
    pub created_at: String,
    pub updated_at: String,
}

/// API-facing summary of a rules config (used in list responses — no config blob).
#[derive(Debug, Clone)]
pub struct RulesConfigInfo {
    pub id: i64,
    pub name: String,
    pub description: String,
    pub created_at: String,
    pub updated_at: String,
}

impl From<RulesConfigRecord> for RulesConfigInfo {
    fn from(r: RulesConfigRecord) -> (info: Self) {
        RulesConfigInfo {
            id: r.id,
            name: r.name,
            description: r.description,
            created_at: r.created_at,
            updated_at: r.updated_at,
        }
    }
}

impl vstd::std_specs::convert::FromSpecImpl<RulesConfigRecord> for RulesConfigInfo {
    open spec fn obeys_from_spec() -> bool {
        true
    }

    open spec fn from_spec(r: RulesConfigRecord) -> Self {
        RulesConfigInfo {
            id: r.id,
            name: r.name,
            description: r.description,
            created_at: r.created_at,
            updated_at: r.updated_at,
        }
    }
}

/// API-facing detail of a rules config.  `config` is the stored JSON text,
/// or `None` when the stored text is not JSON (answered as an empty object).
#[derive(Debug, Clone)]
pub struct RulesConfigDetail {
    pub id: i64,
    pub name: String,
    pub description: String,
    pub config: Option<String>,
    pub created_at: String,
    pub updated_at: String,
}

/// The stored config text when it is JSON.
pub open spec fn config_json(text: String) -> Option<String> {
    if json_text_parses(text@) {
        Some(text)
    } else {
        None
    }
}

impl From<RulesConfigRecord> for RulesConfigDetail {
    fn from(r: RulesConfigRecord) -> (detail: Self) {
        let config = if is_json_text(r.config.as_str()) {
            Some(r.config)
        } else {
            None
        };
        RulesConfigDetail {
            id: r.id,
            name: r.name,
            description: r.description,
            config,
            created_at: r.created_at,
            updated_at: r.updated_at,
        }
    }
}

impl vstd::std_specs::convert::FromSpecImpl<RulesConfigRecord> for RulesConfigDetail {
    open spec fn obeys_from_spec() -> bool {
        true
    }

    open spec fn from_spec(r: RulesConfigRecord) -> Self {
        RulesConfigDetail {
            id: r.id,
            name: r.name,
            description: r.description,
            config: config_json(r.config),
            created_at: r.created_at,
            updated_at: r.updated_at,
        }
    }
}

/// A new rules config; `config` is its JSON text.
#[derive(Debug, Clone)]
pub struct CreateRequest {
    pub name: String,
    pub description: Option<String>,
    pub config: String,
}

/// A change to a rules config; `config`, when given, is JSON text.
#[derive(Debug, Clone)]
pub struct UpdateRequest {
    pub name: Option<String>,
    pub description: Option<String>,
    pub config: Option<String>,
}

/// The CSV file to preview a rules config on.
#[derive(Debug, Clone)]
pub struct PreviewRequest {
    pub csv_file_id: i64,
}

/// A rules config needs a name that is not blank.
pub fn check_config_name(name: &str) -> (r: Result<(), AppError>)
    ensures
        r is Err <==> is_blank(name@),
        r matches Err(e) ==> e@ == ErrorView::BadRequest("name is required"@),
{
    if blank(name) {
        Err(AppError::BadRequest(String::from_str("name is required")))
    } else {
        Ok(())
    }
}

impl CreateRequest {
    /// The description, empty when none was given.
    pub fn description_text(&self) -> (d: String)
        ensures
            d@ == match self.description {
                Some(t) => t@,
                None => Seq::empty(),
            },
    {
        match &self.description {
            Some(t) => t.clone(),
            None => String::new(),
        }
    }
}

impl RulesConfigRecord {
    /// The name and description after a change: each one given replaces the
    /// stored one.
    pub fn renamed_with(&self, change: &UpdateRequest) -> (r: (String, String))
        ensures
            r.0@ == pick(change.name, self.name),
            r.1@ == pick(change.description, self.description),
    {
        let name = match &change.name {
            Some(n) => n.clone(),
            None => self.name.clone(),
        };
        let description = match &change.description {
            Some(d) => d.clone(),
            None => self.description.clone(),
        };
        (name, description)
    }
}

// ---------------------------------------------------------------------------
// Generated files
// ---------------------------------------------------------------------------

/// Whether `char::is_alphanumeric` holds of `c`.
pub uninterp spec fn alphanumeric(c: char) -> bool;

/// `char::is_alphanumeric` (the Unicode `Alphabetic` or numeric property).
///
/// Trusted: the answer is a function of the character, named
/// `alphanumeric`; which characters have the property is not stated.
#[verifier::external_body]
fn is_alphanumeric(c: char) -> (b: bool)
    ensures
        b == alphanumeric(c),
{
    c.is_alphanumeric()
}

/// The character a config name contributes to its file name.
pub open spec fn file_name_char(c: char) -> char {
    if alphanumeric(c) || c == '-' || c == '_' {
        c
    } else {
        '_'
    }
}

/// A config name made safe for a file name: every character that is not
/// alphanumeric, `-` or `_` becomes `_`.
pub open spec fn safe_name(name: Seq<char>) -> Seq<char> {
    name.map_values(|c: char| file_name_char(c))
}

/// The name of the generated `.rules` file of a config.
pub fn rules_file_name(unique: &str, name: &str) -> (r: String)
    ensures
        r@ == unique@ + "_"@ + safe_name(name@) + ".rules"@,
{
    let mut out = String::new();
    push_str(&mut out, unique);
    push_str(&mut out, "_");
    let ghost start = out@;
    let v = chars_of(name);
    let mut i: usize = 0;
    while i < v.len()
        invariant
            0 <= i <= v.len(),
            v@ == name@,
            out@ == start + safe_name(v@.take(i as int)),
        decreases v.len() - i,
    {
        let c = v[i];
        let d = if is_alphanumeric(c) || c == '-' || c == '_' {
            c
        } else {
            '_'
        };
        push_char(&mut out, d);
        assert(safe_name(v@.take(i + 1)) =~= safe_name(v@.take(i as int)).push(d));
        i = i + 1;
    }
    assert(v@.take(v@.len() as int) =~= v@);
    push_str(&mut out, ".rules");
    out
}

/// What a row for an included config gives: its stored path, or the reason
/// it cannot be included.
pub open spec fn include_row_check(id: i64, row: Option<Option<String>>) -> Result<
    Seq<char>,
    ErrorView,
> {
    match row {
        None => Err(
            ErrorView::BadRequest(
                "included rules config "@ + signed_decimal(id as int) + " not found"@,
            ),
        ),
        Some(None) => Err(
            ErrorView::BadRequest(
                "included rules config "@ + signed_decimal(id as int)
                    + " has not been generated yet"@,
            ),
        ),
        Some(Some(p)) => Ok(p@),
    }
}

/// The id and path of an included config, from its row (`None` when the
/// user has no such config; an inner `None` when its file was not generated).
pub fn include_path(id: i64, row: Option<Option<String>>) -> (r: Result<(i64, String), AppError>)
    ensures
        match r {
            Ok((i, p)) => i == id && include_row_check(id, row) == Ok::<Seq<char>, ErrorView>(p@),
            Err(e) => include_row_check(id, row) == Err::<Seq<char>, ErrorView>(e@),
        },
{
    match row {
        None => {
            let mut m = String::from_str("included rules config ");
            push_signed(&mut m, id);
            push_str(&mut m, " not found");
            Err(AppError::BadRequest(m))
        },
        Some(None) => {
            let mut m = String::from_str("included rules config ");
            push_signed(&mut m, id);
            push_str(&mut m, " has not been generated yet");
            Err(AppError::BadRequest(m))
        },
        Some(Some(p)) => Ok((id, p)),
    }
}

/// A preview runs on CSV files only.
pub fn check_preview_csv(id: i64, file_type: &str) -> (r: Result<(), AppError>)
    ensures
        r is Err <==> file_type@ != "csv"@,
        r matches Err(e) ==> e@ == ErrorView::BadRequest(
            "file "@ + signed_decimal(id as int) + " is not a CSV"@,
        ),
{
    if crate::text::str_eq(file_type, "csv") {
        Ok(())
    } else {
        let mut m = String::from_str("file ");
        push_signed(&mut m, id);
        push_str(&mut m, " is not a CSV");
        Err(AppError::BadRequest(m))
    }
}

} // verus!
