//! Manually entered prices, transactions and periodic transactions: their
//! stored records, the requests that create and change them, and how a
//! change is merged into a stored record.
use vstd::prelude::*;

use crate::json::{is_json_text, json_text_parses};
use crate::manual_entries_gen::{PeriodicEntry, Posting, PriceEntry, TransactionEntry};
use crate::text::push_str;

verus! {

/// The value of a field after a change: the new one when given, else the
/// stored one.
pub open spec fn pick(new: Option<String>, stored: String) -> Seq<char> {
    match new {
        Some(v) => v@,
        None => stored@,
    }
}

fn pick_string(new: Option<String>, stored: &String) -> (r: String)
    ensures
        r@ == pick(new, *stored),
{
    match new {
        Some(v) => v,
        None => stored.clone(),
    }
}

/// The stored postings text as the API answers it: the text when it is
/// JSON, `None` when it is not (the API then answers with an empty array).
pub open spec fn json_or_none(text: String) -> Option<String> {
    if json_text_parses(text@) {
        Some(text)
    } else {
        None
    }
}

fn json_or_none_exec(text: String) -> (r: Option<String>)
    ensures
        r == json_or_none(text),
{
    if is_json_text(text.as_str()) {
        Some(text)
    } else {
        None
    }
}

/// Filter of the list endpoints: the entries of one journal, or all.
#[derive(Debug, Clone)]
pub struct ListQuery {
    pub journal_file_id: Option<i64>,
}

// ---------------------------------------------------------------------------
// Commodity prices
// ---------------------------------------------------------------------------

#[derive(Debug, Clone)]
pub struct CommodityPriceRecord {
    pub id: i64,
    pub user_id: i64,
    pub journal_file_id: i64,
    pub date: String,
    pub commodity: String,
    pub amount: String,
    pub target_commodity: String,
    pub comment: String,
    pub created_at: String,
    pub updated_at: String,
}

#[derive(Debug, Clone)]
pub struct CommodityPriceInfo {
    pub id: i64,
    pub journal_file_id: i64,
    pub date: String,
    pub commodity: String,
    pub amount: String,
    pub target_commodity: String,
    pub comment: String,
    pub created_at: String,
    pub updated_at: String,
}

impl From<CommodityPriceRecord> for CommodityPriceInfo {
    fn from(r: CommodityPriceRecord) -> (info: Self) {
        CommodityPriceInfo {
            id: r.id,
            journal_file_id: r.journal_file_id,
            date: r.date,
            commodity: r.commodity,
            amount: r.amount,
            target_commodity: r.target_commodity,
            comment: r.comment,
            created_at: r.created_at,
            updated_at: r.updated_at,
        }
    }
}

impl vstd::std_specs::convert::FromSpecImpl<CommodityPriceRecord> for CommodityPriceInfo {
    open spec fn obeys_from_spec() -> bool {
        true
    }

    open spec fn from_spec(r: CommodityPriceRecord) -> Self {
        CommodityPriceInfo {
            id: r.id,
            journal_file_id: r.journal_file_id,
            date: r.date,
            commodity: r.commodity,
            amount: r.amount,
            target_commodity: r.target_commodity,
            comment: r.comment,
            created_at: r.created_at,
            updated_at: r.updated_at,
        }
    }
}

#[derive(Debug, Clone)]
pub struct CreatePriceRequest {
    pub journal_file_id: i64,
    pub date: String,
    pub commodity: String,
    pub amount: String,
    pub target_commodity: String,
    pub comment: String,
}

#[derive(Debug, Clone)]
pub struct UpdatePriceRequest {
    pub date: Option<String>,
    pub commodity: Option<String>,
    pub amount: Option<String>,
    pub target_commodity: Option<String>,
    pub comment: Option<String>,
}

impl CreatePriceRequest {
    /// The price directive the request asks for.
    pub fn entry(&self) -> (e: PriceEntry)
        ensures
            e.date@ == self.date@,
            e.commodity@ == self.commodity@,
            e.amount@ == self.amount@,
            e.target_commodity@ == self.target_commodity@,
            e.comment@ == self.comment@,
    {
        PriceEntry {
            date: self.date.clone(),
            commodity: self.commodity.clone(),
            amount: self.amount.clone(),
            target_commodity: self.target_commodity.clone(),
            comment: self.comment.clone(),
        }
    }
}

impl CommodityPriceRecord {
    /// The price directive of a stored price.
    pub fn entry(&self) -> (e: PriceEntry)
        ensures
            e.date@ == self.date@,
            e.commodity@ == self.commodity@,
            e.amount@ == self.amount@,
            e.target_commodity@ == self.target_commodity@,
            e.comment@ == self.comment@,
    {
        PriceEntry {
            date: self.date.clone(),
            commodity: self.commodity.clone(),
            amount: self.amount.clone(),
            target_commodity: self.target_commodity.clone(),
            comment: self.comment.clone(),
        }
    }

    /// The price after a change: each field given in the change replaces
    /// the stored one.
    pub fn updated_with(&self, change: UpdatePriceRequest) -> (e: PriceEntry)
        ensures
            e.date@ == pick(change.date, self.date),
            e.commodity@ == pick(change.commodity, self.commodity),
            e.amount@ == pick(change.amount, self.amount),
            e.target_commodity@ == pick(change.target_commodity, self.target_commodity),
            e.comment@ == pick(change.comment, self.comment),
    {
        PriceEntry {
            date: pick_string(change.date, &self.date),
            commodity: pick_string(change.commodity, &self.commodity),
            amount: pick_string(change.amount, &self.amount),
            target_commodity: pick_string(change.target_commodity, &self.target_commodity),
            comment: pick_string(change.comment, &self.comment),
        }
    }
}

// ---------------------------------------------------------------------------
// Transactions
// ---------------------------------------------------------------------------

#[derive(Debug, Clone)]
pub struct ManualTransactionRecord {
    pub id: i64,
    pub user_id: i64,
    pub journal_file_id: i64,
    pub date: String,
    pub status: String,
    pub code: String,
    pub description: String,
    pub comment: String,
    /// The postings, as JSON text.
    pub postings: String,
    pub created_at: String,
    pub updated_at: String,
}

/// API-facing manual transaction.  `postings` is the stored JSON text, or
/// `None` when the stored text is not JSON (answered as an empty array).
#[derive(Debug, Clone)]
pub struct ManualTransactionInfo {
    pub id: i64,
    pub journal_file_id: i64,
    pub date: String,
    pub status: String,
    pub code: String,
    pub description: String,
    pub comment: String,
    pub postings: Option<String>,
    pub created_at: String,
    pub updated_at: String,
}

impl From<ManualTransactionRecord> for ManualTransactionInfo {
    fn from(r: ManualTransactionRecord) -> (info: Self) {
        ManualTransactionInfo {
            id: r.id,
            journal_file_id: r.journal_file_id,
            date: r.date,
            status: r.status,
            code: r.code,
            description: r.description,
            comment: r.comment,
            postings: json_or_none_exec(r.postings),
            created_at: r.created_at,
            updated_at: r.updated_at,
        }
    }
}

impl vstd::std_specs::convert::FromSpecImpl<ManualTransactionRecord> for ManualTransactionInfo {
    open spec fn obeys_from_spec() -> bool {
        true
    }

    open spec fn from_spec(r: ManualTransactionRecord) -> Self {
        ManualTransactionInfo {
            id: r.id,
            journal_file_id: r.journal_file_id,
            date: r.date,
            status: r.status,
            code: r.code,
            description: r.description,
            comment: r.comment,
            postings: json_or_none(r.postings),
            created_at: r.created_at,
            updated_at: r.updated_at,
        }
    }
}

/// A new manual transaction; `postings` is the JSON text of the postings.
#[derive(Debug, Clone)]
pub struct CreateTransactionRequest {
    pub journal_file_id: i64,
    pub date: String,
    pub status: String,
    pub code: String,
    pub description: String,
    pub comment: String,
    pub postings: String,
}

/// A change to a manual transaction; `postings`, when given, is JSON text.
#[derive(Debug, Clone)]
pub struct UpdateTransactionRequest {
    pub date: Option<String>,
    pub status: Option<String>,
    pub code: Option<String>,
    pub description: Option<String>,
    pub comment: Option<String>,
    pub postings: Option<String>,
}

impl CreateTransactionRequest {
    /// The transaction the request asks for, with its postings as read from
    /// the JSON text.
    pub fn entry(&self, postings: Vec<Posting>) -> (e: TransactionEntry)
        ensures
            e.date@ == self.date@,
            e.status@ == self.status@,
            e.code@ == self.code@,
            e.description@ == self.description@,
            e.comment@ == self.comment@,
            e.postings@ == postings@,
    {
        TransactionEntry {
            date: self.date.clone(),
            status: self.status.clone(),
            code: self.code.clone(),
            description: self.description.clone(),
            comment: self.comment.clone(),
            postings,
        }
    }
}

impl ManualTransactionRecord {
    /// The stored transaction, with its postings as read from the JSON text.
    pub fn entry(&self, postings: Vec<Posting>) -> (e: TransactionEntry)
        ensures
            e.date@ == self.date@,
            e.status@ == self.status@,
            e.code@ == self.code@,
            e.description@ == self.description@,
            e.comment@ == self.comment@,
            e.postings@ == postings@,
    {
        TransactionEntry {
            date: self.date.clone(),
            status: self.status.clone(),
            code: self.code.clone(),
            description: self.description.clone(),
            comment: self.comment.clone(),
            postings,
        }
    }

    /// The record after a change: each field given in the change replaces
    /// the stored one; id, owner, journal and timestamps stay.
    pub fn updated_with(&self, change: UpdateTransactionRequest) -> (r: ManualTransactionRecord)
        ensures
            r.id == self.id,
            r.user_id == self.user_id,
            r.journal_file_id == self.journal_file_id,
            r.date@ == pick(change.date, self.date),
            r.status@ == pick(change.status, self.status),
            r.code@ == pick(change.code, self.code),
            r.description@ == pick(change.description, self.description),
            r.comment@ == pick(change.comment, self.comment),
            r.postings@ == pick(change.postings, self.postings),
            r.created_at@ == self.created_at@,
            r.updated_at@ == self.updated_at@,
    {
        ManualTransactionRecord {
            id: self.id,
            user_id: self.user_id,
            journal_file_id: self.journal_file_id,
            date: pick_string(change.date, &self.date),
            status: pick_string(change.status, &self.status),
            code: pick_string(change.code, &self.code),
            description: pick_string(change.description, &self.description),
            comment: pick_string(change.comment, &self.comment),
            postings: pick_string(change.postings, &self.postings),
            created_at: self.created_at.clone(),
            updated_at: self.updated_at.clone(),
        }
    }
}

// ---------------------------------------------------------------------------
// Periodic transactions
// ---------------------------------------------------------------------------

#[derive(Debug, Clone)]
pub struct PeriodicTransactionRecord {
    pub id: i64,
    pub user_id: i64,
    pub journal_file_id: i64,
    pub period: String,
    pub description: String,
    pub comment: String,
    /// The postings, as JSON text.
    pub postings: String,
    pub created_at: String,
    pub updated_at: String,
}

/// API-facing periodic transaction; `postings` as for
/// [`ManualTransactionInfo`].
#[derive(Debug, Clone)]
pub struct PeriodicTransactionInfo {
    pub id: i64,
    pub journal_file_id: i64,
    pub period: String,
    pub description: String,
    pub comment: String,
    pub postings: Option<String>,
    pub created_at: String,
    pub updated_at: String,
}

impl From<PeriodicTransactionRecord> for PeriodicTransactionInfo {
    fn from(r: PeriodicTransactionRecord) -> (info: Self) {
        PeriodicTransactionInfo {
            id: r.id,
            journal_file_id: r.journal_file_id,
            period: r.period,
            description: r.description,
            comment: r.comment,
            postings: json_or_none_exec(r.postings),
            created_at: r.created_at,
            updated_at: r.updated_at,
        }
    }
}

impl vstd::std_specs::convert::FromSpecImpl<PeriodicTransactionRecord> for PeriodicTransactionInfo {
    open spec fn obeys_from_spec() -> bool {
        true
    }

    open spec fn from_spec(r: PeriodicTransactionRecord) -> Self {
        PeriodicTransactionInfo {
            id: r.id,
            journal_file_id: r.journal_file_id,
            period: r.period,
            description: r.description,
            comment: r.comment,
            postings: json_or_none(r.postings),
            created_at: r.created_at,
            updated_at: r.updated_at,
        }
    }
}

/// A new periodic transaction; `postings` is the JSON text of the postings.
#[derive(Debug, Clone)]
pub struct CreatePeriodicRequest {
    pub journal_file_id: i64,
    pub period: String,
    pub description: String,
    pub comment: String,
    pub postings: String,
}

/// A change to a periodic transaction; `postings`, when given, is JSON text.
#[derive(Debug, Clone)]
pub struct UpdatePeriodicRequest {
    pub period: Option<String>,
    pub description: Option<String>,
    pub comment: Option<String>,
    pub postings: Option<String>,
}

impl CreatePeriodicRequest {
    /// The periodic transaction the request asks for.
    pub fn entry(&self, postings: Vec<Posting>) -> (e: PeriodicEntry)
        ensures
            e.period@ == self.period@,
            e.description@ == self.description@,
            e.comment@ == self.comment@,
            e.postings@ == postings@,
    {
        PeriodicEntry {
            period: self.period.clone(),
            description: self.description.clone(),
            comment: self.comment.clone(),
            postings,
        }
    }
}

impl PeriodicTransactionRecord {
    /// The stored periodic transaction, with its postings as read from the
    /// JSON text.
    pub fn entry(&self, postings: Vec<Posting>) -> (e: PeriodicEntry)
        ensures
            e.period@ == self.period@,
            e.description@ == self.description@,
            e.comment@ == self.comment@,
            e.postings@ == postings@,
    {
        PeriodicEntry {
            period: self.period.clone(),
            description: self.description.clone(),
            comment: self.comment.clone(),
            postings,
        }
    }

    /// The record after a change: each field given in the change replaces
    /// the stored one; id, owner, journal and timestamps stay.
    pub fn updated_with(&self, change: UpdatePeriodicRequest) -> (r: PeriodicTransactionRecord)
        ensures
            r.id == self.id,
            r.user_id == self.user_id,
            r.journal_file_id == self.journal_file_id,
            r.period@ == pick(change.period, self.period),
            r.description@ == pick(change.description, self.description),
            r.comment@ == pick(change.comment, self.comment),
            r.postings@ == pick(change.postings, self.postings),
            r.created_at@ == self.created_at@,
            r.updated_at@ == self.updated_at@,
    {
        PeriodicTransactionRecord {
            id: self.id,
            user_id: self.user_id,
            journal_file_id: self.journal_file_id,
            period: pick_string(change.period, &self.period),
            description: pick_string(change.description, &self.description),
            comment: pick_string(change.comment, &self.comment),
            postings: pick_string(change.postings, &self.postings),
            created_at: self.created_at.clone(),
            updated_at: self.updated_at.clone(),
        }
    }
}

/// The name of the file that holds a user's generated manual entries.
pub fn manual_entries_file_name(unique: &str) -> (r: String)
    ensures
        r@ == unique@ + "_manual-entries.journal"@,
{
    let mut out = String::new();
    push_str(&mut out, unique);
    push_str(&mut out, "_manual-entries.journal");
    out
}

} // verus!
