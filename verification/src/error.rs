//! The error type shared by every part of the API, with the HTTP status and
//! the message each error is answered with.
use vstd::prelude::*;

use crate::text::{push_signed, push_str, signed_decimal};

verus! {

/// Errors the API can answer with.
///
/// The payload of `HledgerParse` and `Io` is the message of the underlying
/// JSON or I/O error.
#[derive(Debug, Clone)]
pub enum AppError {
    HledgerCommand { exit_code: i32, stderr: String },
    HledgerParse(String),
    Io(String),
    BadRequest(String),
    Unauthorized,
    NotFound(String),
    PayloadTooLarge,
    Internal(String),
}

/// The mathematical value of an [`AppError`].
pub enum ErrorView {
    HledgerCommand { exit_code: i32, stderr: Seq<char> },
    HledgerParse(Seq<char>),
    Io(Seq<char>),
    BadRequest(Seq<char>),
    Unauthorized,
    NotFound(Seq<char>),
    PayloadTooLarge,
    Internal(Seq<char>),
}

impl View for AppError {
    type V = ErrorView;

    open spec fn view(&self) -> ErrorView {
        match self {
            AppError::HledgerCommand { exit_code, stderr } => ErrorView::HledgerCommand {
                exit_code: *exit_code,
                stderr: stderr@,
            },
            AppError::HledgerParse(m) => ErrorView::HledgerParse(m@),
            AppError::Io(m) => ErrorView::Io(m@),
            AppError::BadRequest(m) => ErrorView::BadRequest(m@),
            AppError::Unauthorized => ErrorView::Unauthorized,
            AppError::NotFound(m) => ErrorView::NotFound(m@),
            AppError::PayloadTooLarge => ErrorView::PayloadTooLarge,
            AppError::Internal(m) => ErrorView::Internal(m@),
        }
    }
}

/// The view of a `Result` whose success carries nothing.
pub open spec fn unit_view(r: Result<(), AppError>) -> Result<(), ErrorView> {
    match r {
        Ok(()) => Ok(()),
        Err(e) => Err(e@),
    }
}

/// The view of a `Result` whose success carries a text.
pub open spec fn text_view(r: Result<String, AppError>) -> Result<Seq<char>, ErrorView> {
    match r {
        Ok(s) => Ok(s@),
        Err(e) => Err(e@),
    }
}

/// Runs two checks in order and stops at the first failure.
pub open spec fn then_check(
    first: Result<(), ErrorView>,
    second: Result<(), ErrorView>,
) -> Result<(), ErrorView> {
    match first {
        Err(e) => Err(e),
        Ok(()) => second,
    }
}

/// Runs the check `f` on the first `n` indices in order and stops at the
/// first failure.
pub open spec fn check_each(n: nat, f: spec_fn(int) -> Result<(), ErrorView>) -> Result<
    (),
    ErrorView,
>
    decreases n,
{
    if n == 0 {
        Ok(())
    } else {
        then_check(check_each((n - 1) as nat, f), f(n - 1))
    }
}

/// Once the checks fail on a prefix, they fail the same way on every longer
/// prefix.
pub proof fn lemma_check_each_failure(f: spec_fn(int) -> Result<(), ErrorView>, k: nat, n: nat)
    requires
        k <= n,
        check_each(k, f) is Err,
    ensures
        check_each(n, f) == check_each(k, f),
    decreases n - k,
{
    if n > k {
        lemma_check_each_failure(f, k, (n - 1) as nat);
    }
}

/// Whether a check passed, or failed as a bad request.
pub open spec fn ok_or_bad_request(r: Result<(), ErrorView>) -> bool {
    match r {
        Ok(()) => true,
        Err(e) => e is BadRequest,
    }
}

/// The checks on the first `n` indices pass exactly when each of them
/// passes; when every one of them can only fail as a bad request, so can
/// they all together.
pub proof fn lemma_check_each_all(f: spec_fn(int) -> Result<(), ErrorView>, n: nat)
    ensures
        check_each(n, f) is Ok <==> forall|i: int| 0 <= i < n ==> #[trigger] f(i) is Ok,
        (forall|i: int| 0 <= i < n ==> ok_or_bad_request(#[trigger] f(i))) ==> ok_or_bad_request(
            check_each(n, f),
        ),
    decreases n,
{
    if n > 0 {
        lemma_check_each_all(f, (n - 1) as nat);
    }
}

/// Prefixes the message of a `BadRequest` failure.
pub open spec fn with_context(r: Result<(), ErrorView>, prefix: Seq<char>) -> Result<
    (),
    ErrorView,
> {
    match r {
        Err(ErrorView::BadRequest(m)) => Err(ErrorView::BadRequest(prefix + m)),
        other => other,
    }
}

/// The HTTP status an error is answered with.
pub open spec fn status_of(e: ErrorView) -> u16 {
    match e {
        ErrorView::BadRequest(_) => 400,
        ErrorView::Unauthorized => 401,
        ErrorView::NotFound(_) => 404,
        ErrorView::PayloadTooLarge => 413,
        _ => 500,
    }
}

/// The human-readable message of an error.
pub open spec fn message_of(e: ErrorView) -> Seq<char> {
    match e {
        ErrorView::HledgerCommand { exit_code, stderr } => "hledger error (exit "@
            + signed_decimal(exit_code as int) + "): "@ + stderr,
        ErrorView::HledgerParse(m) => "failed to parse hledger output: "@ + m,
        ErrorView::Io(m) => "IO error: "@ + m,
        ErrorView::BadRequest(m) => "bad request: "@ + m,
        ErrorView::Unauthorized => "unauthorized"@,
        ErrorView::NotFound(m) => "not found: "@ + m,
        ErrorView::PayloadTooLarge => "payload too large"@,
        ErrorView::Internal(m) => "internal error: "@ + m,
    }
}

impl AppError {
    /// A `BadRequest` error with the given message.
    pub fn bad_request(msg: String) -> (e: AppError)
        ensures
            e@ == ErrorView::BadRequest(msg@),
    {
        AppError::BadRequest(msg)
    }

    /// `NotFound` for the item of the given kind with the given id, as in
    /// `file 7`.
    pub fn not_found(kind: &str, id: i64) -> (e: AppError)
        ensures
            e@ == ErrorView::NotFound(kind@ + " "@ + signed_decimal(id as int)),
    {
        let mut m = String::new();
        push_str(&mut m, kind);
        push_str(&mut m, " ");
        push_signed(&mut m, id);
        AppError::NotFound(m)
    }

    /// The HTTP status code this error is answered with.
    pub fn status_code(&self) -> (code: u16)
        ensures
            code == status_of(self@),
    {
        match self {
            AppError::BadRequest(_) => 400,
            AppError::Unauthorized => 401,
            AppError::NotFound(_) => 404,
            AppError::PayloadTooLarge => 413,
            _ => 500,
        }
    }

    /// The message this error is answered with.
    pub fn message(&self) -> (m: String)
        ensures
            m@ == message_of(self@),
    {
        let mut out = String::new();
        match self {
            AppError::HledgerCommand { exit_code, stderr } => {
                push_str(&mut out, "hledger error (exit ");
                push_signed(&mut out, *exit_code as i64);
                push_str(&mut out, "): ");
                push_str(&mut out, stderr.as_str());
            },
            AppError::HledgerParse(m) => {
                push_str(&mut out, "failed to parse hledger output: ");
                push_str(&mut out, m.as_str());
            },
            AppError::Io(m) => {
                push_str(&mut out, "IO error: ");
                push_str(&mut out, m.as_str());
            },
            AppError::BadRequest(m) => {
                push_str(&mut out, "bad request: ");
                push_str(&mut out, m.as_str());
            },
            AppError::Unauthorized => {
                push_str(&mut out, "unauthorized");
            },
            AppError::NotFound(m) => {
                push_str(&mut out, "not found: ");
                push_str(&mut out, m.as_str());
            },
            AppError::PayloadTooLarge => {
                push_str(&mut out, "payload too large");
            },
            AppError::Internal(m) => {
                push_str(&mut out, "internal error: ");
                push_str(&mut out, m.as_str());
            },
        }
        out
    }
}

} // verus!
