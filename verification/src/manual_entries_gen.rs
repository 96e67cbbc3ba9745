//! Generates hledger journal text from structured manual entry data.
use vstd::prelude::*;

use crate::error::{then_check, unit_view, text_view, AppError, ErrorView};
use crate::pattern::{regex_compile_error, regex_finds_match, Pattern};
use crate::text::{blank, decimal, is_blank, push_decimal, push_str};

verus! {

// ---------------------------------------------------------------------------
// Domain types
// ---------------------------------------------------------------------------

#[derive(Debug, Clone)]
pub struct Posting {
    pub account: String,
    pub amount: Option<String>,
    pub commodity: Option<String>,
    pub comment: Option<String>,
}

#[derive(Debug, Clone)]
pub struct PriceEntry {
    pub date: String,
    pub commodity: String,
    pub amount: String,
    pub target_commodity: String,
    pub comment: String,
}

#[derive(Debug, Clone)]
pub struct TransactionEntry {
    pub date: String,
    pub status: String,
    pub code: String,
    pub description: String,
    pub comment: String,
    pub postings: Vec<Posting>,
}

#[derive(Debug, Clone)]
pub struct PeriodicEntry {
    pub period: String,
    pub description: String,
    pub comment: String,
    pub postings: Vec<Posting>,
}

/// The text of an optional field, when present and not empty.
pub open spec fn present(o: Option<String>) -> Option<Seq<char>> {
    match o {
        Some(s) => if s@.len() > 0 {
            Some(s@)
        } else {
            None
        },
        None => None,
    }
}

/// Concatenates the texts that `f` gives for each element, in order.
pub open spec fn concat_map<T>(s: Seq<T>, f: spec_fn(T) -> Seq<char>) -> Seq<char>
    decreases s.len(),
{
    if s.len() == 0 {
        Seq::empty()
    } else {
        concat_map(s.drop_last(), f) + f(s.last())
    }
}

pub proof fn lemma_concat_map_step<T>(s: Seq<T>, f: spec_fn(T) -> Seq<char>, i: int)
    requires
        0 <= i < s.len(),
    ensures
        concat_map(s.take(i + 1), f) == concat_map(s.take(i), f) + f(s[i]),
{
    assert(s.take(i + 1).drop_last() =~= s.take(i));
}

pub proof fn lemma_take_all<T>(s: Seq<T>)
    ensures
        s.take(s.len() as int) == s,
{
    assert(s.take(s.len() as int) =~= s);
}

// ---------------------------------------------------------------------------
// Validation
// ---------------------------------------------------------------------------

/// A calendar date `YYYY-MM-DD`.
pub const DATE_PATTERN: &'static str = "^\\d{4}-\\d{2}-\\d{2}$";

/// A decimal number such as `-12.50`.
pub const AMOUNT_PATTERN: &'static str = "^-?\\d+(\\.\\d+)?$";

/// The error for a built-in pattern that the regex engine refused.
pub open spec fn builtin_pattern_error(m: Seq<char>) -> ErrorView {
    ErrorView::Internal("built-in pattern rejected: "@ + m)
}

/// Outcome of checking `text` against a built-in pattern; `refused` is the
/// error for a text that does not match.
pub open spec fn pattern_check(pattern: Seq<char>, text: Seq<char>, refused: ErrorView) -> Result<
    (),
    ErrorView,
> {
    match regex_compile_error(pattern) {
        Some(m) => Err(builtin_pattern_error(m)),
        None => if regex_finds_match(pattern, text) {
            Ok(())
        } else {
            Err(refused)
        },
    }
}

pub open spec fn date_check(date: Seq<char>, ctx: Seq<char>) -> Result<(), ErrorView> {
    pattern_check(
        DATE_PATTERN@,
        date,
        ErrorView::BadRequest(ctx + ": invalid date '"@ + date + "'; expected YYYY-MM-DD"@),
    )
}

pub open spec fn amount_check(amount: Seq<char>, ctx: Seq<char>) -> Result<(), ErrorView> {
    pattern_check(
        AMOUNT_PATTERN@,
        amount,
        ErrorView::BadRequest(ctx + ": invalid amount '"@ + amount + "'; expected a decimal number"@),
    )
}

pub open spec fn nonempty_check(value: Seq<char>, field: Seq<char>, ctx: Seq<char>) -> Result<
    (),
    ErrorView,
> {
    if is_blank(value) {
        Err(ErrorView::BadRequest(ctx + ": "@ + field + " cannot be empty"@))
    } else {
        Ok(())
    }
}

/// The context naming the `n`-th posting (counting from 1).
pub open spec fn posting_ctx(ctx: Seq<char>, n: nat) -> Seq<char> {
    ctx + " posting #"@ + decimal(n)
}

pub open spec fn posting_check(p: Posting, ctx: Seq<char>) -> Result<(), ErrorView> {
    then_check(
        nonempty_check(p.account@, "account"@, ctx),
        match present(p.amount) {
            Some(a) => amount_check(a, ctx),
            None => Ok(()),
        },
    )
}

/// Checks the first `n` postings in order.
pub open spec fn postings_prefix_check(ps: Seq<Posting>, ctx: Seq<char>, n: nat) -> Result<
    (),
    ErrorView,
>
    decreases n,
{
    if n == 0 {
        Ok(())
    } else {
        then_check(
            postings_prefix_check(ps, ctx, (n - 1) as nat),
            posting_check(ps[n - 1], posting_ctx(ctx, n)),
        )
    }
}

/// Once a prefix of the postings fails, every longer prefix fails the same way.
pub proof fn lemma_prefix_failure_persists(ps: Seq<Posting>, ctx: Seq<char>, k: nat, n: nat)
    requires
        k <= n,
        postings_prefix_check(ps, ctx, k) is Err,
    ensures
        postings_prefix_check(ps, ctx, n) == postings_prefix_check(ps, ctx, k),
    decreases n - k,
{
    if n > k {
        lemma_prefix_failure_persists(ps, ctx, k, (n - 1) as nat);
    }
}

pub open spec fn postings_check(ps: Seq<Posting>, ctx: Seq<char>) -> Result<(), ErrorView> {
    if ps.len() == 0 {
        Err(ErrorView::BadRequest(ctx + ": must have at least one posting"@))
    } else {
        postings_prefix_check(ps, ctx, ps.len())
    }
}

pub open spec fn price_check(p: PriceEntry) -> Result<(), ErrorView> {
    then_check(
        date_check(p.date@, "price"@),
        then_check(
            nonempty_check(p.commodity@, "commodity"@, "price"@),
            then_check(
                amount_check(p.amount@, "price"@),
                nonempty_check(p.target_commodity@, "target commodity"@, "price"@),
            ),
        ),
    )
}

pub open spec fn transaction_check(t: TransactionEntry) -> Result<(), ErrorView> {
    then_check(
        date_check(t.date@, "transaction"@),
        then_check(
            nonempty_check(t.description@, "description"@, "transaction"@),
            postings_check(t.postings@, "transaction"@),
        ),
    )
}

pub open spec fn periodic_check(p: PeriodicEntry) -> Result<(), ErrorView> {
    then_check(
        nonempty_check(p.period@, "period"@, "periodic transaction"@),
        postings_check(p.postings@, "periodic transaction"@),
    )
}

fn check_pattern(pattern: &str, text: &str, refused: AppError) -> (r: Result<(), AppError>)
    ensures
        unit_view(r) == pattern_check(pattern@, text@, refused@),
{
    match Pattern::compile(pattern) {
        Err(m) => {
            let mut msg = String::new();
            push_str(&mut msg, "built-in pattern rejected: ");
            push_str(&mut msg, m.as_str());
            Err(AppError::Internal(msg))
        },
        Ok(p) => {
            if p.is_match(text) {
                Ok(())
            } else {
                Err(refused)
            }
        },
    }
}

fn validate_date(date: &str, ctx: &str) -> (r: Result<(), AppError>)
    ensures
        unit_view(r) == date_check(date@, ctx@),
{
    let mut msg = String::new();
    push_str(&mut msg, ctx);
    push_str(&mut msg, ": invalid date '");
    push_str(&mut msg, date);
    push_str(&mut msg, "'; expected YYYY-MM-DD");
    check_pattern(DATE_PATTERN, date, AppError::BadRequest(msg))
}

fn validate_amount(amount: &str, ctx: &str) -> (r: Result<(), AppError>)
    ensures
        unit_view(r) == amount_check(amount@, ctx@),
{
    let mut msg = String::new();
    push_str(&mut msg, ctx);
    push_str(&mut msg, ": invalid amount '");
    push_str(&mut msg, amount);
    push_str(&mut msg, "'; expected a decimal number");
    check_pattern(AMOUNT_PATTERN, amount, AppError::BadRequest(msg))
}

fn validate_nonempty(value: &str, field: &str, ctx: &str) -> (r: Result<(), AppError>)
    ensures
        unit_view(r) == nonempty_check(value@, field@, ctx@),
{
    if blank(value) {
        let mut msg = String::new();
        push_str(&mut msg, ctx);
        push_str(&mut msg, ": ");
        push_str(&mut msg, field);
        push_str(&mut msg, " cannot be empty");
        return Err(AppError::BadRequest(msg));
    }
    Ok(())
}

fn validate_postings(postings: &[Posting], ctx: &str) -> (r: Result<(), AppError>)
    ensures
        unit_view(r) == postings_check(postings@, ctx@),
{
    if postings.len() == 0 {
        let mut msg = String::new();
        push_str(&mut msg, ctx);
        push_str(&mut msg, ": must have at least one posting");
        return Err(AppError::BadRequest(msg));
    }
    let mut i: usize = 0;
    while i < postings.len()
        invariant
            0 <= i <= postings.len(),
            postings_prefix_check(postings@, ctx@, i as nat) == Ok::<(), ErrorView>(()),
        decreases postings.len() - i,
    {
        let p = &postings[i];
        let mut pctx = String::new();
        push_str(&mut pctx, ctx);
        push_str(&mut pctx, " posting #");
        push_decimal(&mut pctx, (i + 1) as u64);
        assert(pctx@ == posting_ctx(ctx@, (i + 1) as nat));
        let r1 = validate_nonempty(p.account.as_str(), "account", pctx.as_str());
        if r1.is_err() {
            proof {
                lemma_prefix_failure_persists(postings@, ctx@, (i + 1) as nat, postings@.len());
            }
            return r1;
        }
        match &p.amount {
            Some(amt) => {
                if !amt.as_str().is_empty() {
                    let r2 = validate_amount(amt.as_str(), pctx.as_str());
                    if r2.is_err() {
                        proof {
                            lemma_prefix_failure_persists(
                                postings@,
                                ctx@,
                                (i + 1) as nat,
                                postings@.len(),
                            );
                        }
                        return r2;
                    }
                }
            },
            None => {},
        }
        assert(posting_check(postings@[i as int], posting_ctx(ctx@, (i + 1) as nat)) is Ok);
        i = i + 1;
    }
    Ok(())
}

/// Checks a commodity price entry: a valid date, a commodity, a decimal
/// amount and a target commodity, in that order.
pub fn validate_price(p: &PriceEntry) -> (r: Result<(), AppError>)
    ensures
        unit_view(r) == price_check(*p),
{
    let r = validate_date(p.date.as_str(), "price");
    if r.is_err() {
        return r;
    }
    let r = validate_nonempty(p.commodity.as_str(), "commodity", "price");
    if r.is_err() {
        return r;
    }
    let r = validate_amount(p.amount.as_str(), "price");
    if r.is_err() {
        return r;
    }
    validate_nonempty(p.target_commodity.as_str(), "target commodity", "price")
}

/// Checks a manual transaction: a valid date, a description and at least
/// one well-formed posting.
pub fn validate_transaction(t: &TransactionEntry) -> (r: Result<(), AppError>)
    ensures
        unit_view(r) == transaction_check(*t),
{
    let r = validate_date(t.date.as_str(), "transaction");
    if r.is_err() {
        return r;
    }
    let r = validate_nonempty(t.description.as_str(), "description", "transaction");
    if r.is_err() {
        return r;
    }
    validate_postings(t.postings.as_slice(), "transaction")
}

/// Checks a periodic transaction: a period and at least one well-formed
/// posting.
pub fn validate_periodic(p: &PeriodicEntry) -> (r: Result<(), AppError>)
    ensures
        unit_view(r) == periodic_check(*p),
{
    let r = validate_nonempty(p.period.as_str(), "period", "periodic transaction");
    if r.is_err() {
        return r;
    }
    validate_postings(p.postings.as_slice(), "periodic transaction")
}

// ---------------------------------------------------------------------------
// Generation
// ---------------------------------------------------------------------------

/// One posting line: account, then amount and commodity when given, then
/// a comment when given.
pub open spec fn posting_line(p: Posting) -> Seq<char> {
    "    "@ + p.account@ + (match (present(p.amount), present(p.commodity)) {
        (Some(a), Some(c)) => "  "@ + a + " "@ + c,
        (Some(a), None) => "  "@ + a,
        (None, _) => Seq::empty(),
    }) + (match present(p.comment) {
        Some(c) => "  ; "@ + c,
        None => Seq::empty(),
    }) + "\n"@
}

pub open spec fn postings_text(ps: Seq<Posting>) -> Seq<char> {
    concat_map(ps, |p: Posting| posting_line(p))
}

pub open spec fn price_text(p: PriceEntry) -> Seq<char> {
    (if p.comment@.len() > 0 {
        "; "@ + p.comment@ + "\n"@
    } else {
        Seq::empty()
    }) + "P "@ + p.date@ + " "@ + p.commodity@ + " "@ + p.amount@ + " "@ + p.target_commodity@
        + "\n"@
}

pub open spec fn periodic_text(p: PeriodicEntry) -> Seq<char> {
    "~ "@ + p.period@ + (if p.description@.len() > 0 {
        "  "@ + p.description@
    } else {
        Seq::empty()
    }) + "\n"@ + (if p.comment@.len() > 0 {
        "    ; "@ + p.comment@ + "\n"@
    } else {
        Seq::empty()
    }) + postings_text(p.postings@)
}

/// First line `DATE [STATUS] [(CODE)] DESCRIPTION`, an optional comment line,
/// then the postings.
pub open spec fn transaction_text(t: TransactionEntry) -> Seq<char> {
    t.date@ + (if t.status@.len() > 0 {
        " "@ + t.status@
    } else {
        Seq::empty()
    }) + (if t.code@.len() > 0 {
        " ("@ + t.code@ + ")"@
    } else {
        Seq::empty()
    }) + " "@ + t.description@ + "\n"@ + (if t.comment@.len() > 0 {
        "    ; "@ + t.comment@ + "\n"@
    } else {
        Seq::empty()
    }) + postings_text(t.postings@)
}

pub open spec fn prices_section(prices: Seq<PriceEntry>) -> Seq<char> {
    if prices.len() == 0 {
        Seq::empty()
    } else {
        "; --- Prices ---\n"@ + concat_map(prices, |p: PriceEntry| price_text(p))
    }
}

pub open spec fn periodics_section(periodics: Seq<PeriodicEntry>, before: Seq<char>) -> Seq<
    char,
> {
    if periodics.len() == 0 {
        Seq::empty()
    } else {
        (if before.len() > 0 {
            "\n"@
        } else {
            Seq::empty()
        }) + "; --- Periodic transactions (budgets) ---\n"@ + concat_map(
            periodics,
            |p: PeriodicEntry| periodic_text(p),
        )
    }
}

pub open spec fn transactions_section(txns: Seq<TransactionEntry>, before: Seq<char>) -> Seq<
    char,
> {
    if txns.len() == 0 {
        Seq::empty()
    } else {
        (if before.len() > 0 {
            "\n"@
        } else {
            Seq::empty()
        }) + "; --- Manual transactions ---\n"@ + concat_map(
            txns,
            |t: TransactionEntry| transaction_text(t),
        )
    }
}

/// The whole generated journal: prices, then periodic transactions, then
/// manual transactions, each section present only when it has entries.
pub open spec fn journal_text(
    prices: Seq<PriceEntry>,
    txns: Seq<TransactionEntry>,
    periodics: Seq<PeriodicEntry>,
) -> Seq<char> {
    let a = prices_section(prices);
    let b = periodics_section(periodics, a);
    let c = transactions_section(txns, a + b);
    a + b + c
}

fn push_opt_nonempty_prefixed(out: &mut String, prefix: &str, value: &Option<String>)
    ensures
        final(out)@ == old(out)@ + match present(*value) {
            Some(v) => prefix@ + v,
            None => Seq::empty(),
        },
{
    match value {
        Some(v) => {
            if !v.as_str().is_empty() {
                push_str(out, prefix);
                push_str(out, v.as_str());
            } else {
                assert(old(out)@ + Seq::<char>::empty() =~= old(out)@);
            }
        },
        None => {
            assert(old(out)@ + Seq::<char>::empty() =~= old(out)@);
        },
    }
}

fn write_posting(out: &mut String, p: &Posting)
    ensures
        final(out)@ == old(out)@ + posting_line(*p),
{
    push_str(out, "    ");
    push_str(out, p.account.as_str());
    let ghost before_amount = out@;
    let has_amount = match &p.amount {
        Some(a) => !a.as_str().is_empty(),
        None => false,
    };
    if has_amount {
        push_opt_nonempty_prefixed(out, "  ", &p.amount);
        push_opt_nonempty_prefixed(out, " ", &p.commodity);
    } else {
        assert(out@ =~= out@ + Seq::<char>::empty());
    }
    push_opt_nonempty_prefixed(out, "  ; ", &p.comment);
    push_str(out, "\n");
    assert(final(out)@ =~= old(out)@ + posting_line(*p));
}

fn write_postings(out: &mut String, postings: &[Posting])
    ensures
        final(out)@ == old(out)@ + postings_text(postings@),
{
    let mut i: usize = 0;
    while i < postings.len()
        invariant
            0 <= i <= postings.len(),
            out@ == old(out)@ + postings_text(postings@.take(i as int)),
        decreases postings.len() - i,
    {
        proof {
            lemma_concat_map_step(postings@, |p: Posting| posting_line(p), i as int);
        }
        write_posting(out, &postings[i]);
        assert(out@ =~= old(out)@ + postings_text(postings@.take(i + 1)));
        i = i + 1;
    }
    proof {
        lemma_take_all(postings@);
    }
}

fn write_price(out: &mut String, p: &PriceEntry)
    ensures
        final(out)@ == old(out)@ + price_text(*p),
{
    let ghost start = out@;
    if !p.comment.as_str().is_empty() {
        push_str(out, "; ");
        push_str(out, p.comment.as_str());
        push_str(out, "\n");
    }
    push_str(out, "P ");
    push_str(out, p.date.as_str());
    push_str(out, " ");
    push_str(out, p.commodity.as_str());
    push_str(out, " ");
    push_str(out, p.amount.as_str());
    push_str(out, " ");
    push_str(out, p.target_commodity.as_str());
    push_str(out, "\n");
    assert(out@ =~= start + price_text(*p));
}

fn write_periodic(out: &mut String, p: &PeriodicEntry)
    ensures
        final(out)@ == old(out)@ + periodic_text(*p),
{
    let ghost start = out@;
    push_str(out, "~ ");
    push_str(out, p.period.as_str());
    if !p.description.as_str().is_empty() {
        push_str(out, "  ");
        push_str(out, p.description.as_str());
    }
    push_str(out, "\n");
    if !p.comment.as_str().is_empty() {
        push_str(out, "    ; ");
        push_str(out, p.comment.as_str());
        push_str(out, "\n");
    }
    let ghost mid = out@;
    write_postings(out, p.postings.as_slice());
    assert(out@ =~= start + periodic_text(*p));
}

/// Appends `prefix + value + suffix` when `value` is not empty.
fn push_if_nonempty(out: &mut String, prefix: &str, value: &String, suffix: &str)
    ensures
        final(out)@ == old(out)@ + (if value@.len() > 0 {
            prefix@ + value@ + suffix@
        } else {
            Seq::empty()
        }),
{
    if !value.as_str().is_empty() {
        push_str(out, prefix);
        push_str(out, value.as_str());
        push_str(out, suffix);
        assert(out@ =~= old(out)@ + (prefix@ + value@ + suffix@));
    } else {
        assert(out@ =~= old(out)@ + Seq::<char>::empty());
    }
}

fn write_transaction(out: &mut String, t: &TransactionEntry)
    ensures
        final(out)@ == old(out)@ + transaction_text(*t),
{
    let ghost start = out@;
    push_str(out, t.date.as_str());
    push_if_nonempty(out, " ", &t.status, "");
    proof {
        reveal_strlit("");
    }
    assert(" "@ + t.status@ + ""@ =~= " "@ + t.status@);
    push_if_nonempty(out, " (", &t.code, ")");
    push_str(out, " ");
    push_str(out, t.description.as_str());
    push_str(out, "\n");
    let ghost head = out@;
    push_if_nonempty(out, "    ; ", &t.comment, "\n");
    let ghost mid = out@;
    write_postings(out, t.postings.as_slice());
    assert(out@ =~= start + transaction_text(*t));
}

/// Generates the journal text for the given manual entries: a prices
/// section, a periodic transactions section and a manual transactions
/// section, each only when it has entries, separated by blank lines.
pub fn generate_journal_text(
    prices: &[PriceEntry],
    transactions: &[TransactionEntry],
    periodics: &[PeriodicEntry],
) -> (r: Result<String, AppError>)
    ensures
        text_view(r) == Ok::<Seq<char>, ErrorView>(
            journal_text(prices@, transactions@, periodics@),
        ),
{
    let mut out = String::new();

    if prices.len() > 0 {
        push_str(&mut out, "; --- Prices ---\n");
        let ghost head = out@;
        let mut i: usize = 0;
        while i < prices.len()
            invariant
                0 <= i <= prices.len(),
                out@ == head + concat_map(prices@.take(i as int), |p: PriceEntry| price_text(p)),
            decreases prices.len() - i,
        {
            proof {
                lemma_concat_map_step(prices@, |p: PriceEntry| price_text(p), i as int);
            }
            write_price(&mut out, &prices[i]);
            assert(out@ =~= head + concat_map(
                prices@.take(i + 1),
                |p: PriceEntry| price_text(p),
            ));
            i = i + 1;
        }
        proof {
            lemma_take_all(prices@);
        }
    }
    let ghost a = out@;
    assert(a =~= prices_section(prices@));

    if periodics.len() > 0 {
        if !out.as_str().is_empty() {
            push_str(&mut out, "\n");
        }
        push_str(&mut out, "; --- Periodic transactions (budgets) ---\n");
        let ghost head = out@;
        let mut i: usize = 0;
        while i < periodics.len()
            invariant
                0 <= i <= periodics.len(),
                out@ == head + concat_map(
                    periodics@.take(i as int),
                    |p: PeriodicEntry| periodic_text(p),
                ),
            decreases periodics.len() - i,
        {
            proof {
                lemma_concat_map_step(periodics@, |p: PeriodicEntry| periodic_text(p), i as int);
            }
            write_periodic(&mut out, &periodics[i]);
            assert(out@ =~= head + concat_map(
                periodics@.take(i + 1),
                |p: PeriodicEntry| periodic_text(p),
            ));
            i = i + 1;
        }
        proof {
            lemma_take_all(periodics@);
        }
    }
    let ghost ab = out@;
    assert(ab =~= a + periodics_section(periodics@, a));

    if transactions.len() > 0 {
        if !out.as_str().is_empty() {
            push_str(&mut out, "\n");
        }
        push_str(&mut out, "; --- Manual transactions ---\n");
        let ghost head = out@;
        let mut i: usize = 0;
        while i < transactions.len()
            invariant
                0 <= i <= transactions.len(),
                out@ == head + concat_map(
                    transactions@.take(i as int),
                    |t: TransactionEntry| transaction_text(t),
                ),
            decreases transactions.len() - i,
        {
            proof {
                lemma_concat_map_step(
                    transactions@,
                    |t: TransactionEntry| transaction_text(t),
                    i as int,
                );
            }
            write_transaction(&mut out, &transactions[i]);
            assert(out@ =~= head + concat_map(
                transactions@.take(i + 1),
                |t: TransactionEntry| transaction_text(t),
            ));
            i = i + 1;
        }
        proof {
            lemma_take_all(transactions@);
        }
    }
    assert(out@ =~= journal_text(prices@, transactions@, periodics@));
    Ok(out)
}

// ---------------------------------------------------------------------------
// What validation accepts
// ---------------------------------------------------------------------------

/// The built-in date and amount patterns are accepted by the regex engine.
pub open spec fn builtin_patterns_compile() -> bool {
    regex_compile_error(DATE_PATTERN@) is None && regex_compile_error(AMOUNT_PATTERN@) is None
}

/// A refusal is a `BadRequest`.
pub open spec fn refused_as_bad_request(r: Result<(), ErrorView>) -> bool {
    r matches Err(e) ==> e is BadRequest
}

/// A posting is valid: its account is not blank, and its amount, when given
/// and not empty, is a decimal number.
pub open spec fn posting_ok(p: Posting) -> bool {
    &&& !is_blank(p.account@)
    &&& match present(p.amount) {
        Some(a) => regex_finds_match(AMOUNT_PATTERN@, a),
        None => true,
    }
}

proof fn lemma_postings_prefix_ok(ps: Seq<Posting>, ctx: Seq<char>, n: nat)
    requires
        builtin_patterns_compile(),
        n <= ps.len(),
    ensures
        postings_prefix_check(ps, ctx, n) is Ok <==> forall|i: int|
            0 <= i < n ==> posting_ok(#[trigger] ps[i]),
        refused_as_bad_request(postings_prefix_check(ps, ctx, n)),
    decreases n,
{
    if n > 0 {
        lemma_postings_prefix_ok(ps, ctx, (n - 1) as nat);
        if postings_prefix_check(ps, ctx, n) is Ok {
            assert forall|i: int| 0 <= i < n implies posting_ok(#[trigger] ps[i]) by {
                if i == n - 1 {
                } else {
                    assert(0 <= i < n - 1);
                }
            }
        } else {
            if forall|i: int| 0 <= i < n ==> posting_ok(#[trigger] ps[i]) {
                assert(posting_ok(ps[n - 1]));
            }
        }
    }
}

/// With the built-in patterns accepted, a price is valid exactly when its
/// date is `YYYY-MM-DD`, its amount a decimal number, and neither commodity
/// is blank; the comment is free; every refusal is a `BadRequest`.
pub proof fn lemma_price_check_accepts(p: PriceEntry)
    requires
        builtin_patterns_compile(),
    ensures
        price_check(p) is Ok <==> regex_finds_match(DATE_PATTERN@, p.date@) && !is_blank(
            p.commodity@,
        ) && regex_finds_match(AMOUNT_PATTERN@, p.amount@) && !is_blank(p.target_commodity@),
        refused_as_bad_request(price_check(p)),
{
}

/// With the built-in patterns accepted, a transaction is valid exactly when
/// its date is `YYYY-MM-DD`, its description is not blank, and it has
/// postings, each valid; status, code and comment are free; every refusal
/// is a `BadRequest`.
pub proof fn lemma_transaction_check_accepts(t: TransactionEntry)
    requires
        builtin_patterns_compile(),
    ensures
        transaction_check(t) is Ok <==> regex_finds_match(DATE_PATTERN@, t.date@) && !is_blank(
            t.description@,
        ) && t.postings@.len() > 0 && forall|i: int|
            0 <= i < t.postings@.len() ==> posting_ok(#[trigger] t.postings@[i]),
        refused_as_bad_request(transaction_check(t)),
{
    lemma_postings_prefix_ok(t.postings@, "transaction"@, t.postings@.len());
}

/// With the built-in patterns accepted, a periodic transaction is valid
/// exactly when its period is not blank and it has postings, each valid;
/// no date is checked; every refusal is a `BadRequest`.
pub proof fn lemma_periodic_check_accepts(p: PeriodicEntry)
    requires
        builtin_patterns_compile(),
    ensures
        periodic_check(p) is Ok <==> !is_blank(p.period@) && p.postings@.len() > 0 && forall|i: int|
            0 <= i < p.postings@.len() ==> posting_ok(#[trigger] p.postings@[i]),
        refused_as_bad_request(periodic_check(p)),
{
    lemma_postings_prefix_ok(p.postings@, "periodic transaction"@, p.postings@.len());
}

} // verus!

verus! {

// ---------------------------------------------------------------------------
// Laws of the generated text
// ---------------------------------------------------------------------------

/// A posting whose amount is given and not empty has that amount on its
/// line, two spaces after the account, whether or not a commodity is given;
/// a commodity that is given and not empty follows the amount after one
/// space.
pub proof fn lemma_posting_line_keeps_amount(p: Posting)
    ensures
        p.amount matches Some(a) && a@.len() > 0 ==> ("    "@ + p.account@ + "  "@
            + p.amount.unwrap()@).is_prefix_of(posting_line(p)),
        p.amount matches Some(a) && a@.len() > 0 ==> p.commodity matches Some(c) && c@.len() > 0
            ==> ("    "@ + p.account@ + "  "@ + p.amount.unwrap()@ + " "@
            + p.commodity.unwrap()@).is_prefix_of(posting_line(p)),
{
    if p.amount matches Some(a) && a@.len() > 0 {
        let a = p.amount.unwrap()@;
        let rest = (match present(p.comment) {
            Some(c) => "  ; "@ + c,
            None => Seq::empty(),
        }) + "\n"@;
        match present(p.commodity) {
            Some(c) => {
                let q = "    "@ + p.account@ + "  "@ + a + " "@ + c;
                assert(posting_line(p) =~= q + rest);
                assert(posting_line(p).subrange(0, q.len() as int) =~= q);
                let q1 = "    "@ + p.account@ + "  "@ + a;
                assert(posting_line(p).subrange(0, q1.len() as int) =~= q1);
            },
            None => {
                let q1 = "    "@ + p.account@ + "  "@ + a;
                assert(posting_line(p) =~= q1 + rest);
                assert(posting_line(p).subrange(0, q1.len() as int) =~= q1);
            },
        }
    }
}

/// The comment of a manual transaction is never lost: when it is not empty,
/// the line right after the transaction's first line is `    ; COMMENT`
/// (provided the fields of the first line hold no line break).
pub proof fn lemma_transaction_comment_line(t: TransactionEntry)
    requires
        t.comment@.len() > 0,
        !t.date@.contains('\n'),
        !t.status@.contains('\n'),
        !t.code@.contains('\n'),
        !t.description@.contains('\n'),
    ensures
        ({
            let text = transaction_text(t);
            let line = "    ; "@ + t.comment@ + "\n"@;
            exists|k: int|
                0 <= k < text.len() && #[trigger] text[k] == '\n' && (forall|i: int|
                    0 <= i < k ==> text[i] != '\n') && k + 1 + line.len() <= text.len()
                    && text.subrange(k + 1, k + 1 + line.len()) == line
        }),
{
    reveal_strlit(" ");
    reveal_strlit(" (");
    reveal_strlit(")");
    reveal_strlit("\n");
    let text = transaction_text(t);
    let line = "    ; "@ + t.comment@ + "\n"@;
    let st = if t.status@.len() > 0 {
        " "@ + t.status@
    } else {
        Seq::empty()
    };
    let cd = if t.code@.len() > 0 {
        " ("@ + t.code@ + ")"@
    } else {
        Seq::empty()
    };
    let first = t.date@ + st + cd + " "@ + t.description@;
    assert forall|i: int| 0 <= i < first.len() implies first[i] != '\n' by {
        if i < t.date@.len() {
            assert(first[i] == t.date@[i]);
        } else if i < t.date@.len() + st.len() {
            assert(first[i] == st[i - t.date@.len()]);
            if t.status@.len() > 0 && i > t.date@.len() {
                assert(st[i - t.date@.len()] == t.status@[i - t.date@.len() - 1]);
            }
        } else if i < t.date@.len() + st.len() + cd.len() {
            let j = i - t.date@.len() - st.len();
            assert(first[i] == cd[j]);
            if t.code@.len() > 0 && 2 <= j < 2 + t.code@.len() {
                assert(cd[j] == t.code@[j - 2]);
            }
        } else if i < t.date@.len() + st.len() + cd.len() + 1 {
        } else {
            assert(first[i] == t.description@[i - t.date@.len() - st.len() - cd.len() - 1]);
        }
    }
    let k = first.len() as int;
    assert(text =~= first + "\n"@ + line + postings_text(t.postings@));
    assert(text[k] == '\n');
    assert forall|i: int| 0 <= i < k implies text[i] != '\n' by {
        assert(text[i] == first[i]);
    }
    assert(text.subrange(k + 1, k + 1 + line.len()) =~= line);
}

/// A posting's comment, when given and not empty, ends its line after
/// `  ; `.
pub proof fn lemma_posting_line_keeps_comment(p: Posting)
    ensures
        p.comment matches Some(c) && c@.len() > 0 ==> ("  ; "@ + p.comment.unwrap()@
            + "\n"@).is_suffix_of(posting_line(p)),
{
    if p.comment matches Some(c) && c@.len() > 0 {
        let tail = "  ; "@ + p.comment.unwrap()@ + "\n"@;
        let head = "    "@ + p.account@ + (match (present(p.amount), present(p.commodity)) {
            (Some(a), Some(c)) => "  "@ + a + " "@ + c,
            (Some(a), None) => "  "@ + a,
            (None, _) => Seq::empty(),
        });
        assert(posting_line(p) =~= head + tail);
        assert(posting_line(p).subrange(head.len() as int, posting_line(p).len() as int) =~= tail);
    }
}

/// A price entry keeps every field: its text ends with the line
/// `P DATE COMMODITY AMOUNT TARGET`, preceded by the line `; COMMENT` when
/// the comment is not empty.
pub proof fn lemma_price_text_keeps_fields(p: PriceEntry)
    ensures
        ("P "@ + p.date@ + " "@ + p.commodity@ + " "@ + p.amount@ + " "@ + p.target_commodity@
            + "\n"@).is_suffix_of(price_text(p)),
        p.comment@.len() > 0 ==> ("; "@ + p.comment@ + "\n"@).is_prefix_of(price_text(p)),
{
    let line = "P "@ + p.date@ + " "@ + p.commodity@ + " "@ + p.amount@ + " "@
        + p.target_commodity@ + "\n"@;
    let c = if p.comment@.len() > 0 {
        "; "@ + p.comment@ + "\n"@
    } else {
        Seq::empty()
    };
    assert(price_text(p) =~= c + line);
    assert(price_text(p).subrange(c.len() as int, price_text(p).len() as int) =~= line);
    assert(price_text(p).subrange(0, c.len() as int) =~= c);
}

/// A periodic transaction keeps its comment: when it is not empty, the
/// text starts with the line `~ PERIOD[  DESCRIPTION]` followed by the line
/// `    ; COMMENT`.
pub proof fn lemma_periodic_comment_line(p: PeriodicEntry)
    requires
        p.comment@.len() > 0,
    ensures
        ("~ "@ + p.period@ + (if p.description@.len() > 0 {
            "  "@ + p.description@
        } else {
            Seq::empty()
        }) + "\n"@ + "    ; "@ + p.comment@ + "\n"@).is_prefix_of(periodic_text(p)),
{
    let q = "~ "@ + p.period@ + (if p.description@.len() > 0 {
        "  "@ + p.description@
    } else {
        Seq::empty()
    }) + "\n"@ + "    ; "@ + p.comment@ + "\n"@;
    assert(periodic_text(p) =~= q + postings_text(p.postings@));
    assert(periodic_text(p).subrange(0, q.len() as int) =~= q);
}

} // verus!
