//! Generates hledger `.rules` file text from a structured `RulesConfig`.
use vstd::prelude::*;

use crate::error::{
    check_each, lemma_check_each_all, lemma_check_each_failure, ok_or_bad_request, text_view,
    then_check, unit_view, with_context, AppError,
    ErrorView,
};
use crate::pattern::{regex_compile_error, Pattern};
use crate::text::{chars_eq, chars_of, concat_range, decimal, join, push_decimal, push_str, texts};

verus! {

// ---------------------------------------------------------------------------
// Config types
// ---------------------------------------------------------------------------

#[derive(Debug, Clone)]
pub struct RulesConfig {
    pub skip: Option<u32>,
    pub separator: Option<Separator>,
    pub date_format: Option<String>,
    pub decimal_mark: Option<DecimalMark>,
    pub newest_first: Option<bool>,
    pub intra_day_reversed: Option<bool>,
    pub balance_type: Option<String>,
    pub encoding: Option<String>,
    pub timezone: Option<String>,
    /// Names for each CSV column in order.  Empty string means unnamed/ignored.
    pub fields: Vec<String>,
    /// Top-level field assignments (outside any conditional).
    pub assignments: Vec<FieldAssignment>,
    /// Ordered list of conditional rules.
    pub conditionals: Vec<ConditionalRule>,
    /// IDs of other rules configs to include (resolved to disk paths at write time).
    pub includes: Vec<i64>,
}

impl Default for RulesConfig {
    fn default() -> (c: Self)
        ensures
            c.skip is None && c.separator is None && c.date_format is None
                && c.decimal_mark is None && c.newest_first is None
                && c.intra_day_reversed is None && c.balance_type is None && c.encoding is None
                && c.timezone is None && c.fields@.len() == 0 && c.assignments@.len() == 0
                && c.conditionals@.len() == 0 && c.includes@.len() == 0,
    {
        RulesConfig {
            skip: None,
            separator: None,
            date_format: None,
            decimal_mark: None,
            newest_first: None,
            intra_day_reversed: None,
            balance_type: None,
            encoding: None,
            timezone: None,
            fields: Vec::new(),
            assignments: Vec::new(),
            conditionals: Vec::new(),
            includes: Vec::new(),
        }
    }
}

#[derive(Debug, Clone, Copy)]
pub enum Separator {
    Comma,
    Semicolon,
    Tab,
    Space,
}

#[derive(Debug, Clone, Copy)]
pub enum DecimalMark {
    Dot,
    Comma,
}

#[derive(Debug, Clone)]
pub struct FieldAssignment {
    pub field: String,
    pub value: String,
}

#[derive(Debug, Clone)]
pub struct ConditionalRule {
    pub rule_type: ConditionalType,
    // Block-type fields
    pub match_groups: Vec<MatchGroup>,
    pub assignments: Vec<FieldAssignment>,
    pub skip: bool,
    pub end: bool,
    // Table-type fields
    pub table_fields: Vec<String>,
    pub table_rows: Vec<TableRow>,
}

#[derive(Debug, Clone, Copy)]
pub enum ConditionalType {
    Block,
    Table,
}

/// A group of matchers that are AND-combined.
/// Multiple MatchGroups in a ConditionalRule are OR-combined.
#[derive(Debug, Clone)]
pub struct MatchGroup {
    pub matchers: Vec<Matcher>,
}

#[derive(Debug, Clone)]
pub struct Matcher {
    pub pattern: String,
    /// If set, restricts matching to this named CSV field (emits `%fieldname` prefix).
    pub field: Option<String>,
    pub negate: bool,
}

#[derive(Debug, Clone)]
pub struct TableRow {
    pub pattern: String,
    pub values: Vec<String>,
}

// ---------------------------------------------------------------------------
// Validation
// ---------------------------------------------------------------------------

/// The hledger field names that can be assigned to.
pub open spec fn hledger_fields() -> Seq<Seq<char>> {
    seq![
        "date"@, "date2"@, "status"@, "code"@, "description"@, "comment"@,
        "account1"@, "account2"@, "account3"@, "account4"@, "account5"@,
        "account6"@, "account7"@, "account8"@, "account9"@, "account10"@,
        "amount"@, "amount-in"@, "amount-out"@,
        "amount1"@, "amount2"@, "amount3"@, "amount4"@, "amount5"@,
        "amount6"@, "amount7"@, "amount8"@, "amount9"@, "amount10"@,
        "amount1-in"@, "amount1-out"@, "amount2-in"@, "amount2-out"@,
        "amount3-in"@, "amount3-out"@,
        "currency"@, "currency1"@, "currency2"@, "currency3"@,
        "balance"@, "balance1"@, "balance2"@, "balance3"@,
        "comment1"@, "comment2"@, "comment3"@,
    ]
}

pub open spec fn field_check(name: Seq<char>) -> Result<(), ErrorView> {
    if hledger_fields().contains(name) {
        Ok(())
    } else {
        Err(ErrorView::BadRequest("invalid hledger field name: '"@ + name + "'"@))
    }
}

pub open spec fn regex_check(pattern: Seq<char>) -> Result<(), ErrorView> {
    match regex_compile_error(pattern) {
        None => Ok(()),
        Some(m) => Err(ErrorView::BadRequest("invalid regex pattern '"@ + pattern + "': "@ + m)),
    }
}

pub open spec fn balance_type_check(bt: Seq<char>) -> Result<(), ErrorView> {
    if bt == "="@ || bt == "=*"@ || bt == "=="@ || bt == "==*"@ {
        Ok(())
    } else {
        Err(
            ErrorView::BadRequest(
                "invalid balance-type '"@ + bt + "'; must be one of: =, =*, ==, ==*"@,
            ),
        )
    }
}

/// `"conditional #N"`, naming the conditional at index `i`.
pub open spec fn cond_label(i: int) -> Seq<char> {
    "conditional #"@ + decimal((i + 1) as nat)
}

pub open spec fn matchers_check(ms: Seq<Matcher>, prefix: Seq<char>) -> Result<(), ErrorView> {
    check_each(ms.len(), |j: int| with_context(regex_check(ms[j].pattern@), prefix))
}

pub open spec fn groups_check(gs: Seq<MatchGroup>, prefix: Seq<char>) -> Result<(), ErrorView> {
    check_each(gs.len(), |k: int| matchers_check(gs[k].matchers@, prefix))
}

pub open spec fn assignments_check(asg: Seq<FieldAssignment>, prefix: Seq<char>) -> Result<
    (),
    ErrorView,
> {
    check_each(asg.len(), |j: int| with_context(field_check(asg[j].field@), prefix))
}

pub open spec fn table_fields_check(fs: Seq<String>, prefix: Seq<char>) -> Result<(), ErrorView> {
    check_each(
        fs.len(),
        |j: int|
            if fs[j]@.len() == 0 {
                Ok(())
            } else {
                with_context(field_check(fs[j]@), prefix)
            },
    )
}

pub open spec fn rows_check(rows: Seq<TableRow>, prefix: Seq<char>) -> Result<(), ErrorView> {
    check_each(rows.len(), |j: int| with_context(regex_check(rows[j].pattern@), prefix))
}

/// The checks on the conditional rule at index `i`.
pub open spec fn conditional_check(c: ConditionalRule, i: int) -> Result<(), ErrorView> {
    match c.rule_type {
        ConditionalType::Block => then_check(
            groups_check(c.match_groups@, cond_label(i) + ": "@),
            assignments_check(c.assignments@, cond_label(i) + ": "@),
        ),
        ConditionalType::Table => then_check(
            table_fields_check(c.table_fields@, cond_label(i) + " (table): "@),
            rows_check(c.table_rows@, cond_label(i) + " (table row): "@),
        ),
    }
}

/// What `validate` answers for a config: the balance type, then the
/// top-level assignments, then each conditional rule in order.
pub open spec fn config_check(c: RulesConfig) -> Result<(), ErrorView> {
    then_check(
        match c.balance_type {
            Some(bt) => balance_type_check(bt@),
            None => Ok(()),
        },
        then_check(
            assignments_check(c.assignments@, Seq::empty()),
            check_each(c.conditionals@.len(), |i: int| conditional_check(c.conditionals@[i], i)),
        ),
    )
}

fn is_hledger_field(name: &str) -> (b: bool)
    ensures
        b == hledger_fields().contains(name@),
{
    let names: [&str; 46] = [
        "date", "date2", "status", "code", "description", "comment",
        "account1", "account2", "account3", "account4", "account5",
        "account6", "account7", "account8", "account9", "account10",
        "amount", "amount-in", "amount-out",
        "amount1", "amount2", "amount3", "amount4", "amount5",
        "amount6", "amount7", "amount8", "amount9", "amount10",
        "amount1-in", "amount1-out", "amount2-in", "amount2-out",
        "amount3-in", "amount3-out",
        "currency", "currency1", "currency2", "currency3",
        "balance", "balance1", "balance2", "balance3",
        "comment1", "comment2", "comment3",
    ];
    assert(names@.map_values(|s: &str| s@) =~= hledger_fields());
    let target = chars_of(name);
    let mut i: usize = 0;
    while i < 46
        invariant
            0 <= i <= 46,
            names@.len() == 46,
            names@.map_values(|s: &str| s@) == hledger_fields(),
            target@ == name@,
            forall|j: int| 0 <= j < i ==> hledger_fields()[j] != name@,
        decreases 46 - i,
    {
        let candidate = chars_of(names[i]);
        assert(hledger_fields()[i as int] == names@.map_values(|s: &str| s@)[i as int]);
        if chars_eq(&candidate, &target) {
            assert(hledger_fields()[i as int] == name@);
            return true;
        }
        i = i + 1;
    }
    assert(!hledger_fields().contains(name@));
    false
}

fn validate_field_name(name: &str) -> (r: Result<(), AppError>)
    ensures
        unit_view(r) == field_check(name@),
{
    if is_hledger_field(name) {
        Ok(())
    } else {
        let mut msg = String::new();
        push_str(&mut msg, "invalid hledger field name: '");
        push_str(&mut msg, name);
        push_str(&mut msg, "'");
        Err(AppError::BadRequest(msg))
    }
}

fn validate_regex(pattern: &str) -> (r: Result<(), AppError>)
    ensures
        unit_view(r) == regex_check(pattern@),
{
    match Pattern::compile(pattern) {
        Ok(_) => Ok(()),
        Err(m) => {
            let mut msg = String::new();
            push_str(&mut msg, "invalid regex pattern '");
            push_str(&mut msg, pattern);
            push_str(&mut msg, "': ");
            push_str(&mut msg, m.as_str());
            Err(AppError::BadRequest(msg))
        },
    }
}

fn validate_balance_type(bt: &str) -> (r: Result<(), AppError>)
    ensures
        unit_view(r) == balance_type_check(bt@),
{
    let v = chars_of(bt);
    let ok = chars_eq(&v, &chars_of("=")) || chars_eq(&v, &chars_of("=*")) || chars_eq(
        &v,
        &chars_of("=="),
    ) || chars_eq(&v, &chars_of("==*"));
    if ok {
        Ok(())
    } else {
        let mut msg = String::new();
        push_str(&mut msg, "invalid balance-type '");
        push_str(&mut msg, bt);
        push_str(&mut msg, "'; must be one of: =, =*, ==, ==*");
        Err(AppError::BadRequest(msg))
    }
}

/// Prefixes the message of a `BadRequest` failure.
fn add_context(r: Result<(), AppError>, prefix: &str) -> (out: Result<(), AppError>)
    ensures
        unit_view(out) == with_context(unit_view(r), prefix@),
{
    match r {
        Err(AppError::BadRequest(m)) => {
            let mut msg = String::new();
            push_str(&mut msg, prefix);
            push_str(&mut msg, m.as_str());
            Err(AppError::BadRequest(msg))
        },
        other => other,
    }
}

fn label(i: usize, suffix: &str) -> (s: String)
    requires
        i < usize::MAX,
    ensures
        s@ == cond_label(i as int) + suffix@,
{
    let mut s = String::new();
    push_str(&mut s, "conditional #");
    push_decimal(&mut s, (i + 1) as u64);
    push_str(&mut s, suffix);
    s
}

fn validate_matchers(ms: &Vec<Matcher>, prefix: &str) -> (r: Result<(), AppError>)
    ensures
        unit_view(r) == matchers_check(ms@, prefix@),
{
    let ghost f = |j: int| with_context(regex_check(ms@[j].pattern@), prefix@);
    let mut j: usize = 0;
    while j < ms.len()
        invariant
            0 <= j <= ms.len(),
            f == (|j: int| with_context(regex_check(ms@[j].pattern@), prefix@)),
            check_each(j as nat, f) == Ok::<(), ErrorView>(()),
        decreases ms.len() - j,
    {
        let r = add_context(validate_regex(ms[j].pattern.as_str()), prefix);
        if r.is_err() {
            proof {
                lemma_check_each_failure(f, (j + 1) as nat, ms@.len());
            }
            return r;
        }
        j = j + 1;
    }
    Ok(())
}

fn validate_groups(gs: &Vec<MatchGroup>, prefix: &str) -> (r: Result<(), AppError>)
    ensures
        unit_view(r) == groups_check(gs@, prefix@),
{
    let ghost f = |k: int| matchers_check(gs@[k].matchers@, prefix@);
    let mut k: usize = 0;
    while k < gs.len()
        invariant
            0 <= k <= gs.len(),
            f == (|k: int| matchers_check(gs@[k].matchers@, prefix@)),
            check_each(k as nat, f) == Ok::<(), ErrorView>(()),
        decreases gs.len() - k,
    {
        let r = validate_matchers(&gs[k].matchers, prefix);
        if r.is_err() {
            proof {
                lemma_check_each_failure(f, (k + 1) as nat, gs@.len());
            }
            return r;
        }
        k = k + 1;
    }
    Ok(())
}

fn validate_assignments(asg: &Vec<FieldAssignment>, prefix: &str) -> (r: Result<(), AppError>)
    ensures
        unit_view(r) == assignments_check(asg@, prefix@),
{
    let ghost f = |j: int| with_context(field_check(asg@[j].field@), prefix@);
    let mut j: usize = 0;
    while j < asg.len()
        invariant
            0 <= j <= asg.len(),
            f == (|j: int| with_context(field_check(asg@[j].field@), prefix@)),
            check_each(j as nat, f) == Ok::<(), ErrorView>(()),
        decreases asg.len() - j,
    {
        let r = add_context(validate_field_name(asg[j].field.as_str()), prefix);
        if r.is_err() {
            proof {
                lemma_check_each_failure(f, (j + 1) as nat, asg@.len());
            }
            return r;
        }
        j = j + 1;
    }
    Ok(())
}

fn validate_table_fields(fs: &Vec<String>, prefix: &str) -> (r: Result<(), AppError>)
    ensures
        unit_view(r) == table_fields_check(fs@, prefix@),
{
    let ghost f = |j: int|
        if fs@[j]@.len() == 0 {
            Ok(())
        } else {
            with_context(field_check(fs@[j]@), prefix@)
        };
    let mut j: usize = 0;
    while j < fs.len()
        invariant
            0 <= j <= fs.len(),
            f == (|j: int|
                if fs@[j]@.len() == 0 {
                    Ok(())
                } else {
                    with_context(field_check(fs@[j]@), prefix@)
                }),
            check_each(j as nat, f) == Ok::<(), ErrorView>(()),
        decreases fs.len() - j,
    {
        if !fs[j].as_str().is_empty() {
            let r = add_context(validate_field_name(fs[j].as_str()), prefix);
            if r.is_err() {
                proof {
                    lemma_check_each_failure(f, (j + 1) as nat, fs@.len());
                }
                return r;
            }
        }
        j = j + 1;
    }
    Ok(())
}

fn validate_rows(rows: &Vec<TableRow>, prefix: &str) -> (r: Result<(), AppError>)
    ensures
        unit_view(r) == rows_check(rows@, prefix@),
{
    let ghost f = |j: int| with_context(regex_check(rows@[j].pattern@), prefix@);
    let mut j: usize = 0;
    while j < rows.len()
        invariant
            0 <= j <= rows.len(),
            f == (|j: int| with_context(regex_check(rows@[j].pattern@), prefix@)),
            check_each(j as nat, f) == Ok::<(), ErrorView>(()),
        decreases rows.len() - j,
    {
        let r = add_context(validate_regex(rows[j].pattern.as_str()), prefix);
        if r.is_err() {
            proof {
                lemma_check_each_failure(f, (j + 1) as nat, rows@.len());
            }
            return r;
        }
        j = j + 1;
    }
    Ok(())
}

fn validate_conditional(c: &ConditionalRule, i: usize) -> (r: Result<(), AppError>)
    requires
        i < usize::MAX,
    ensures
        unit_view(r) == conditional_check(*c, i as int),
{
    match c.rule_type {
        ConditionalType::Block => {
            let prefix = label(i, ": ");
            let r = validate_groups(&c.match_groups, prefix.as_str());
            if r.is_err() {
                return r;
            }
            validate_assignments(&c.assignments, prefix.as_str())
        },
        ConditionalType::Table => {
            let prefix = label(i, " (table): ");
            let r = validate_table_fields(&c.table_fields, prefix.as_str());
            if r.is_err() {
                return r;
            }
            let prefix = label(i, " (table row): ");
            validate_rows(&c.table_rows, prefix.as_str())
        },
    }
}

/// Checks a rules config: the balance type is one hledger knows, every
/// assigned field is an hledger field, and every pattern is a valid regex.
/// The first problem found is reported; inside a conditional rule the
/// message names the rule (`conditional #N`).
pub fn validate(config: &RulesConfig) -> (r: Result<(), AppError>)
    ensures
        unit_view(r) == config_check(*config),
{
    match &config.balance_type {
        Some(bt) => {
            let r = validate_balance_type(bt.as_str());
            if r.is_err() {
                return r;
            }
        },
        None => {},
    }
    let r = validate_assignments(&config.assignments, "");
    proof {
        reveal_strlit("");
        assert(""@ =~= Seq::<char>::empty());
    }
    if r.is_err() {
        return r;
    }
    let ghost f = |i: int| conditional_check(config.conditionals@[i], i);
    let mut i: usize = 0;
    while i < config.conditionals.len()
        invariant
            0 <= i <= config.conditionals.len(),
            f == (|i: int| conditional_check(config.conditionals@[i], i)),
            check_each(i as nat, f) == Ok::<(), ErrorView>(()),
            match config.balance_type {
                Some(bt) => balance_type_check(bt@),
                None => Ok(()),
            } == Ok::<(), ErrorView>(()),
            assignments_check(config.assignments@, Seq::empty()) == Ok::<(), ErrorView>(()),
        decreases config.conditionals.len() - i,
    {
        let r = validate_conditional(&config.conditionals[i], i);
        if r.is_err() {
            proof {
                lemma_check_each_failure(f, (i + 1) as nat, config.conditionals@.len());
            }
            return r;
        }
        i = i + 1;
    }
    Ok(())
}

/// Whether a conditional rule is valid: a block's patterns all compile and
/// its assigned fields are hledger fields; a table's non-empty field names
/// are hledger fields and its row patterns all compile.
pub open spec fn conditional_valid(k: ConditionalRule) -> bool {
    match k.rule_type {
        ConditionalType::Block => {
            &&& forall|g: int, m: int|
                0 <= g < k.match_groups@.len() && 0 <= m < k.match_groups@[g].matchers@.len()
                    ==> (#[trigger] regex_compile_error(
                    k.match_groups@[g].matchers@[m].pattern@,
                )) is None
            &&& forall|j: int|
                0 <= j < k.assignments@.len() ==> hledger_fields().contains(
                    #[trigger] k.assignments@[j].field@,
                )
        },
        ConditionalType::Table => {
            &&& forall|j: int|
                0 <= j < k.table_fields@.len() ==> (#[trigger] k.table_fields@[j])@.len() == 0
                    || hledger_fields().contains(k.table_fields@[j]@)
            &&& forall|j: int|
                0 <= j < k.table_rows@.len() ==> (#[trigger] regex_compile_error(
                    k.table_rows@[j].pattern@,
                )) is None
        },
    }
}

/// Whether a rules config is valid: its balance type, if any, is one of
/// `=`, `=*`, `==`, `==*`; every top-level assignment names an hledger
/// field; and every conditional rule is valid. The CSV field list is not
/// checked.
pub open spec fn rules_config_valid(c: RulesConfig) -> bool {
    &&& match c.balance_type {
        Some(bt) => bt@ == "="@ || bt@ == "=*"@ || bt@ == "=="@ || bt@ == "==*"@,
        None => true,
    }
    &&& forall|j: int|
        0 <= j < c.assignments@.len() ==> hledger_fields().contains(
            #[trigger] c.assignments@[j].field@,
        )
    &&& forall|i: int|
        0 <= i < c.conditionals@.len() ==> conditional_valid(#[trigger] c.conditionals@[i])
}

proof fn lemma_matchers_check(ms: Seq<Matcher>, prefix: Seq<char>)
    ensures
        matchers_check(ms, prefix) is Ok <==> forall|m: int|
            0 <= m < ms.len() ==> (#[trigger] regex_compile_error(ms[m].pattern@)) is None,
        ok_or_bad_request(matchers_check(ms, prefix)),
{
    let f = |j: int| with_context(regex_check(ms[j].pattern@), prefix);
    lemma_check_each_all(f, ms.len());
    assert forall|m: int| 0 <= m < ms.len() implies (f(m) is Ok <==> (regex_compile_error(
        ms[m].pattern@,
    )) is None) && ok_or_bad_request(#[trigger] f(m)) by {}
    if matchers_check(ms, prefix) is Ok {
        assert forall|m: int| 0 <= m < ms.len() implies (#[trigger] regex_compile_error(
            ms[m].pattern@,
        )) is None by {
            assert(f(m) is Ok);
        }
    }
}

proof fn lemma_groups_check(gs: Seq<MatchGroup>, prefix: Seq<char>)
    ensures
        groups_check(gs, prefix) is Ok <==> forall|g: int, m: int|
            0 <= g < gs.len() && 0 <= m < gs[g].matchers@.len() ==> (#[trigger] regex_compile_error(
                gs[g].matchers@[m].pattern@,
            )) is None,
        ok_or_bad_request(groups_check(gs, prefix)),
{
    let f = |k: int| matchers_check(gs[k].matchers@, prefix);
    lemma_check_each_all(f, gs.len());
    assert forall|g: int| 0 <= g < gs.len() implies (#[trigger] f(g) is Ok <==> forall|m: int|
        0 <= m < gs[g].matchers@.len() ==> (#[trigger] regex_compile_error(
            gs[g].matchers@[m].pattern@,
        )) is None) && ok_or_bad_request(f(g)) by {
        lemma_matchers_check(gs[g].matchers@, prefix);
    }
    if groups_check(gs, prefix) is Ok {
        assert forall|g: int, m: int|
            0 <= g < gs.len() && 0 <= m < gs[g].matchers@.len() implies (#[trigger] regex_compile_error(
            gs[g].matchers@[m].pattern@,
        )) is None by {
            assert(f(g) is Ok);
        }
    }
}

proof fn lemma_assignments_check(asg: Seq<FieldAssignment>, prefix: Seq<char>)
    ensures
        assignments_check(asg, prefix) is Ok <==> forall|j: int|
            0 <= j < asg.len() ==> hledger_fields().contains(#[trigger] asg[j].field@),
        ok_or_bad_request(assignments_check(asg, prefix)),
{
    let f = |j: int| with_context(field_check(asg[j].field@), prefix);
    lemma_check_each_all(f, asg.len());
    assert forall|j: int| 0 <= j < asg.len() implies (f(j) is Ok <==> hledger_fields().contains(
        asg[j].field@,
    )) && ok_or_bad_request(#[trigger] f(j)) by {}
    if assignments_check(asg, prefix) is Ok {
        assert forall|j: int| 0 <= j < asg.len() implies hledger_fields().contains(
            #[trigger] asg[j].field@,
        ) by {
            assert(f(j) is Ok);
        }
    }
}

proof fn lemma_conditional_check(k: ConditionalRule, i: int)
    ensures
        conditional_check(k, i) is Ok <==> conditional_valid(k),
        ok_or_bad_request(conditional_check(k, i)),
{
    match k.rule_type {
        ConditionalType::Block => {
            lemma_groups_check(k.match_groups@, cond_label(i) + ": "@);
            lemma_assignments_check(k.assignments@, cond_label(i) + ": "@);
        },
        ConditionalType::Table => {
            let fs = k.table_fields@;
            let p = cond_label(i) + " (table): "@;
            let f = |j: int|
                if fs[j]@.len() == 0 {
                    Ok(())
                } else {
                    with_context(field_check(fs[j]@), p)
                };
            lemma_check_each_all(f, fs.len());
            assert forall|j: int| 0 <= j < fs.len() implies (f(j) is Ok <==> (fs[j]@.len() == 0
                || hledger_fields().contains(fs[j]@))) && ok_or_bad_request(#[trigger] f(j)) by {}
            let rows = k.table_rows@;
            let q = cond_label(i) + " (table row): "@;
            let h = |j: int| with_context(regex_check(rows[j].pattern@), q);
            lemma_check_each_all(h, rows.len());
            assert forall|j: int| 0 <= j < rows.len() implies (h(j) is Ok <==> (regex_compile_error(
                rows[j].pattern@,
            )) is None) && ok_or_bad_request(#[trigger] h(j)) by {}
            if check_each(fs.len(), f) is Ok {
                assert forall|j: int| 0 <= j < fs.len() implies (#[trigger] fs[j])@.len() == 0
                    || hledger_fields().contains(fs[j]@) by {
                    assert(f(j) is Ok);
                }
            }
            if check_each(rows.len(), h) is Ok {
                assert forall|j: int| 0 <= j < rows.len() implies (#[trigger] regex_compile_error(
                    rows[j].pattern@,
                )) is None by {
                    assert(h(j) is Ok);
                }
            }
        },
    }
}

/// `validate` accepts a config exactly when it is valid, and every config
/// it refuses is refused as a bad request.
pub proof fn lemma_validate_accepts_exactly(c: RulesConfig)
    ensures
        config_check(c) is Ok <==> rules_config_valid(c),
        ok_or_bad_request(config_check(c)),
{
    lemma_assignments_check(c.assignments@, Seq::empty());
    let f = |i: int| conditional_check(c.conditionals@[i], i);
    lemma_check_each_all(f, c.conditionals@.len());
    assert forall|i: int| 0 <= i < c.conditionals@.len() implies (#[trigger] f(i) is Ok
        <==> conditional_valid(c.conditionals@[i])) && ok_or_bad_request(f(i)) by {
        lemma_conditional_check(c.conditionals@[i], i);
    }
    if check_each(c.conditionals@.len(), f) is Ok {
        assert forall|i: int| 0 <= i < c.conditionals@.len() implies conditional_valid(
            #[trigger] c.conditionals@[i],
        ) by {
            assert(f(i) is Ok);
        }
    }
}

} // verus!

verus! {

// ---------------------------------------------------------------------------
// Generation
// ---------------------------------------------------------------------------

pub open spec fn opt_line(o: Option<String>, key: Seq<char>) -> Seq<char> {
    match o {
        Some(v) => key + v@ + "\n"@,
        None => Seq::empty(),
    }
}

pub open spec fn separator_name(s: Separator) -> Seq<char> {
    match s {
        Separator::Comma => "comma"@,
        Separator::Semicolon => "semicolon"@,
        Separator::Tab => "TAB"@,
        Separator::Space => "SPACE"@,
    }
}

pub open spec fn decimal_mark_text(d: DecimalMark) -> Seq<char> {
    match d {
        DecimalMark::Dot => "."@,
        DecimalMark::Comma => ","@,
    }
}

pub open spec fn skip_line(c: RulesConfig) -> Seq<char> {
    match c.skip {
        Some(n) => "skip "@ + decimal(n as nat) + "\n"@,
        None => Seq::empty(),
    }
}

pub open spec fn separator_line(c: RulesConfig) -> Seq<char> {
    match c.separator {
        Some(s) => "separator "@ + separator_name(s) + "\n"@,
        None => Seq::empty(),
    }
}

pub open spec fn decimal_mark_line(c: RulesConfig) -> Seq<char> {
    match c.decimal_mark {
        Some(d) => "decimal-mark "@ + decimal_mark_text(d) + "\n"@,
        None => Seq::empty(),
    }
}

pub open spec fn flag_line(flag: Option<bool>, line: Seq<char>) -> Seq<char> {
    if flag == Some(true) {
        line
    } else {
        Seq::empty()
    }
}

/// The general directives, one line each, in a fixed order.
pub open spec fn directives_text(c: RulesConfig) -> Seq<char> {
    skip_line(c) + separator_line(c) + opt_line(c.date_format, "date-format "@)
        + decimal_mark_line(c) + flag_line(c.newest_first, "newest-first\n"@) + flag_line(
        c.intra_day_reversed,
        "intra-day-reversed\n"@,
    ) + opt_line(c.balance_type, "balance-type "@) + opt_line(c.encoding, "encoding "@)
        + opt_line(c.timezone, "timezone "@)
}

/// The `fields` line, after a blank line when something precedes it.
pub open spec fn fields_text(fields: Seq<String>, before: Seq<char>) -> Seq<char> {
    if fields.len() == 0 {
        Seq::empty()
    } else {
        (if before.len() > 0 {
            "\n"@
        } else {
            Seq::empty()
        }) + "fields "@ + join(texts(fields), ", "@) + "\n"@
    }
}

pub open spec fn assignment_lines(asg: Seq<FieldAssignment>, indent: Seq<char>) -> Seq<char> {
    concat_range(asg.len(), |j: int| indent + asg[j].field@ + " "@ + asg[j].value@ + "\n"@)
}

pub open spec fn assignments_text(asg: Seq<FieldAssignment>) -> Seq<char> {
    if asg.len() == 0 {
        Seq::empty()
    } else {
        "\n"@ + assignment_lines(asg, Seq::empty())
    }
}

/// One matcher: `[& ][! ][%field ]PATTERN`.
pub open spec fn matcher_text(m: Matcher, and_prefix: bool) -> Seq<char> {
    (if and_prefix {
        "& "@
    } else {
        Seq::empty()
    }) + (if m.negate {
        "! "@
    } else {
        Seq::empty()
    }) + (match m.field {
        Some(f) => if f@.len() > 0 {
            "%"@ + f@ + " "@
        } else {
            Seq::empty()
        },
        None => Seq::empty(),
    }) + m.pattern@
}

/// The lines of one AND-group: the first matcher plain, the others with `& `.
pub open spec fn group_lines(g: MatchGroup) -> Seq<char> {
    concat_range(g.matchers@.len(), |j: int| matcher_text(g.matchers@[j], j > 0) + "\n"@)
}

/// The match groups that have at least one matcher, in order.
pub open spec fn nonempty_groups(gs: Seq<MatchGroup>) -> Seq<MatchGroup>
    decreases gs.len(),
{
    if gs.len() == 0 {
        Seq::empty()
    } else if gs.last().matchers@.len() > 0 {
        nonempty_groups(gs.drop_last()).push(gs.last())
    } else {
        nonempty_groups(gs.drop_last())
    }
}

/// A block conditional: `if PATTERN` for a single group, otherwise `if`
/// followed by the groups' lines; then the indented assignments and the
/// `skip` / `end` flags.  Nothing at all when no group has a matcher.
pub open spec fn block_text(c: ConditionalRule) -> Seq<char> {
    let gs = nonempty_groups(c.match_groups@);
    if gs.len() == 0 {
        Seq::empty()
    } else {
        (if gs.len() == 1 {
            "if "@ + group_lines(gs[0])
        } else {
            "if\n"@ + concat_range(gs.len(), |k: int| group_lines(gs[k]))
        }) + assignment_lines(c.assignments@, "  "@) + (if c.skip {
            "  skip\n"@
        } else {
            Seq::empty()
        }) + (if c.end {
            "  end\n"@
        } else {
            Seq::empty()
        })
    }
}

/// The `i`-th cell value of a table row, empty when the row is short.
pub open spec fn cell(values: Seq<String>, i: int) -> Seq<char> {
    if 0 <= i < values.len() {
        values[i]@
    } else {
        Seq::empty()
    }
}

pub open spec fn row_line(row: TableRow, n_fields: nat) -> Seq<char> {
    row.pattern@ + concat_range(n_fields, |i: int| ","@ + cell(row.values@, i)) + "\n"@
}

/// A table conditional: the header `if,FIELD,...` then one line per row.
/// Nothing at all when there are no fields or no rows.
pub open spec fn table_text(c: ConditionalRule) -> Seq<char> {
    let fs = c.table_fields@;
    let rows = c.table_rows@;
    if fs.len() == 0 || rows.len() == 0 {
        Seq::empty()
    } else {
        "if"@ + concat_range(fs.len(), |j: int| ","@ + fs[j]@) + "\n"@ + concat_range(
            rows.len(),
            |r: int| row_line(rows[r], fs.len()),
        )
    }
}

pub open spec fn conditional_text(c: ConditionalRule) -> Seq<char> {
    match c.rule_type {
        ConditionalType::Block => block_text(c),
        ConditionalType::Table => table_text(c),
    }
}

pub open spec fn conditionals_text(cs: Seq<ConditionalRule>) -> Seq<char> {
    concat_range(cs.len(), |i: int| "\n"@ + conditional_text(cs[i]))
}

/// The path given for `id`, from the first pair that names it.
pub open spec fn find_path(paths: Seq<(i64, String)>, id: i64) -> Option<Seq<char>>
    decreases paths.len(),
{
    if paths.len() == 0 {
        None
    } else if paths[0].0 == id {
        Some(paths[0].1@)
    } else {
        find_path(paths.drop_first(), id)
    }
}

/// An `include` line for each included id that has a path; ids without a
/// path are left out.
pub open spec fn includes_text(ids: Seq<i64>, paths: Seq<(i64, String)>) -> Seq<char> {
    concat_range(
        ids.len(),
        |k: int|
            match find_path(paths, ids[k]) {
                Some(p) => "\n"@ + "include "@ + p + "\n"@,
                None => Seq::empty(),
            },
    )
}

/// The whole `.rules` text of a config.
pub open spec fn rules_text(c: RulesConfig, paths: Seq<(i64, String)>) -> Seq<char> {
    let d = directives_text(c);
    d + fields_text(c.fields@, d) + assignments_text(c.assignments@) + conditionals_text(
        c.conditionals@,
    ) + includes_text(c.includes@, paths)
}

/// What `generate_rules_text` answers.
pub open spec fn generated_rules(c: RulesConfig, paths: Seq<(i64, String)>) -> Result<
    Seq<char>,
    ErrorView,
> {
    match config_check(c) {
        Err(e) => Err(e),
        Ok(()) => Ok(rules_text(c, paths)),
    }
}

fn push_opt_line(out: &mut String, key: &str, o: &Option<String>)
    ensures
        final(out)@ == old(out)@ + opt_line(*o, key@),
{
    match o {
        Some(v) => {
            push_str(out, key);
            push_str(out, v.as_str());
            push_str(out, "\n");
            assert(out@ =~= old(out)@ + opt_line(*o, key@));
        },
        None => {
            assert(out@ =~= old(out)@ + opt_line(*o, key@));
        },
    }
}

fn write_skip(out: &mut String, c: &RulesConfig)
    ensures
        final(out)@ == old(out)@ + skip_line(*c),
{
    match c.skip {
        Some(n) => {
            push_str(out, "skip ");
            push_decimal(out, n as u64);
            push_str(out, "\n");
            assert(out@ =~= old(out)@ + skip_line(*c));
        },
        None => {
            assert(out@ =~= old(out)@ + skip_line(*c));
        },
    }
}

fn write_separator(out: &mut String, c: &RulesConfig)
    ensures
        final(out)@ == old(out)@ + separator_line(*c),
{
    match c.separator {
        Some(sep) => {
            push_str(out, "separator ");
            match sep {
                Separator::Comma => push_str(out, "comma"),
                Separator::Semicolon => push_str(out, "semicolon"),
                Separator::Tab => push_str(out, "TAB"),
                Separator::Space => push_str(out, "SPACE"),
            }
            push_str(out, "\n");
            assert(out@ =~= old(out)@ + separator_line(*c));
        },
        None => {
            assert(out@ =~= old(out)@ + separator_line(*c));
        },
    }
}

fn write_decimal_mark(out: &mut String, c: &RulesConfig)
    ensures
        final(out)@ == old(out)@ + decimal_mark_line(*c),
{
    match c.decimal_mark {
        Some(d) => {
            push_str(out, "decimal-mark ");
            match d {
                DecimalMark::Dot => push_str(out, "."),
                DecimalMark::Comma => push_str(out, ","),
            }
            push_str(out, "\n");
            assert(out@ =~= old(out)@ + decimal_mark_line(*c));
        },
        None => {
            assert(out@ =~= old(out)@ + decimal_mark_line(*c));
        },
    }
}

fn write_flag(out: &mut String, flag: Option<bool>, line: &str)
    ensures
        final(out)@ == old(out)@ + flag_line(flag, line@),
{
    if flag == Some(true) {
        push_str(out, line);
    } else {
        assert(out@ =~= old(out)@ + flag_line(flag, line@));
    }
}

fn write_directives(out: &mut String, c: &RulesConfig)
    ensures
        final(out)@ == old(out)@ + directives_text(*c),
{
    let ghost s0 = out@;
    write_skip(out, c);
    let ghost s1 = out@;
    write_separator(out, c);
    let ghost s2 = out@;
    push_opt_line(out, "date-format ", &c.date_format);
    let ghost s3 = out@;
    write_decimal_mark(out, c);
    let ghost s4 = out@;
    write_flag(out, c.newest_first, "newest-first\n");
    let ghost s5 = out@;
    write_flag(out, c.intra_day_reversed, "intra-day-reversed\n");
    let ghost s6 = out@;
    push_opt_line(out, "balance-type ", &c.balance_type);
    let ghost s7 = out@;
    push_opt_line(out, "encoding ", &c.encoding);
    let ghost s8 = out@;
    push_opt_line(out, "timezone ", &c.timezone);
    assert(out@ =~= s0 + directives_text(*c));
}

fn write_fields(out: &mut String, fields: &Vec<String>)
    requires
        fields@.len() > 0,
    ensures
        final(out)@ == old(out)@ + "fields "@ + join(texts(fields@), ", "@) + "\n"@,
{
    let ghost start = out@;
    push_str(out, "fields ");
    push_str(out, fields[0].as_str());
    let ghost head = out@;
    let ghost f = |j: int| ", "@ + texts(fields@)[j + 1];
    let mut j: usize = 1;
    while j < fields.len()
        invariant
            1 <= j <= fields.len(),
            f == (|j: int| ", "@ + texts(fields@)[j + 1]),
            out@ == head + concat_range((j - 1) as nat, f),
        decreases fields.len() - j,
    {
        push_str(out, ", ");
        push_str(out, fields[j].as_str());
        assert(texts(fields@)[j as int] == fields@[j as int]@);
        assert(out@ =~= head + concat_range(j as nat, f));
        j = j + 1;
    }
    push_str(out, "\n");
    assert(texts(fields@)[0] == fields@[0]@);
    assert(out@ =~= start + "fields "@ + join(texts(fields@), ", "@) + "\n"@);
}

fn write_assignment_lines(out: &mut String, asg: &Vec<FieldAssignment>, indent: &str)
    ensures
        final(out)@ == old(out)@ + assignment_lines(asg@, indent@),
{
    let ghost f = |j: int| indent@ + asg@[j].field@ + " "@ + asg@[j].value@ + "\n"@;
    let mut j: usize = 0;
    while j < asg.len()
        invariant
            0 <= j <= asg.len(),
            f == (|j: int| indent@ + asg@[j].field@ + " "@ + asg@[j].value@ + "\n"@),
            out@ == old(out)@ + concat_range(j as nat, f),
        decreases asg.len() - j,
    {
        push_str(out, indent);
        push_str(out, asg[j].field.as_str());
        push_str(out, " ");
        push_str(out, asg[j].value.as_str());
        push_str(out, "\n");
        assert(out@ =~= old(out)@ + concat_range((j + 1) as nat, f));
        j = j + 1;
    }
}

/// The text of one matcher line (without its line break).
fn matcher_line(m: &Matcher, and_prefix: bool) -> (r: String)
    ensures
        r@ == matcher_text(*m, and_prefix),
{
    let mut out = String::new();
    write_matcher(&mut out, m, and_prefix);
    assert(out@ =~= matcher_text(*m, and_prefix));
    out
}

fn write_matcher(out: &mut String, m: &Matcher, and_prefix: bool)
    ensures
        final(out)@ == old(out)@ + matcher_text(*m, and_prefix),
{
    let ghost start = out@;
    if and_prefix {
        push_str(out, "& ");
    }
    let ghost s1 = out@;
    if m.negate {
        push_str(out, "! ");
    }
    let ghost s2 = out@;
    match &m.field {
        Some(f) => {
            if !f.as_str().is_empty() {
                push_str(out, "%");
                push_str(out, f.as_str());
                push_str(out, " ");
            }
        },
        None => {},
    }
    let ghost s3 = out@;
    push_str(out, m.pattern.as_str());
    assert(s1 =~= start + (if and_prefix {
        "& "@
    } else {
        Seq::empty()
    }));
    assert(s2 =~= s1 + (if m.negate {
        "! "@
    } else {
        Seq::empty()
    }));
    assert(s3 =~= s2 + (match m.field {
        Some(f) => if f@.len() > 0 {
            "%"@ + f@ + " "@
        } else {
            Seq::empty()
        },
        None => Seq::empty(),
    }));
    assert(out@ =~= start + matcher_text(*m, and_prefix));
}

fn write_group(out: &mut String, g: &MatchGroup)
    ensures
        final(out)@ == old(out)@ + group_lines(*g),
{
    let ghost f = |j: int| matcher_text(g.matchers@[j], j > 0) + "\n"@;
    let mut j: usize = 0;
    while j < g.matchers.len()
        invariant
            0 <= j <= g.matchers.len(),
            f == (|j: int| matcher_text(g.matchers@[j], j > 0) + "\n"@),
            out@ == old(out)@ + concat_range(j as nat, f),
        decreases g.matchers.len() - j,
    {
        let line = matcher_line(&g.matchers[j], j > 0);
        push_str(out, line.as_str());
        push_str(out, "\n");
        assert(out@ =~= old(out)@ + concat_range((j + 1) as nat, f));
        j = j + 1;
    }
}

fn nonempty_group_indices(gs: &Vec<MatchGroup>) -> (idx: Vec<usize>)
    ensures
        forall|k: int| 0 <= k < idx@.len() ==> idx@[k] < gs@.len(),
        idx@.map_values(|k: usize| gs@[k as int]) == nonempty_groups(gs@),
{
    let mut idx: Vec<usize> = Vec::new();
    let mut i: usize = 0;
    while i < gs.len()
        invariant
            0 <= i <= gs.len(),
            forall|k: int| 0 <= k < idx@.len() ==> idx@[k] < gs@.len(),
            idx@.map_values(|k: usize| gs@[k as int]) == nonempty_groups(gs@.take(i as int)),
        decreases gs.len() - i,
    {
        assert(gs@.take(i + 1).drop_last() =~= gs@.take(i as int));
        if gs[i].matchers.len() > 0 {
            idx.push(i);
            assert(idx@.map_values(|k: usize| gs@[k as int]) =~= nonempty_groups(
                gs@.take(i as int),
            ).push(gs@[i as int]));
        }
        i = i + 1;
    }
    assert(gs@.take(gs@.len() as int) =~= gs@);
    idx
}

fn write_block_conditional(out: &mut String, cond: &ConditionalRule)
    ensures
        final(out)@ == old(out)@ + block_text(*cond),
{
    let idx = nonempty_group_indices(&cond.match_groups);
    let ghost gs = nonempty_groups(cond.match_groups@);
    assert(idx@.len() == gs.len());
    if idx.len() == 0 {
        assert(old(out)@ =~= old(out)@ + block_text(*cond));
        return;
    }
    let ghost start = out@;
    if idx.len() == 1 {
        push_str(out, "if ");
        assert(gs[0] == cond.match_groups@[idx@[0] as int]);
        write_group(out, &cond.match_groups[idx[0]]);
    } else {
        push_str(out, "if\n");
        let ghost head = out@;
        let ghost f = |k: int| group_lines(gs[k]);
        let mut k: usize = 0;
        while k < idx.len()
            invariant
                0 <= k <= idx.len(),
                idx@.len() == gs.len(),
                forall|q: int| 0 <= q < idx@.len() ==> idx@[q] < cond.match_groups@.len(),
                idx@.map_values(|q: usize| cond.match_groups@[q as int]) == gs,
                f == (|k: int| group_lines(gs[k])),
                out@ == head + concat_range(k as nat, f),
            decreases idx.len() - k,
        {
            assert(gs[k as int] == cond.match_groups@[idx@[k as int] as int]);
            write_group(out, &cond.match_groups[idx[k]]);
            assert(out@ =~= head + concat_range((k + 1) as nat, f));
            k = k + 1;
        }
    }
    let ghost s1 = out@;
    write_assignment_lines(out, &cond.assignments, "  ");
    if cond.skip {
        push_str(out, "  skip\n");
    }
    let ghost s2 = out@;
    if cond.end {
        push_str(out, "  end\n");
    }
    assert(out@ =~= old(out)@ + block_text(*cond));
}

fn write_table_conditional(out: &mut String, cond: &ConditionalRule)
    ensures
        final(out)@ == old(out)@ + table_text(*cond),
{
    let fs = &cond.table_fields;
    let rows = &cond.table_rows;
    if fs.len() == 0 || rows.len() == 0 {
        assert(old(out)@ =~= old(out)@ + table_text(*cond));
        return;
    }
    let ghost start = out@;
    push_str(out, "if");
    let ghost h0 = out@;
    let ghost fh = |j: int| ","@ + fs@[j]@;
    let mut j: usize = 0;
    while j < fs.len()
        invariant
            0 <= j <= fs.len(),
            fh == (|j: int| ","@ + fs@[j]@),
            out@ == h0 + concat_range(j as nat, fh),
        decreases fs.len() - j,
    {
        push_str(out, ",");
        push_str(out, fs[j].as_str());
        assert(out@ =~= h0 + concat_range((j + 1) as nat, fh));
        j = j + 1;
    }
    push_str(out, "\n");
    let ghost h1 = out@;
    let n = fs.len();
    let ghost fr = |r: int| row_line(rows@[r], n as nat);
    let mut r: usize = 0;
    while r < rows.len()
        invariant
            0 <= r <= rows.len(),
            n == fs@.len(),
            fr == (|r: int| row_line(rows@[r], n as nat)),
            out@ == h1 + concat_range(r as nat, fr),
        decreases rows.len() - r,
    {
        let row = &rows[r];
        let ghost r0 = out@;
        push_str(out, row.pattern.as_str());
        let ghost r1 = out@;
        let ghost fc = |i: int| ","@ + cell(row.values@, i);
        let mut i: usize = 0;
        while i < n
            invariant
                0 <= i <= n,
                fc == (|i: int| ","@ + cell(row.values@, i)),
                out@ == r1 + concat_range(i as nat, fc),
            decreases n - i,
        {
            push_str(out, ",");
            if i < row.values.len() {
                push_str(out, row.values[i].as_str());
            } else {
                assert(out@ =~= out@ + Seq::<char>::empty());
            }
            assert(out@ =~= r1 + concat_range((i + 1) as nat, fc));
            i = i + 1;
        }
        push_str(out, "\n");
        assert(out@ =~= r0 + row_line(*row, n as nat));
        assert(out@ =~= h1 + concat_range((r + 1) as nat, fr));
        r = r + 1;
    }
    assert(out@ =~= start + table_text(*cond));
}

fn lookup_include_path(paths: &[(i64, String)], id: i64) -> (r: Option<&String>)
    ensures
        match r {
            Some(p) => find_path(paths@, id) == Some(p@),
            None => find_path(paths@, id) is None,
        },
{
    let mut i: usize = 0;
    assert(paths@.skip(0) =~= paths@);
    while i < paths.len()
        invariant
            0 <= i <= paths.len(),
            find_path(paths@, id) == find_path(paths@.skip(i as int), id),
        decreases paths.len() - i,
    {
        assert(paths@.skip(i as int)[0] == paths@[i as int]);
        if paths[i].0 == id {
            return Some(&paths[i].1);
        }
        assert(paths@.skip(i as int).drop_first() =~= paths@.skip(i + 1));
        i = i + 1;
    }
    None
}

/// Generate the text of a `.rules` file from the given config.
/// `include_paths` maps rules config IDs to their disk paths for `include` directives.
/// The config is validated first; an invalid config is answered with the
/// validation error.
pub fn generate_rules_text(config: &RulesConfig, include_paths: &[(i64, String)]) -> (r: Result<
    String,
    AppError,
>)
    ensures
        text_view(r) == generated_rules(*config, include_paths@),
{
    let v = validate(config);
    match v {
        Err(e) => {
            return Err(e);
        },
        Ok(()) => {},
    }
    let mut out = String::new();
    write_directives(&mut out, config);
    let ghost d = out@;
    if config.fields.len() > 0 {
        if !out.as_str().is_empty() {
            push_str(&mut out, "\n");
        }
        write_fields(&mut out, &config.fields);
    }
    let ghost s1 = out@;
    assert(s1 =~= d + fields_text(config.fields@, d));
    if config.assignments.len() > 0 {
        push_str(&mut out, "\n");
        write_assignment_lines(&mut out, &config.assignments, "");
        proof {
            reveal_strlit("");
            assert(""@ =~= Seq::<char>::empty());
        }
    }
    let ghost s2 = out@;
    assert(s2 =~= s1 + assignments_text(config.assignments@));
    let ghost fc = |i: int| "\n"@ + conditional_text(config.conditionals@[i]);
    let mut i: usize = 0;
    while i < config.conditionals.len()
        invariant
            0 <= i <= config.conditionals.len(),
            fc == (|i: int| "\n"@ + conditional_text(config.conditionals@[i])),
            out@ == s2 + concat_range(i as nat, fc),
        decreases config.conditionals.len() - i,
    {
        push_str(&mut out, "\n");
        let cond = &config.conditionals[i];
        match cond.rule_type {
            ConditionalType::Block => write_block_conditional(&mut out, cond),
            ConditionalType::Table => write_table_conditional(&mut out, cond),
        }
        assert(out@ =~= s2 + concat_range((i + 1) as nat, fc));
        i = i + 1;
    }
    let ghost s3 = out@;
    let ghost fi = |k: int|
        match find_path(include_paths@, config.includes@[k]) {
            Some(p) => "\n"@ + "include "@ + p + "\n"@,
            None => Seq::empty(),
        };
    let mut k: usize = 0;
    while k < config.includes.len()
        invariant
            0 <= k <= config.includes.len(),
            fi == (|k: int|
                match find_path(include_paths@, config.includes@[k]) {
                    Some(p) => "\n"@ + "include "@ + p + "\n"@,
                    None => Seq::empty(),
                }),
            out@ == s3 + concat_range(k as nat, fi),
        decreases config.includes.len() - k,
    {
        match lookup_include_path(include_paths, config.includes[k]) {
            Some(path) => {
                push_str(&mut out, "\n");
                push_str(&mut out, "include ");
                push_str(&mut out, path.as_str());
                push_str(&mut out, "\n");
            },
            None => {},
        }
        assert(out@ =~= s3 + concat_range((k + 1) as nat, fi));
        k = k + 1;
    }
    assert(out@ =~= rules_text(*config, include_paths@));
    Ok(out)
}

/// Generating a `.rules` file fails exactly when validating the config
/// fails, with the same error; whatever the include paths, a valid config
/// always gives a text.
pub proof fn lemma_generation_follows_validation(c: RulesConfig, paths: Seq<(i64, String)>)
    ensures
        generated_rules(c, paths) is Ok <==> config_check(c) is Ok,
        config_check(c) matches Err(e) ==> generated_rules(c, paths) == Err::<Seq<char>, ErrorView>(e),
        config_check(c) is Ok ==> generated_rules(c, paths) == Ok::<Seq<char>, ErrorView>(
            rules_text(c, paths),
        ),
{
}

proof fn lemma_nonempty_groups_idempotent(gs: Seq<MatchGroup>)
    ensures
        nonempty_groups(nonempty_groups(gs)) == nonempty_groups(gs),
    decreases gs.len(),
{
    if gs.len() > 0 {
        lemma_nonempty_groups_idempotent(gs.drop_last());
        if gs.last().matchers@.len() > 0 {
            let ng = nonempty_groups(gs.drop_last());
            assert(ng.push(gs.last()).drop_last() =~= ng);
            assert(ng.push(gs.last()).last() == gs.last());
        }
    }
}

proof fn lemma_nonempty_groups_none(gs: Seq<MatchGroup>)
    ensures
        nonempty_groups(gs).len() == 0 <==> forall|i: int|
            0 <= i < gs.len() ==> (#[trigger] gs[i]).matchers@.len() == 0,
    decreases gs.len(),
{
    if gs.len() > 0 {
        lemma_nonempty_groups_none(gs.drop_last());
        if forall|i: int| 0 <= i < gs.len() ==> (#[trigger] gs[i]).matchers@.len() == 0 {
            assert(gs[gs.len() - 1].matchers@.len() == 0);
            assert forall|i: int| 0 <= i < gs.drop_last().len() implies (
            #[trigger] gs.drop_last()[i]).matchers@.len() == 0 by {
                assert(gs.drop_last()[i] == gs[i]);
            }
        }
        if nonempty_groups(gs).len() == 0 {
            assert forall|i: int| 0 <= i < gs.len() implies (#[trigger] gs[i]).matchers@.len()
                == 0 by {
                if i < gs.len() - 1 {
                    assert(gs[i] == gs.drop_last()[i]);
                }
            }
        }
    }
}

/// A block conditional ignores match groups without matchers: dropping
/// them changes nothing in the generated text, and a block whose groups
/// are all empty writes nothing at all.
pub proof fn lemma_block_ignores_empty_groups(c: ConditionalRule, c2: ConditionalRule)
    requires
        c2.match_groups@ == nonempty_groups(c.match_groups@),
        c2.assignments@ == c.assignments@,
        c2.skip == c.skip,
        c2.end == c.end,
    ensures
        block_text(c2) == block_text(c),
        (forall|i: int|
            0 <= i < c.match_groups@.len() ==> (#[trigger] c.match_groups@[i]).matchers@.len()
                == 0) ==> block_text(c).len() == 0,
{
    lemma_nonempty_groups_idempotent(c.match_groups@);
    lemma_nonempty_groups_none(c.match_groups@);
}

} // verus!

verus! {

// ---------------------------------------------------------------------------
// Laws of the generated text
// ---------------------------------------------------------------------------

proof fn lemma_concat_range_congruent(n: nat, f: spec_fn(int) -> Seq<char>, g: spec_fn(int) -> Seq<char>)
    requires
        forall|i: int| 0 <= i < n ==> #[trigger] f(i) == g(i),
    ensures
        concat_range(n, f) == concat_range(n, g),
    decreases n,
{
    if n > 0 {
        lemma_concat_range_congruent((n - 1) as nat, f, g);
    }
}

proof fn lemma_nonempty_groups_have_matchers(gs: Seq<MatchGroup>)
    ensures
        forall|k: int|
            0 <= k < nonempty_groups(gs).len() ==> (#[trigger] nonempty_groups(gs)[k]).matchers@.len()
                > 0,
    decreases gs.len(),
{
    if gs.len() > 0 {
        lemma_nonempty_groups_have_matchers(gs.drop_last());
        let ng = nonempty_groups(gs.drop_last());
        if gs.last().matchers@.len() > 0 {
            assert forall|k: int| 0 <= k < ng.len() + 1 implies (#[trigger] ng.push(
                gs.last(),
            )[k]).matchers@.len() > 0 by {
                if k < ng.len() {
                    assert(ng.push(gs.last())[k] == ng[k]);
                }
            }
        }
    }
}

/// The lines a block conditional writes for a single match group that has
/// matchers, when it stands alone in the rule: `if ` and the group's lines.
proof fn lemma_lone_group_text(r: ConditionalRule, g: MatchGroup)
    requires
        r.match_groups@ == seq![g],
        g.matchers@.len() > 0,
        r.assignments@.len() == 0,
        !r.skip,
        !r.end,
    ensures
        block_text(r) == "if "@ + group_lines(g),
        block_text(r).skip(3) == group_lines(g),
{
    reveal_strlit("if ");
    assert(r.match_groups@.drop_last() =~= Seq::<MatchGroup>::empty());
    assert(r.match_groups@.last() == g);
    assert(nonempty_groups(Seq::<MatchGroup>::empty()) == Seq::<MatchGroup>::empty());
    assert(Seq::<MatchGroup>::empty().push(g) =~= seq![g]);
    assert(nonempty_groups(r.match_groups@) =~= seq![g]);
    assert(("if "@ + group_lines(g)).skip(3) =~= group_lines(g));
}

/// Match groups are alternatives (OR): in a block conditional with two or
/// more groups that have matchers, the text starts with a line `if`, then
/// each of those groups in order, written exactly as it is written when it
/// is the only group of a rule (there after `if `).  In particular no
/// group's first matcher is joined to the group before it with `& `.
pub proof fn lemma_block_groups_are_alternatives(c: ConditionalRule, alone: Seq<ConditionalRule>)
    requires
        alone.len() == nonempty_groups(c.match_groups@).len(),
        alone.len() >= 2,
        forall|k: int|
            0 <= k < alone.len() ==> (#[trigger] alone[k]).match_groups@ == seq![
                nonempty_groups(c.match_groups@)[k],
            ] && alone[k].assignments@.len() == 0 && !alone[k].skip && !alone[k].end,
    ensures
        ("if\n"@ + concat_range(alone.len(), |k: int| block_text(alone[k]).skip(3))).is_prefix_of(
            block_text(c),
        ),
{
    let gs = nonempty_groups(c.match_groups@);
    lemma_nonempty_groups_have_matchers(c.match_groups@);
    let f = |k: int| block_text(alone[k]).skip(3);
    let g = |k: int| group_lines(gs[k]);
    assert forall|k: int| 0 <= k < alone.len() implies #[trigger] f(k) == g(k) by {
        lemma_lone_group_text(alone[k], gs[k]);
    }
    lemma_concat_range_congruent(alone.len(), f, g);
    let head = "if\n"@ + concat_range(alone.len(), g);
    assert(block_text(c) == head + (assignment_lines(c.assignments@, "  "@) + (if c.skip {
        "  skip\n"@
    } else {
        Seq::empty()
    }) + (if c.end {
        "  end\n"@
    } else {
        Seq::empty()
    })));
    assert(block_text(c).subrange(0, head.len() as int) =~= head);
}

/// A block conditional with exactly one group that has matchers starts
/// with `if ` followed directly by that group's first matcher — `! ` when
/// it is negated, `%FIELD ` when it is restricted to a field, then its
/// pattern — and never with `& `.
pub proof fn lemma_single_group_block_starts_with_first_matcher(c: ConditionalRule)
    requires
        nonempty_groups(c.match_groups@).len() == 1,
    ensures
        ({
            let m = nonempty_groups(c.match_groups@)[0].matchers@[0];
            ("if "@ + (if m.negate {
                "! "@
            } else {
                Seq::empty()
            }) + (match m.field {
                Some(f) => if f@.len() > 0 {
                    "%"@ + f@ + " "@
                } else {
                    Seq::empty()
                },
                None => Seq::empty(),
            }) + m.pattern@ + "\n"@).is_prefix_of(block_text(c))
        }),
{
    let gs = nonempty_groups(c.match_groups@);
    lemma_nonempty_groups_have_matchers(c.match_groups@);
    let g = gs[0];
    let m = g.matchers@[0];
    let fl = |j: int| matcher_text(g.matchers@[j], j > 0) + "\n"@;
    lemma_concat_range_prefix(g.matchers@.len(), fl);
    assert(concat_range(0, fl) == Seq::<char>::empty());
    assert(fl(0) == matcher_text(m, false) + "\n"@);
    assert(concat_range(1, fl) =~= matcher_text(m, false) + "\n"@);
    let p = "if "@ + matcher_text(m, false) + "\n"@;
    let rest = concat_range(g.matchers@.len(), fl).skip(concat_range(1, fl).len() as int);
    assert(concat_range(g.matchers@.len(), fl) =~= concat_range(1, fl) + rest);
    assert(block_text(c).subrange(0, p.len() as int) =~= p);
    assert(matcher_text(m, false) =~= (if m.negate {
        "! "@
    } else {
        Seq::empty()
    }) + (match m.field {
        Some(f) => if f@.len() > 0 {
            "%"@ + f@ + " "@
        } else {
            Seq::empty()
        },
        None => Seq::empty(),
    }) + m.pattern@);
}

/// The first step of a concatenation is a prefix of every longer one.
proof fn lemma_concat_range_prefix(n: nat, f: spec_fn(int) -> Seq<char>)
    requires
        n >= 1,
    ensures
        concat_range(1, f).is_prefix_of(concat_range(n, f)),
    decreases n,
{
    if n > 1 {
        lemma_concat_range_prefix((n - 1) as nat, f);
        let a = concat_range(1, f);
        let b = concat_range((n - 1) as nat, f);
        assert(concat_range(n, f).subrange(0, a.len() as int) =~= b.subrange(0, a.len() as int));
    }
}

} // verus!

verus! {

// ---------------------------------------------------------------------------
// The assignable field names
// ---------------------------------------------------------------------------

/// `name` is `base` followed by a number from 1 to `max`, in decimal.
pub open spec fn numbered(name: Seq<char>, base: Seq<char>, max: nat) -> bool {
    exists|n: nat| 1 <= n <= max && name == base + #[trigger] decimal(n)
}

/// `name` is `amountN-in` or `amountN-out` for a number N from 1 to 3.
pub open spec fn numbered_in_out(name: Seq<char>) -> bool {
    exists|n: nat|
        1 <= n <= 3 && (name == "amount"@ + #[trigger] decimal(n) + "-in"@ || name == "amount"@
            + decimal(n) + "-out"@)
}

/// The hledger CSV field names that a rule may assign: `date`, `date2`,
/// `status`, `code`, `description`, `comment`, `account1`..`account10`,
/// `amount`, `amount-in`, `amount-out`, `amount1`..`amount10`,
/// `amount1-in`/`-out`..`amount3-in`/`-out`, `currency`,
/// `currency1`..`currency3`, `balance`, `balance1`..`balance3` and
/// `comment1`..`comment3`.
pub open spec fn documented_field(name: Seq<char>) -> bool {
    ||| name == "date"@
    ||| name == "date2"@
    ||| name == "status"@
    ||| name == "code"@
    ||| name == "description"@
    ||| name == "comment"@
    ||| numbered(name, "account"@, 10)
    ||| name == "amount"@
    ||| name == "amount-in"@
    ||| name == "amount-out"@
    ||| numbered(name, "amount"@, 10)
    ||| numbered_in_out(name)
    ||| name == "currency"@
    ||| numbered(name, "currency"@, 3)
    ||| name == "balance"@
    ||| numbered(name, "balance"@, 3)
    ||| numbered(name, "comment"@, 3)
}

proof fn lemma_numbered_fields(n: nat)
    requires
        1 <= n <= 10,
    ensures
        hledger_fields()[5 + n as int] == "account"@ + decimal(n),
        hledger_fields()[18 + n as int] == "amount"@ + decimal(n),
        n <= 3 ==> hledger_fields()[35 + n as int] == "currency"@ + decimal(n),
        n <= 3 ==> hledger_fields()[39 + n as int] == "balance"@ + decimal(n),
        n <= 3 ==> hledger_fields()[42 + n as int] == "comment"@ + decimal(n),
        n <= 3 ==> hledger_fields()[27 + 2 * n as int] == "amount"@ + decimal(n) + "-in"@,
        n <= 3 ==> hledger_fields()[28 + 2 * n as int] == "amount"@ + decimal(n) + "-out"@,
{
    reveal_strlit("account");
    reveal_strlit("amount");
    reveal_strlit("currency");
    reveal_strlit("balance");
    reveal_strlit("comment");
    reveal_strlit("-in");
    reveal_strlit("-out");
    assert(decimal(0) == seq!['0']);
    assert(decimal(1) == seq!['1']);
    if n == 1 {
        reveal_strlit("account1");
        reveal_strlit("amount1");
        reveal_strlit("currency1");
        reveal_strlit("balance1");
        reveal_strlit("comment1");
        reveal_strlit("amount1-in");
        reveal_strlit("amount1-out");
        assert(decimal(1) =~= "1"@) by { reveal_strlit("1"); }
        assert(hledger_fields()[6] == "account"@ + decimal(1));
        assert(hledger_fields()[19] == "amount"@ + decimal(1));
        assert(hledger_fields()[36] == "currency"@ + decimal(1));
        assert(hledger_fields()[40] == "balance"@ + decimal(1));
        assert(hledger_fields()[43] == "comment"@ + decimal(1));
        assert(hledger_fields()[29] == "amount"@ + decimal(1) + "-in"@);
        assert(hledger_fields()[30] == "amount"@ + decimal(1) + "-out"@);
    }
    if n == 2 {
        reveal_strlit("account2");
        reveal_strlit("amount2");
        reveal_strlit("currency2");
        reveal_strlit("balance2");
        reveal_strlit("comment2");
        reveal_strlit("amount2-in");
        reveal_strlit("amount2-out");
        assert(decimal(2) =~= "2"@) by { reveal_strlit("2"); }
        assert(hledger_fields()[7] == "account"@ + decimal(2));
        assert(hledger_fields()[20] == "amount"@ + decimal(2));
        assert(hledger_fields()[37] == "currency"@ + decimal(2));
        assert(hledger_fields()[41] == "balance"@ + decimal(2));
        assert(hledger_fields()[44] == "comment"@ + decimal(2));
        assert(hledger_fields()[31] == "amount"@ + decimal(2) + "-in"@);
        assert(hledger_fields()[32] == "amount"@ + decimal(2) + "-out"@);
    }
    if n == 3 {
        reveal_strlit("account3");
        reveal_strlit("amount3");
        reveal_strlit("currency3");
        reveal_strlit("balance3");
        reveal_strlit("comment3");
        reveal_strlit("amount3-in");
        reveal_strlit("amount3-out");
        assert(decimal(3) =~= "3"@) by { reveal_strlit("3"); }
        assert(hledger_fields()[8] == "account"@ + decimal(3));
        assert(hledger_fields()[21] == "amount"@ + decimal(3));
        assert(hledger_fields()[38] == "currency"@ + decimal(3));
        assert(hledger_fields()[42] == "balance"@ + decimal(3));
        assert(hledger_fields()[45] == "comment"@ + decimal(3));
        assert(hledger_fields()[33] == "amount"@ + decimal(3) + "-in"@);
        assert(hledger_fields()[34] == "amount"@ + decimal(3) + "-out"@);
    }
    if n == 4 {
        reveal_strlit("account4");
        reveal_strlit("amount4");
        assert(decimal(4) =~= "4"@) by { reveal_strlit("4"); }
        assert(hledger_fields()[9] == "account"@ + decimal(4));
        assert(hledger_fields()[22] == "amount"@ + decimal(4));
    }
    if n == 5 {
        reveal_strlit("account5");
        reveal_strlit("amount5");
        assert(decimal(5) =~= "5"@) by { reveal_strlit("5"); }
        assert(hledger_fields()[10] == "account"@ + decimal(5));
        assert(hledger_fields()[23] == "amount"@ + decimal(5));
    }
    if n == 6 {
        reveal_strlit("account6");
        reveal_strlit("amount6");
        assert(decimal(6) =~= "6"@) by { reveal_strlit("6"); }
        assert(hledger_fields()[11] == "account"@ + decimal(6));
        assert(hledger_fields()[24] == "amount"@ + decimal(6));
    }
    if n == 7 {
        reveal_strlit("account7");
        reveal_strlit("amount7");
        assert(decimal(7) =~= "7"@) by { reveal_strlit("7"); }
        assert(hledger_fields()[12] == "account"@ + decimal(7));
        assert(hledger_fields()[25] == "amount"@ + decimal(7));
    }
    if n == 8 {
        reveal_strlit("account8");
        reveal_strlit("amount8");
        assert(decimal(8) =~= "8"@) by { reveal_strlit("8"); }
        assert(hledger_fields()[13] == "account"@ + decimal(8));
        assert(hledger_fields()[26] == "amount"@ + decimal(8));
    }
    if n == 9 {
        reveal_strlit("account9");
        reveal_strlit("amount9");
        assert(decimal(9) =~= "9"@) by { reveal_strlit("9"); }
        assert(hledger_fields()[14] == "account"@ + decimal(9));
        assert(hledger_fields()[27] == "amount"@ + decimal(9));
    }
    if n == 10 {
        reveal_strlit("account10");
        reveal_strlit("amount10");
        assert(decimal(10) =~= "10"@) by { reveal_strlit("10"); }
        assert(hledger_fields()[15] == "account"@ + decimal(10));
        assert(hledger_fields()[28] == "amount"@ + decimal(10));
    }
}

/// A field name can be assigned exactly when it is one of the documented
/// hledger CSV field names; every other name is refused by validation.
pub proof fn lemma_assignable_fields(name: Seq<char>)
    ensures
        field_check(name) is Ok <==> documented_field(name),
{
    let fs = hledger_fields();
    if documented_field(name) {
        if numbered(name, "account"@, 10) {
            let n = choose|n: nat| 1 <= n <= 10 && name == "account"@ + #[trigger] decimal(n);
            lemma_numbered_fields(n);
            assert(fs[5 + n as int] == name);
        } else if numbered(name, "amount"@, 10) {
            let n = choose|n: nat| 1 <= n <= 10 && name == "amount"@ + #[trigger] decimal(n);
            lemma_numbered_fields(n);
            assert(fs[18 + n as int] == name);
        } else if numbered(name, "currency"@, 3) {
            let n = choose|n: nat| 1 <= n <= 3 && name == "currency"@ + #[trigger] decimal(n);
            lemma_numbered_fields(n);
            assert(fs[35 + n as int] == name);
        } else if numbered(name, "balance"@, 3) {
            let n = choose|n: nat| 1 <= n <= 3 && name == "balance"@ + #[trigger] decimal(n);
            lemma_numbered_fields(n);
            assert(fs[39 + n as int] == name);
        } else if numbered(name, "comment"@, 3) {
            let n = choose|n: nat| 1 <= n <= 3 && name == "comment"@ + #[trigger] decimal(n);
            lemma_numbered_fields(n);
            assert(fs[42 + n as int] == name);
        } else if numbered_in_out(name) {
            let n = choose|n: nat|
                1 <= n <= 3 && (name == "amount"@ + #[trigger] decimal(n) + "-in"@ || name
                    == "amount"@ + decimal(n) + "-out"@);
            lemma_numbered_fields(n);
            if name == "amount"@ + decimal(n) + "-in"@ {
                assert(fs[27 + 2 * n as int] == name);
            } else {
                assert(fs[28 + 2 * n as int] == name);
            }
        } else if name == "date"@ {
            assert(fs[0] == name);
        } else if name == "date2"@ {
            assert(fs[1] == name);
        } else if name == "status"@ {
            assert(fs[2] == name);
        } else if name == "code"@ {
            assert(fs[3] == name);
        } else if name == "description"@ {
            assert(fs[4] == name);
        } else if name == "comment"@ {
            assert(fs[5] == name);
        } else if name == "amount"@ {
            assert(fs[16] == name);
        } else if name == "amount-in"@ {
            assert(fs[17] == name);
        } else if name == "amount-out"@ {
            assert(fs[18] == name);
        } else if name == "currency"@ {
            assert(fs[35] == name);
        } else if name == "balance"@ {
            assert(fs[39] == name);
        }
        assert(fs.contains(name));
    }
    if fs.contains(name) {
        let i = choose|i: int| 0 <= i < fs.len() && fs[i] == name;
        if i == 0 {
            assert(name == "date"@);
        }
        if i == 1 {
            assert(name == "date2"@);
        }
        if i == 2 {
            assert(name == "status"@);
        }
        if i == 3 {
            assert(name == "code"@);
        }
        if i == 4 {
            assert(name == "description"@);
        }
        if i == 5 {
            assert(name == "comment"@);
        }
        if i == 16 {
            assert(name == "amount"@);
        }
        if i == 17 {
            assert(name == "amount-in"@);
        }
        if i == 18 {
            assert(name == "amount-out"@);
        }
        if i == 35 {
            assert(name == "currency"@);
        }
        if i == 39 {
            assert(name == "balance"@);
        }
        if 6 <= i <= 15 {
            let n = (i - 5) as nat;
            lemma_numbered_fields(n);
            assert(name == "account"@ + decimal(n));
        }
        if 19 <= i <= 28 {
            let n = (i - 18) as nat;
            lemma_numbered_fields(n);
            assert(name == "amount"@ + decimal(n));
        }
        if 36 <= i <= 38 {
            let n = (i - 35) as nat;
            lemma_numbered_fields(n);
            assert(name == "currency"@ + decimal(n));
        }
        if 40 <= i <= 42 {
            let n = (i - 39) as nat;
            lemma_numbered_fields(n);
            assert(name == "balance"@ + decimal(n));
        }
        if 43 <= i <= 45 {
            let n = (i - 42) as nat;
            lemma_numbered_fields(n);
            assert(name == "comment"@ + decimal(n));
        }
        if i == 29 {
            lemma_numbered_fields(1);
            assert(name == "amount"@ + decimal(1) + "-in"@);
        }
        if i == 30 {
            lemma_numbered_fields(1);
            assert(name == "amount"@ + decimal(1) + "-out"@);
        }
        if i == 31 {
            lemma_numbered_fields(2);
            assert(name == "amount"@ + decimal(2) + "-in"@);
        }
        if i == 32 {
            lemma_numbered_fields(2);
            assert(name == "amount"@ + decimal(2) + "-out"@);
        }
        if i == 33 {
            lemma_numbered_fields(3);
            assert(name == "amount"@ + decimal(3) + "-in"@);
        }
        if i == 34 {
            lemma_numbered_fields(3);
            assert(name == "amount"@ + decimal(3) + "-out"@);
        }
    }
}

} // verus!
