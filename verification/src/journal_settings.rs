//! Journal settings: the directives BudgetTool manages at the top of a
//! journal (default commodity, decimal mark, commodities, accounts,
//! includes), how they are read from an existing journal and how the managed
//! header is written back.
use vstd::prelude::*;

use std::collections::HashSet;

use crate::files::FileInfo;
use crate::error::{
    check_each, lemma_check_each_all, lemma_check_each_failure, ok_or_bad_request, unit_view,
    then_check, AppError, ErrorView,
};
use crate::pattern::{regex_compile_error, regex_finds_match, Pattern};
use crate::text::{
    chars_of, concat_all, concat_range, find_char, find_char_from, find_chars, find_from,
    lemma_find_from, occurs_at, blank, chars_eq, trimmed, push_signed, signed_decimal, is_blank, is_ws, lemma_find_char_from,
    push_char, push_range, push_str, starts_with_at, str_eq, string_from_range, texts, trim,
    trim_bounds, trim_start, trimmed_start,
};

verus! {

pub const HEADER_BEGIN: &'static str = "; BEGIN BudgetTool managed header";

pub const HEADER_END: &'static str = "; END BudgetTool managed header";

/// Where a journal transaction starts: a date such as `2026-01-31` or a
/// periodic (`~`) or automated (`=`) transaction.
pub const TRANSACTION_START_PATTERN: &'static str =
    "^(?:\\d{4}[-/]\\d{1,2}[-/]\\d{1,2}|[~=])";

// ---------------------------------------------------------------------------
// Types
// ---------------------------------------------------------------------------

#[derive(Debug, Clone, PartialEq, Eq)]
pub struct CommoditySetting {
    pub sample: String,
}

#[derive(Debug, Clone, PartialEq, Eq)]
pub struct AccountSetting {
    pub name: String,
}

#[derive(Debug, Clone, PartialEq, Eq)]
pub struct JournalSettingsData {
    pub default_commodity: Option<String>,
    pub decimal_mark: Option<String>,
    pub commodities: Vec<CommoditySetting>,
    pub accounts: Vec<AccountSetting>,
    pub includes: Vec<i64>,
}

/// The mathematical value of [`JournalSettingsData`].
pub struct SettingsView {
    pub default_commodity: Option<Seq<char>>,
    pub decimal_mark: Option<Seq<char>>,
    pub commodities: Seq<Seq<char>>,
    pub accounts: Seq<Seq<char>>,
    pub includes: Seq<i64>,
}

pub open spec fn opt_text(o: Option<String>) -> Option<Seq<char>> {
    match o {
        Some(s) => Some(s@),
        None => None,
    }
}

pub open spec fn samples(cs: Seq<CommoditySetting>) -> Seq<Seq<char>> {
    cs.map_values(|c: CommoditySetting| c.sample@)
}

pub open spec fn names(accts: Seq<AccountSetting>) -> Seq<Seq<char>> {
    accts.map_values(|a: AccountSetting| a.name@)
}

impl View for JournalSettingsData {
    type V = SettingsView;

    open spec fn view(&self) -> SettingsView {
        SettingsView {
            default_commodity: opt_text(self.default_commodity),
            decimal_mark: opt_text(self.decimal_mark),
            commodities: samples(self.commodities@),
            accounts: names(self.accounts@),
            includes: self.includes@,
        }
    }
}

pub open spec fn empty_settings() -> SettingsView {
    SettingsView {
        default_commodity: None,
        decimal_mark: None,
        commodities: Seq::empty(),
        accounts: Seq::empty(),
        includes: Seq::empty(),
    }
}

impl Default for JournalSettingsData {
    fn default() -> (d: Self)
        ensures
            d@ == empty_settings(),
    {
        let d = JournalSettingsData {
            default_commodity: None,
            decimal_mark: None,
            commodities: Vec::new(),
            accounts: Vec::new(),
            includes: Vec::new(),
        };
        assert(d@.commodities =~= Seq::<Seq<char>>::empty());
        assert(d@.accounts =~= Seq::<Seq<char>>::empty());
        d
    }
}

pub struct UpdateJournalSettingsRequest {
    pub settings: JournalSettingsData,
}

/// A journal file with its settings.
#[derive(Debug, Clone)]
pub struct JournalSettingsDetail {
    pub file: FileInfo,
    pub settings: JournalSettingsData,
}

/// A journal file of the user: its id and where it is stored.
#[derive(Debug, Clone)]
pub struct JournalFileRef {
    pub id: i64,
    pub disk_path: String,
}

/// What was read from a journal's text: the supported settings, the
/// preamble lines kept as they were, and the rest of the journal.
#[derive(Debug)]
pub struct ImportedJournal {
    pub settings: JournalSettingsData,
    pub unsupported_preamble: String,
    pub body: String,
    pub has_managed_header: bool,
}

pub struct ImportedView {
    pub settings: SettingsView,
    pub unsupported_preamble: Seq<char>,
    pub body: Seq<char>,
    pub has_managed_header: bool,
}

impl View for ImportedJournal {
    type V = ImportedView;

    open spec fn view(&self) -> ImportedView {
        ImportedView {
            settings: self.settings@,
            unsupported_preamble: self.unsupported_preamble@,
            body: self.body@,
            has_managed_header: self.has_managed_header,
        }
    }
}

/// One preamble line, classified.
#[derive(Debug)]
pub enum PreambleLine {
    Unsupported(String),
    DefaultCommodity { value: String },
    DecimalMark { value: String },
    Commodity { sample: String },
    Account { name: String },
    Include { path: String, raw: String },
}

pub enum PreambleView {
    Unsupported(Seq<char>),
    DefaultCommodity(Seq<char>),
    DecimalMark(Seq<char>),
    Commodity(Seq<char>),
    Account(Seq<char>),
    Include(Seq<char>, Seq<char>),
}

impl View for PreambleLine {
    type V = PreambleView;

    open spec fn view(&self) -> PreambleView {
        match self {
            PreambleLine::Unsupported(l) => PreambleView::Unsupported(l@),
            PreambleLine::DefaultCommodity { value } => PreambleView::DefaultCommodity(value@),
            PreambleLine::DecimalMark { value } => PreambleView::DecimalMark(value@),
            PreambleLine::Commodity { sample } => PreambleView::Commodity(sample@),
            PreambleLine::Account { name } => PreambleView::Account(name@),
            PreambleLine::Include { path, raw } => PreambleView::Include(path@, raw@),
        }
    }
}

// ---------------------------------------------------------------------------
// Lines
// ---------------------------------------------------------------------------

pub proof fn lemma_find_char_shift(s: Seq<char>, c: char, i: int, j: int)
    requires
        0 <= i <= s.len(),
        0 <= j,
    ensures
        find_char_from(s.skip(i), c, j) == (if find_char_from(s, c, i + j) < 0 {
            -1
        } else {
            find_char_from(s, c, i + j) - i
        }),
    decreases s.len() - (i + j),
{
    if i + j >= s.len() {
    } else {
        assert(s.skip(i)[j] == s[i + j]);
        if s[i + j] != c {
            lemma_find_char_shift(s, c, i, j + 1);
        }
    }
}

/// The lines of a text, each keeping its `\n` (`str::split_inclusive`).
pub open spec fn split_lines(s: Seq<char>) -> Seq<Seq<char>>
    decreases s.len(),
{
    if s.len() == 0 {
        Seq::empty()
    } else {
        let k = find_char_from(s, '\n', 0);
        if k < 0 {
            seq![s]
        } else {
            proof {
                lemma_find_char_from(s, '\n', 0);
            }
            seq![s.take(k + 1)] + split_lines(s.skip(k + 1))
        }
    }
}

/// The lines of `text`, each with its line break; the last one without a
/// break when the text does not end with one.
pub fn split_inclusive_lines(text: &str) -> (lines: Vec<String>)
    ensures
        texts(lines@) == split_lines(text@),
{
    let v = chars_of(text);
    let n = v.len();
    let mut lines: Vec<String> = Vec::new();
    let mut i: usize = 0;
    assert(v@.skip(0) =~= v@);
    while i < n
        invariant
            0 <= i <= n == v@.len(),
            v@ == text@,
            texts(lines@) + split_lines(v@.skip(i as int)) == split_lines(v@),
        decreases n - i,
    {
        let ghost rest = v@.skip(i as int);
        proof {
            lemma_find_char_shift(v@, '\n', i as int, 0);
            assert(v@.subrange(0, n as int) =~= v@);
            lemma_find_char_from(v@, '\n', i as int);
        }
        let found = find_char(&v, n, '\n', i);
        let e = match found {
            Some(k) => k + 1,
            None => n,
        };
        proof {
            let k2 = find_char_from(rest, '\n', 0);
            assert(rest.len() > 0);
            if found is Some {
                assert(k2 == e - 1 - i);
                assert(rest.take(k2 + 1) =~= v@.subrange(i as int, e as int));
                assert(rest.skip(k2 + 1) =~= v@.skip(e as int));
                assert(split_lines(rest) == seq![rest.take(k2 + 1)] + split_lines(
                    rest.skip(k2 + 1),
                ));
            } else {
                assert(k2 < 0);
                assert(rest =~= v@.subrange(i as int, e as int));
                assert(v@.skip(e as int) =~= Seq::<char>::empty());
                assert(split_lines(rest) == seq![rest]);
            }
            assert(split_lines(rest) =~= seq![v@.subrange(i as int, e as int)] + split_lines(
                v@.skip(e as int),
            ));
        }
        let line = string_from_range(&v, i, e);
        let ghost before = texts(lines@);
        lines.push(line);
        assert(texts(lines@) =~= before.push(v@.subrange(i as int, e as int)));
        i = e;
    }
    assert(v@.skip(n as int) =~= Seq::<char>::empty());
    assert(texts(lines@) + Seq::<Seq<char>>::empty() =~= texts(lines@));
    lines
}

// ---------------------------------------------------------------------------
// Classifying preamble lines
// ---------------------------------------------------------------------------

/// When `t` starts with `p`, the trimmed rest of `t`.
pub open spec fn after_prefix(t: Seq<char>, p: Seq<char>) -> Option<Seq<char>> {
    if p.len() <= t.len() && t.take(p.len() as int) == p {
        Some(trim(t.skip(p.len() as int)))
    } else {
        None
    }
}

/// What a preamble line holds.  Comments, blank lines, directives with an
/// empty value and anything unknown are kept as they are.
pub open spec fn classify(line: Seq<char>) -> PreambleView {
    let t = trim(line);
    if t.len() == 0 || t[0] == ';' || t[0] == '#' {
        PreambleView::Unsupported(line)
    } else if after_prefix(t, "decimal-mark"@) is Some {
        let v = after_prefix(t, "decimal-mark"@)->0;
        if v.len() == 0 {
            PreambleView::Unsupported(line)
        } else {
            PreambleView::DecimalMark(v)
        }
    } else if after_prefix(t, "commodity"@) is Some {
        let v = after_prefix(t, "commodity"@)->0;
        if v.len() == 0 {
            PreambleView::Unsupported(line)
        } else {
            PreambleView::Commodity(v)
        }
    } else if after_prefix(t, "account"@) is Some {
        let v = after_prefix(t, "account"@)->0;
        if v.len() == 0 {
            PreambleView::Unsupported(line)
        } else {
            PreambleView::Account(v)
        }
    } else if after_prefix(t, "include"@) is Some {
        let v = after_prefix(t, "include"@)->0;
        if v.len() == 0 {
            PreambleView::Unsupported(line)
        } else {
            PreambleView::Include(v, line)
        }
    } else if after_prefix(t, "D "@) is Some {
        let v = after_prefix(t, "D "@)->0;
        if v.len() == 0 {
            PreambleView::Unsupported(line)
        } else {
            PreambleView::DefaultCommodity(v)
        }
    } else {
        PreambleView::Unsupported(line)
    }
}

/// When `v[a..b]` starts with `p`, the bounds of the trimmed rest.
fn strip_prefix_trimmed(v: &Vec<char>, a: usize, b: usize, p: &str) -> (r: Option<
    (usize, usize),
>)
    requires
        a <= b <= v.len(),
    ensures
        match r {
            Some((x, y)) => x <= y <= b && after_prefix(v@.subrange(a as int, b as int), p@)
                == Some(v@.subrange(x as int, y as int)),
            None => after_prefix(v@.subrange(a as int, b as int), p@) is None,
        },
{
    let pv = chars_of(p);
    let ghost t = v@.subrange(a as int, b as int);
    if starts_with_at(v, a, b, &pv) {
        assert(t.take(pv@.len() as int) =~= v@.subrange(a as int, a + pv@.len()));
        let (x, y) = trim_bounds(v, a + pv.len(), b);
        assert(t.skip(pv@.len() as int) =~= v@.subrange(a + pv@.len(), b as int));
        Some((x, y))
    } else {
        assert(!(pv@.len() <= t.len() && t.take(pv@.len() as int) == pv@) || (t.take(
            pv@.len() as int,
        ) =~= v@.subrange(a as int, a + pv@.len())));
        None
    }
}

/// Classifies one preamble line.
pub fn parse_preamble_line(line: &str) -> (r: PreambleLine)
    ensures
        r@ == classify(line@),
{
    let v = chars_of(line);
    let (a, b) = trim_bounds(&v, 0, v.len());
    assert(v@.subrange(0, v@.len() as int) =~= v@);
    let ghost t = v@.subrange(a as int, b as int);
    if a == b || v[a] == ';' || v[a] == '#' {
        return PreambleLine::Unsupported(line.to_owned());
    }
    match strip_prefix_trimmed(&v, a, b, "decimal-mark") {
        Some((x, y)) => {
            if x == y {
                return PreambleLine::Unsupported(line.to_owned());
            }
            return PreambleLine::DecimalMark { value: string_from_range(&v, x, y) };
        },
        None => {},
    }
    match strip_prefix_trimmed(&v, a, b, "commodity") {
        Some((x, y)) => {
            if x == y {
                return PreambleLine::Unsupported(line.to_owned());
            }
            return PreambleLine::Commodity { sample: string_from_range(&v, x, y) };
        },
        None => {},
    }
    match strip_prefix_trimmed(&v, a, b, "account") {
        Some((x, y)) => {
            if x == y {
                return PreambleLine::Unsupported(line.to_owned());
            }
            return PreambleLine::Account { name: string_from_range(&v, x, y) };
        },
        None => {},
    }
    match strip_prefix_trimmed(&v, a, b, "include") {
        Some((x, y)) => {
            if x == y {
                return PreambleLine::Unsupported(line.to_owned());
            }
            return PreambleLine::Include { path: string_from_range(&v, x, y), raw: line.to_owned() };
        },
        None => {},
    }
    match strip_prefix_trimmed(&v, a, b, "D ") {
        Some((x, y)) => {
            if x == y {
                return PreambleLine::Unsupported(line.to_owned());
            }
            return PreambleLine::DefaultCommodity { value: string_from_range(&v, x, y) };
        },
        None => {},
    }
    PreambleLine::Unsupported(line.to_owned())
}

// ---------------------------------------------------------------------------
// Looking up journals by path
// ---------------------------------------------------------------------------

/// Each path mapped to the id of the last journal stored at that path.
pub open spec fn path_index(js: Seq<JournalFileRef>) -> Map<Seq<char>, i64>
    decreases js.len(),
{
    if js.len() == 0 {
        Map::empty()
    } else {
        path_index(js.drop_last()).insert(js.last().disk_path@, js.last().id)
    }
}

/// The journals of a user, looked up by the path they are stored at.
pub struct JournalIndex {
    entries: Vec<JournalFileRef>,
}

impl View for JournalIndex {
    type V = Map<Seq<char>, i64>;

    closed spec fn view(&self) -> Map<Seq<char>, i64> {
        path_index(self.entries@)
    }
}

proof fn lemma_path_index_last(js: Seq<JournalFileRef>, p: Seq<char>, k: int)
    requires
        -1 <= k < js.len(),
        forall|j: int| k < j < js.len() ==> js[j].disk_path@ != p,
        k >= 0 ==> js[k].disk_path@ == p,
    ensures
        k >= 0 ==> path_index(js).contains_key(p) && path_index(js)[p] == js[k].id,
        k < 0 ==> (path_index(js).contains_key(p) <==> exists|j: int|
            0 <= j < js.len() && js[j].disk_path@ == p),
    decreases js.len(),
{
    if js.len() > 0 {
        if k == js.len() - 1 {
        } else {
            lemma_path_index_last(js.drop_last(), p, k);
            if k < 0 {
                if path_index(js.drop_last()).contains_key(p) {
                    let j = choose|j: int| 0 <= j < js.drop_last().len() && js.drop_last()[j].disk_path@ == p;
                    assert(js[j].disk_path@ == p);
                }
            }
        }
    }
}

/// Indexes the journals by the path they are stored at; when two journals
/// share a path, the later one wins.
pub fn journals_by_path(journals: &[JournalFileRef]) -> (idx: JournalIndex)
    ensures
        idx@ == path_index(journals@),
{
    let mut entries: Vec<JournalFileRef> = Vec::new();
    let mut i: usize = 0;
    while i < journals.len()
        invariant
            0 <= i <= journals.len(),
            path_index(entries@) == path_index(journals@.take(i as int)),
        decreases journals.len() - i,
    {
        let j = &journals[i];
        let ghost prev = entries@;
        entries.push(JournalFileRef { id: j.id, disk_path: j.disk_path.clone() });
        assert(journals@.take(i + 1).drop_last() =~= journals@.take(i as int));
        assert(entries@.drop_last() =~= prev);
        assert(journals@.take(i + 1).last() == journals@[i as int]);
        i = i + 1;
    }
    assert(journals@.take(journals@.len() as int) =~= journals@);
    JournalIndex { entries }
}

impl JournalIndex {
    /// The id of the journal stored at `path`, if any.
    pub fn get(&self, path: &str) -> (r: Option<i64>)
        ensures
            r == (if self@.contains_key(path@) {
                Some(self@[path@])
            } else {
                None::<i64>
            }),
    {
        let mut j = self.entries.len();
        while j > 0
            invariant
                0 <= j <= self.entries@.len(),
                forall|q: int| j <= q < self.entries@.len() ==> self.entries@[q].disk_path@ != path@,
            decreases j,
        {
            if str_eq(self.entries[j - 1].disk_path.as_str(), path) {
                proof {
                    lemma_path_index_last(self.entries@, path@, j - 1);
                }
                return Some(self.entries[j - 1].id);
            }
            j = j - 1;
        }
        proof {
            lemma_path_index_last(self.entries@, path@, -1);
        }
        None
    }
}

} // verus!

verus! {

// ---------------------------------------------------------------------------
// Reading settings from a journal
// ---------------------------------------------------------------------------

/// Applies one preamble line to the settings and unsupported text read so
/// far.
pub open spec fn apply_line(
    acc: (SettingsView, Seq<char>),
    line: Seq<char>,
    idx: Map<Seq<char>, i64>,
) -> (SettingsView, Seq<char>) {
    let st = acc.0;
    let un = acc.1;
    match classify(line) {
        PreambleView::Unsupported(raw) => (st, un + raw),
        PreambleView::DefaultCommodity(v) => (
            SettingsView {
                default_commodity: Some(v),
                decimal_mark: st.decimal_mark,
                commodities: st.commodities,
                accounts: st.accounts,
                includes: st.includes,
            },
            un,
        ),
        PreambleView::DecimalMark(v) => (
            SettingsView {
                default_commodity: st.default_commodity,
                decimal_mark: Some(v),
                commodities: st.commodities,
                accounts: st.accounts,
                includes: st.includes,
            },
            un,
        ),
        PreambleView::Commodity(v) => (
            SettingsView {
                default_commodity: st.default_commodity,
                decimal_mark: st.decimal_mark,
                commodities: st.commodities.push(v),
                accounts: st.accounts,
                includes: st.includes,
            },
            un,
        ),
        PreambleView::Account(v) => (
            SettingsView {
                default_commodity: st.default_commodity,
                decimal_mark: st.decimal_mark,
                commodities: st.commodities,
                accounts: st.accounts.push(v),
                includes: st.includes,
            },
            un,
        ),
        PreambleView::Include(path, raw) => if idx.contains_key(path) {
            (
                SettingsView {
                    default_commodity: st.default_commodity,
                    decimal_mark: st.decimal_mark,
                    commodities: st.commodities,
                    accounts: st.accounts,
                    includes: st.includes.push(idx[path]),
                },
                un,
            )
        } else {
            (st, un + raw)
        },
    }
}

/// The settings and unsupported text read from a sequence of preamble
/// lines, in order.
pub open spec fn import_lines(lines: Seq<Seq<char>>, idx: Map<Seq<char>, i64>) -> (
    SettingsView,
    Seq<char>,
)
    decreases lines.len(),
{
    if lines.len() == 0 {
        (empty_settings(), Seq::empty())
    } else {
        apply_line(import_lines(lines.drop_last(), idx), lines.last(), idx)
    }
}

/// Reads the supported directives from preamble lines; the other lines, and
/// includes of journals that are not known, are kept as unsupported text.
pub fn parse_supported_lines(lines: Vec<String>, journals_by_path: &JournalIndex) -> (r:
    ImportedJournal)
    ensures
        r@.settings == import_lines(texts(lines@), journals_by_path@).0,
        r@.unsupported_preamble == import_lines(texts(lines@), journals_by_path@).1,
        r@.body.len() == 0,
        !r@.has_managed_header,
{
    let mut settings = JournalSettingsData::default();
    let mut unsupported = String::new();
    let ghost idx = journals_by_path@;
    let mut i: usize = 0;
    while i < lines.len()
        invariant
            0 <= i <= lines.len(),
            idx == journals_by_path@,
            (settings@, unsupported@) == import_lines(texts(lines@).take(i as int), idx),
        decreases lines.len() - i,
    {
        let ghost acc = (settings@, unsupported@);
        proof {
            assert(texts(lines@).take(i + 1).drop_last() =~= texts(lines@).take(i as int));
            assert(texts(lines@).take(i + 1).last() == lines@[i as int]@);
        }
        let kind = parse_preamble_line(lines[i].as_str());
        match kind {
            PreambleLine::Unsupported(raw) => {
                push_str(&mut unsupported, raw.as_str());
            },
            PreambleLine::DefaultCommodity { value } => {
                settings.default_commodity = Some(value);
            },
            PreambleLine::DecimalMark { value } => {
                settings.decimal_mark = Some(value);
            },
            PreambleLine::Commodity { sample } => {
                settings.commodities.push(CommoditySetting { sample });
                assert(settings@.commodities =~= acc.0.commodities.push(
                    settings.commodities@.last().sample@,
                ));
            },
            PreambleLine::Account { name } => {
                settings.accounts.push(AccountSetting { name });
                assert(settings@.accounts =~= acc.0.accounts.push(
                    settings.accounts@.last().name@,
                ));
            },
            PreambleLine::Include { path, raw } => {
                match journals_by_path.get(path.as_str()) {
                    Some(id) => {
                        settings.includes.push(id);
                    },
                    None => {
                        push_str(&mut unsupported, raw.as_str());
                    },
                }
            },
        }
        assert((settings@, unsupported@) =~= apply_line(acc, lines@[i as int]@, idx));
        i = i + 1;
    }
    proof {
        assert(texts(lines@).take(lines@.len() as int) =~= texts(lines@));
    }
    let r = ImportedJournal {
        settings,
        unsupported_preamble: unsupported,
        body: String::new(),
        has_managed_header: false,
    };
    r
}

/// `lines[from..].concat()`.
fn concat_from(lines: &Vec<String>, from: usize) -> (r: String)
    requires
        from <= lines.len(),
    ensures
        r@ == concat_all(texts(lines@).skip(from as int)),
{
    let ghost rest = texts(lines@).skip(from as int);
    let ghost f = |i: int| rest[i];
    let mut out = String::new();
    let mut j = from;
    while j < lines.len()
        invariant
            from <= j <= lines.len(),
            rest == texts(lines@).skip(from as int),
            f == (|i: int| rest[i]),
            out@ == concat_range((j - from) as nat, f),
        decreases lines.len() - j,
    {
        push_str(&mut out, lines[j].as_str());
        assert(rest[j - from] == lines@[j as int]@);
        assert(out@ =~= concat_range((j + 1 - from) as nat, f));
        j = j + 1;
    }
    out
}

/// Index of the first line at or after `i` where a transaction starts, or
/// the number of lines.
pub open spec fn first_transaction_line(lines: Seq<Seq<char>>, i: int) -> int
    decreases lines.len() - i,
{
    if i < 0 || i >= lines.len() {
        lines.len() as int
    } else if regex_finds_match(TRANSACTION_START_PATTERN@, trim_start(lines[i])) {
        i
    } else {
        first_transaction_line(lines, i + 1)
    }
}

pub proof fn lemma_first_transaction_line(lines: Seq<Seq<char>>, i: int)
    requires
        0 <= i <= lines.len(),
    ensures
        i <= first_transaction_line(lines, i) <= lines.len(),
    decreases lines.len() - i,
{
    if i < lines.len() && !regex_finds_match(TRANSACTION_START_PATTERN@, trim_start(lines[i])) {
        lemma_first_transaction_line(lines, i + 1);
    }
}

/// A journal without a managed header, read: the preamble is every line
/// before the first transaction; the body is the rest.  `None` when the
/// transaction-start pattern is refused by the regex engine.
pub open spec fn unmanaged_import(text: Seq<char>, idx: Map<Seq<char>, i64>) -> Option<
    ImportedView,
> {
    match regex_compile_error(TRANSACTION_START_PATTERN@) {
        Some(_) => None,
        None => {
            let lines = split_lines(text);
            let k = first_transaction_line(lines, 0);
            let acc = import_lines(lines.take(k), idx);
            Some(
                ImportedView {
                    settings: acc.0,
                    unsupported_preamble: acc.1,
                    body: concat_all(lines.skip(k)),
                    has_managed_header: false,
                },
            )
        },
    }
}

/// Reads a journal that has no managed header: the supported directives
/// of the preamble become settings, the rest of the preamble is kept, and
/// everything from the first transaction on is the body.
pub fn split_unmanaged_journal(text: &str, journals_by_path: &JournalIndex) -> (r: Option<
    ImportedJournal,
>)
    ensures
        match r {
            Some(imp) => unmanaged_import(text@, journals_by_path@) == Some(imp@),
            None => unmanaged_import(text@, journals_by_path@) is None,
        },
{
    let lines = split_inclusive_lines(text);
    let tx_re = match Pattern::compile(TRANSACTION_START_PATTERN) {
        Ok(p) => p,
        Err(_) => {
            return None;
        },
    };
    let ghost ls = texts(lines@);
    let mut k: usize = 0;
    while k < lines.len()
        invariant
            0 <= k <= lines.len(),
            ls == texts(lines@),
            tx_re.source() == TRANSACTION_START_PATTERN@,
            first_transaction_line(ls, 0) == first_transaction_line(ls, k as int),
        ensures
            k <= lines.len(),
            first_transaction_line(ls, 0) == k,
        decreases lines.len() - k,
    {
        let start = trimmed_start(lines[k].as_str());
        if tx_re.is_match(start.as_str()) {
            break;
        }
        k = k + 1;
    }
    let ghost split = k;
    assert(first_transaction_line(ls, 0) == k);
    let mut preamble: Vec<String> = Vec::new();
    let mut j: usize = 0;
    while j < k
        invariant
            0 <= j <= k <= lines.len(),
            texts(preamble@) == ls.take(j as int),
            ls == texts(lines@),
        decreases k - j,
    {
        let line = lines[j].clone();
        let ghost prev = preamble@;
        preamble.push(line);
        assert(preamble@ =~= prev.push(lines@[j as int]));
        assert(texts(preamble@) =~= texts(prev).push(lines@[j as int]@));
        assert(ls[j as int] == lines@[j as int]@);
        assert(ls.take(j + 1) =~= ls.take(j as int).push(ls[j as int]));
        assert(texts(preamble@) =~= ls.take(j + 1));
        j = j + 1;
    }
    let body = concat_from(&lines, k);
    let mut imported = parse_supported_lines(preamble, journals_by_path);
    imported.body = body;
    Some(imported)
}

} // verus!

verus! {

/// The end marker cannot start inside the begin marker.
proof fn lemma_markers_apart(t: Seq<char>, s: int, e: int)
    requires
        occurs_at(t, HEADER_BEGIN@, s),
        occurs_at(t, HEADER_END@, e),
        s <= e,
    ensures
        s + HEADER_BEGIN@.len() <= e,
{
    reveal_strlit("; BEGIN BudgetTool managed header");
    reveal_strlit("; END BudgetTool managed header");
    let b = HEADER_BEGIN@;
    let en = HEADER_END@;
    if e < s + b.len() {
        assert(t.subrange(e, e + en.len())[0] == t[e]);
        assert(t.subrange(s, s + b.len())[e - s] == t[e]);
        assert(t[e] == ';');
        if e == s {
            assert(t.subrange(e, e + en.len())[2] == t[e + 2]);
            assert(t.subrange(s, s + b.len())[2] == t[s + 2]);
            assert(false);
        } else {
            assert(b[e - s] == ';');
            assert(false);
        }
    }
}

} // verus!

verus! {

/// Where the managed block is in `t`: the start of the begin marker, the
/// start of the end marker, and the end of the end marker's line.
pub open spec fn managed_block(t: Seq<char>) -> Option<(int, int, int)> {
    let s = find_from(t, HEADER_BEGIN@, 0);
    if s < 0 {
        None
    } else {
        let e = find_from(t, HEADER_END@, s);
        if e < 0 {
            None
        } else {
            let nl = find_char_from(t, '\n', e);
            Some((s, e, if nl < 0 { t.len() as int } else { nl + 1 }))
        }
    }
}

pub proof fn lemma_managed_block(t: Seq<char>)
    ensures
        managed_block(t) matches Some((s, e, le)) ==> {
            &&& 0 <= s && s + HEADER_BEGIN@.len() <= e && e + HEADER_END@.len() <= le <= t.len()
            &&& occurs_at(t, HEADER_BEGIN@, s)
            &&& occurs_at(t, HEADER_END@, e)
        },
{
    lemma_find_from(t, HEADER_BEGIN@, 0);
    let s = find_from(t, HEADER_BEGIN@, 0);
    if s >= 0 {
        lemma_find_from(t, HEADER_END@, s);
        let e = find_from(t, HEADER_END@, s);
        if e >= 0 {
            lemma_markers_apart(t, s, e);
            lemma_find_char_from(t, '\n', e);
            let nl = find_char_from(t, '\n', e);
            if nl >= 0 && nl < e + HEADER_END@.len() {
                reveal_strlit("; END BudgetTool managed header");
                assert(t.subrange(e, e + HEADER_END@.len())[nl - e] == t[nl]);
                assert(false);
            }
        }
    }
}

fn locate_managed_block(v: &Vec<char>) -> (r: Option<(usize, usize, usize)>)
    ensures
        match r {
            Some((s, e, le)) => managed_block(v@) == Some((s as int, e as int, le as int)),
            None => managed_block(v@) is None,
        },
{
    let n = v.len();
    assert(v@.subrange(0, n as int) =~= v@);
    proof {
        lemma_managed_block(v@);
    }
    let b = chars_of(HEADER_BEGIN);
    let s = match find_chars(v, n, &b, 0) {
        Some(s) => s,
        None => {
            return None;
        },
    };
    proof {
        lemma_find_from(v@, HEADER_BEGIN@, 0);
    }
    let en = chars_of(HEADER_END);
    let e = match find_chars(v, n, &en, s) {
        Some(e) => e,
        None => {
            return None;
        },
    };
    proof {
        lemma_find_from(v@, HEADER_END@, s as int);
    }
    let le = match find_char(v, n, '\n', e) {
        Some(k) => k + 1,
        None => n,
    };
    Some((s, e, le))
}

/// A journal with a managed header, read: the settings come from the
/// managed block, and the body is everything outside the block (the block
/// runs up to the end of the end marker's line).
pub open spec fn managed_import(t: Seq<char>, idx: Map<Seq<char>, i64>) -> Option<ImportedView> {
    match managed_block(t) {
        None => None,
        Some((s, e, le)) => {
            let acc = import_lines(split_lines(t.subrange(s + HEADER_BEGIN@.len(), e)), idx);
            Some(
                ImportedView {
                    settings: acc.0,
                    unsupported_preamble: acc.1,
                    body: t.take(s) + t.skip(le),
                    has_managed_header: true,
                },
            )
        },
    }
}

/// Reads the settings from the managed header of a journal; `None` when the
/// journal has no complete managed header.
pub fn parse_managed_header(text: &str, journals_by_path: &JournalIndex) -> (r: Option<
    ImportedJournal,
>)
    ensures
        match r {
            Some(imp) => managed_import(text@, journals_by_path@) == Some(imp@),
            None => managed_import(text@, journals_by_path@) is None,
        },
{
    let v = chars_of(text);
    let (s, e, le) = match locate_managed_block(&v) {
        Some(x) => x,
        None => {
            return None;
        },
    };
    proof {
        lemma_managed_block(v@);
    }
    let begin_len = chars_of(HEADER_BEGIN).len();
    let region = string_from_range(&v, s + begin_len, e);
    let managed_lines = split_inclusive_lines(region.as_str());
    let mut imported = parse_supported_lines(managed_lines, journals_by_path);
    imported.has_managed_header = true;
    let mut body = String::new();
    push_range(&mut body, &v, 0, s);
    push_range(&mut body, &v, le, v.len());
    assert(v@.subrange(0, s as int) =~= v@.take(s as int));
    assert(v@.subrange(le as int, v@.len() as int) =~= v@.skip(le as int));
    imported.body = body;
    Some(imported)
}

/// `content` with its managed block replaced by `header`; when there is no
/// complete managed block, `header` is put in front of the content.
pub open spec fn replaced_header(content: Seq<char>, header: Seq<char>) -> Seq<char> {
    match managed_block(content) {
        None => header + content,
        Some((s, e, le)) => content.take(s) + header + content.skip(le),
    }
}

/// Replaces the managed block of a journal (up to the end of the end
/// marker's line) with `header`, keeping everything around it.
pub fn replace_managed_header(content: &str, header: &str) -> (r: String)
    ensures
        r@ == replaced_header(content@, header@),
{
    let v = chars_of(content);
    let mut out = String::new();
    match locate_managed_block(&v) {
        None => {
            push_str(&mut out, header);
            push_str(&mut out, content);
        },
        Some((s, e, le)) => {
            proof {
                lemma_managed_block(v@);
            }
            push_range(&mut out, &v, 0, s);
            push_str(&mut out, header);
            push_range(&mut out, &v, le, v.len());
            assert(v@.subrange(0, s as int) =~= v@.take(s as int));
            assert(v@.subrange(le as int, v@.len() as int) =~= v@.skip(le as int));
        },
    }
    out
}

/// The header followed by the kept preamble and the body.
pub fn merge_unmanaged_content(header: &str, imported: ImportedJournal) -> (r: String)
    ensures
        r@ == header@ + imported@.unsupported_preamble + imported@.body,
{
    let mut out = String::new();
    push_str(&mut out, header);
    push_str(&mut out, imported.unsupported_preamble.as_str());
    push_str(&mut out, imported.body.as_str());
    out
}

} // verus!

verus! {

// ---------------------------------------------------------------------------
// Normalizing and checking settings
// ---------------------------------------------------------------------------

/// The trimmed text, when it is not blank.
pub open spec fn trimmed_opt(o: Option<Seq<char>>) -> Option<Seq<char>> {
    match o {
        Some(s) => if trim(s).len() > 0 {
            Some(trim(s))
        } else {
            None
        },
        None => None,
    }
}

/// Each text trimmed, blank ones dropped, order kept.
pub open spec fn clean(s: Seq<Seq<char>>) -> Seq<Seq<char>>
    decreases s.len(),
{
    if s.len() == 0 {
        Seq::empty()
    } else if trim(s.last()).len() > 0 {
        clean(s.drop_last()).push(trim(s.last()))
    } else {
        clean(s.drop_last())
    }
}

/// Settings with every text trimmed and blank entries dropped.
pub open spec fn normalized(s: SettingsView) -> SettingsView {
    SettingsView {
        default_commodity: trimmed_opt(s.default_commodity),
        decimal_mark: trimmed_opt(s.decimal_mark),
        commodities: clean(s.commodities),
        accounts: clean(s.accounts),
        includes: s.includes,
    }
}

fn trimmed_opt_string(o: &Option<String>) -> (r: Option<String>)
    ensures
        opt_text(r) == trimmed_opt(opt_text(*o)),
{
    match o {
        Some(s) => {
            let t = trimmed(s.as_str());
            if t.as_str().is_empty() {
                None
            } else {
                Some(t)
            }
        },
        None => None,
    }
}

/// Trims every text of the settings and drops blank commodities, accounts
/// and values; includes are kept as they are.
pub fn normalize_settings(input: &JournalSettingsData) -> (r: JournalSettingsData)
    ensures
        r@ == normalized(input@),
{
    let mut commodities: Vec<CommoditySetting> = Vec::new();
    let mut i: usize = 0;
    while i < input.commodities.len()
        invariant
            0 <= i <= input.commodities.len(),
            samples(commodities@) == clean(samples(input.commodities@).take(i as int)),
        decreases input.commodities.len() - i,
    {
        let t = trimmed(input.commodities[i].sample.as_str());
        let ghost prev = commodities@;
        assert(samples(input.commodities@).take(i + 1).drop_last() =~= samples(
            input.commodities@,
        ).take(i as int));
        if !t.as_str().is_empty() {
            commodities.push(CommoditySetting { sample: t });
            assert(samples(commodities@) =~= samples(prev).push(
                trim(input.commodities@[i as int].sample@),
            ));
        }
        i = i + 1;
    }
    let mut accounts: Vec<AccountSetting> = Vec::new();
    let mut i: usize = 0;
    while i < input.accounts.len()
        invariant
            0 <= i <= input.accounts.len(),
            names(accounts@) == clean(names(input.accounts@).take(i as int)),
        decreases input.accounts.len() - i,
    {
        let t = trimmed(input.accounts[i].name.as_str());
        let ghost prev = accounts@;
        assert(names(input.accounts@).take(i + 1).drop_last() =~= names(input.accounts@).take(
            i as int,
        ));
        if !t.as_str().is_empty() {
            accounts.push(AccountSetting { name: t });
            assert(names(accounts@) =~= names(prev).push(trim(input.accounts@[i as int].name@)));
        }
        i = i + 1;
    }
    assert(samples(input.commodities@).take(input.commodities@.len() as int) =~= samples(
        input.commodities@,
    ));
    assert(names(input.accounts@).take(input.accounts@.len() as int) =~= names(input.accounts@));
    JournalSettingsData {
        default_commodity: trimmed_opt_string(&input.default_commodity),
        decimal_mark: trimmed_opt_string(&input.decimal_mark),
        commodities,
        accounts,
        includes: input.includes.clone(),
    }
}

/// The problem, if any, with the account at index `i`: blank, or a
/// (trimmed) name already declared before it.
pub open spec fn account_issue(accts: Seq<Seq<char>>, i: int) -> Result<(), ErrorView> {
    let name = trim(accts[i]);
    if name.len() == 0 {
        Err(ErrorView::BadRequest("account names cannot be empty"@))
    } else if exists|j: int| 0 <= j < i && trim(accts[j]) == name {
        Err(ErrorView::BadRequest("duplicate account declaration: "@ + name))
    } else {
        Ok(())
    }
}

/// What `validate_settings_shape` answers: the decimal mark is `.` or `,`,
/// no commodity sample is blank, and account names are neither blank nor
/// repeated; the first problem found is reported.
pub open spec fn shape_check(s: SettingsView) -> Result<(), ErrorView> {
    if s.decimal_mark matches Some(m) && m != "."@ && m != ","@ {
        Err(ErrorView::BadRequest("decimal_mark must be '.' or ','"@))
    } else if exists|i: int| 0 <= i < s.commodities.len() && is_blank(s.commodities[i]) {
        Err(ErrorView::BadRequest("commodity samples cannot be empty"@))
    } else {
        check_each(s.accounts.len(), |i: int| account_issue(s.accounts, i))
    }
}

/// Whether settings have a shape that can be written: the decimal mark, if
/// any, is `.` or `,`; no commodity sample is blank; no account name is
/// blank; and no two account names are equal once trimmed.
pub open spec fn settings_shape_valid(s: SettingsView) -> bool {
    &&& match s.decimal_mark {
        Some(m) => m == "."@ || m == ","@,
        None => true,
    }
    &&& forall|i: int| 0 <= i < s.commodities.len() ==> !is_blank(#[trigger] s.commodities[i])
    &&& forall|i: int| 0 <= i < s.accounts.len() ==> trim(#[trigger] s.accounts[i]).len() > 0
    &&& forall|i: int, j: int|
        #![trigger trim(s.accounts[j]), trim(s.accounts[i])]
        0 <= j < i < s.accounts.len() ==> trim(s.accounts[j]) != trim(s.accounts[i])
}

/// `validate_settings_shape` accepts settings exactly when their shape is
/// valid, and every settings it refuses are refused as a bad request.
pub proof fn lemma_settings_shape_accepts_exactly(s: JournalSettingsData)
    ensures
        shape_check(s@) is Ok <==> settings_shape_valid(s@),
        ok_or_bad_request(shape_check(s@)),
{
    let v = s@;
    let accts = v.accounts;
    let f = |i: int| account_issue(accts, i);
    lemma_check_each_all(f, accts.len());
    assert forall|i: int| 0 <= i < accts.len() implies ok_or_bad_request(#[trigger] f(i)) by {}
    if check_each(accts.len(), f) is Ok {
        assert forall|i: int| 0 <= i < accts.len() implies trim(#[trigger] accts[i]).len() > 0 by {
            assert(f(i) is Ok);
        }
        assert forall|i: int, j: int|
            #![trigger trim(accts[j]), trim(accts[i])]
            0 <= j < i < accts.len() implies trim(accts[j]) != trim(accts[i]) by {
            assert(f(i) is Ok);
        }
    }
    if settings_shape_valid(v) {
        assert forall|i: int| 0 <= i < accts.len() implies #[trigger] f(i) is Ok by {
            assert(trim(accts[i]).len() > 0);
            assert forall|j: int| 0 <= j < i implies trim(accts[j]) != trim(accts[i]) by {}
        }
    }
}

/// The index of a string equal to `name`, if any.
fn position_of(seen: &Vec<String>, name: &str) -> (r: Option<usize>)
    ensures
        match r {
            Some(j) => j < seen@.len() && seen@[j as int]@ == name@,
            None => forall|q: int| 0 <= q < seen@.len() ==> seen@[q]@ != name@,
        },
{
    let mut j: usize = 0;
    while j < seen.len()
        invariant
            0 <= j <= seen@.len(),
            forall|q: int| 0 <= q < j ==> seen@[q]@ != name@,
        decreases seen.len() - j,
    {
        if str_eq(seen[j].as_str(), name) {
            return Some(j);
        }
        j = j + 1;
    }
    None
}

/// Checks the shape of settings before they are written.
pub fn validate_settings_shape(settings: &JournalSettingsData) -> (r: Result<(), AppError>)
    ensures
        unit_view(r) == shape_check(settings@),
{
    match &settings.decimal_mark {
        Some(mark) => {
            let m = chars_of(mark.as_str());
            if !chars_eq(&m, &chars_of(".")) && !chars_eq(&m, &chars_of(",")) {
                return Err(AppError::BadRequest(String::from_str("decimal_mark must be '.' or ','")));
            }
        },
        None => {},
    }
    let mut i: usize = 0;
    while i < settings.commodities.len()
        invariant
            0 <= i <= settings.commodities.len(),
            !(settings@.decimal_mark matches Some(m) && m != "."@ && m != ","@),
            forall|j: int| 0 <= j < i ==> !is_blank(samples(settings.commodities@)[j]),
        decreases settings.commodities.len() - i,
    {
        if blank(settings.commodities[i].sample.as_str()) {
            assert(is_blank(samples(settings.commodities@)[i as int]));
            assert(is_blank(settings@.commodities[i as int]));
            return Err(AppError::BadRequest(String::from_str("commodity samples cannot be empty")));
        }
        i = i + 1;
    }
    let ghost accts = names(settings.accounts@);
    let ghost f = |i: int| account_issue(accts, i);
    let mut seen: Vec<String> = Vec::new();
    let mut i: usize = 0;
    while i < settings.accounts.len()
        invariant
            0 <= i <= settings.accounts.len(),
            accts == names(settings.accounts@),
            f == (|i: int| account_issue(accts, i)),
            check_each(i as nat, f) == Ok::<(), ErrorView>(()),
            seen@.len() == i,
            accts.len() == settings.accounts@.len(),
            forall|j: int| 0 <= j < i ==> #[trigger] seen@[j]@ == trim(accts[j]),
            !(settings@.decimal_mark matches Some(m) && m != "."@ && m != ","@),
            !(exists|q: int| 0 <= q < settings@.commodities.len() && is_blank(settings@.commodities[q])),
        decreases settings.accounts.len() - i,
    {
        let name = trimmed(settings.accounts[i].name.as_str());
        if name.as_str().is_empty() {
            proof {
                lemma_check_each_failure(f, (i + 1) as nat, accts.len());
            }
            return Err(AppError::BadRequest(String::from_str("account names cannot be empty")));
        }
        match position_of(&seen, name.as_str()) {
            Some(j) => {
                let mut msg = String::from_str("duplicate account declaration: ");
                push_str(&mut msg, name.as_str());
                proof {
                    assert(seen@[j as int]@ == trim(accts[j as int]));
                    assert(trim(accts[j as int]) == trim(accts[i as int]));
                    lemma_check_each_failure(f, (i + 1) as nat, accts.len());
                }
                return Err(AppError::BadRequest(msg));
            },
            None => {},
        }
        assert(!exists|q: int| 0 <= q < i && trim(accts[q]) == trim(accts[i as int])) by {
            assert forall|q: int| 0 <= q < i implies trim(accts[q]) != trim(accts[i as int]) by {
                assert(seen@[q]@ == trim(accts[q]));
            }
        }
        seen.push(name);
        i = i + 1;
    }
    Ok(())
}

// ---------------------------------------------------------------------------
// Writing the managed header
// ---------------------------------------------------------------------------

pub open spec fn is_ascii_digit(c: char) -> bool {
    '0' <= c && c <= '9'
}

pub open spec fn is_ascii_alpha(c: char) -> bool {
    ('a' <= c && c <= 'z') || ('A' <= c && c <= 'Z')
}

/// The value of the `D` directive for a default commodity: the amount as
/// given when it has digits, otherwise a sample amount `1.00` (`1,00` with a
/// comma decimal mark) with the commodity symbol after it (for a letter
/// symbol, separated by a space) or before it.
pub open spec fn default_commodity_amount(raw: Seq<char>, decimal_mark: Option<Seq<char>>) -> Seq<
    char,
> {
    let v = trim(raw);
    if exists|i: int| 0 <= i < v.len() && is_ascii_digit(v[i]) {
        v
    } else {
        let sample = if decimal_mark == Some(","@) {
            "1,00"@
        } else {
            "1.00"@
        };
        if v.len() > 0 && is_ascii_alpha(v[0]) {
            sample + " "@ + v
        } else {
            v + sample
        }
    }
}

pub fn render_default_commodity_amount(raw: &str, decimal_mark: Option<&str>) -> (r: String)
    ensures
        r@ == default_commodity_amount(
            raw@,
            match decimal_mark {
                Some(m) => Some(m@),
                None => None,
            },
        ),
{
    let value = trimmed(raw);
    let v = chars_of(value.as_str());
    let mut i: usize = 0;
    while i < v.len()
        invariant
            0 <= i <= v.len(),
            v@ == value@,
            value@ == trim(raw@),
            forall|j: int| 0 <= j < i ==> !is_ascii_digit(v@[j]),
        decreases v.len() - i,
    {
        if '0' <= v[i] && v[i] <= '9' {
            assert(is_ascii_digit(trim(raw@)[i as int]));
            return value;
        }
        i = i + 1;
    }
    let comma = match decimal_mark {
        Some(m) => str_eq(m, ","),
        None => false,
    };
    let sample = if comma {
        "1,00"
    } else {
        "1.00"
    };
    let mut out = String::new();
    if v.len() > 0 && (('a' <= v[0] && v[0] <= 'z') || ('A' <= v[0] && v[0] <= 'Z')) {
        push_str(&mut out, sample);
        push_str(&mut out, " ");
        push_str(&mut out, value.as_str());
    } else {
        push_str(&mut out, value.as_str());
        push_str(&mut out, sample);
    }
    out
}

/// `prefix + text + "\n"` for each text, in order.
pub open spec fn directive_lines(prefix: Seq<char>, s: Seq<Seq<char>>) -> Seq<char> {
    concat_range(s.len(), |i: int| prefix + s[i] + "\n"@)
}

/// The managed header: the begin marker, one directive per setting in a
/// fixed order (default commodity, decimal mark, commodities, accounts,
/// includes), the end marker and a blank line.
pub open spec fn header_text(s: SettingsView, include_paths: Seq<Seq<char>>) -> Seq<char> {
    HEADER_BEGIN@ + "\n"@ + (match s.default_commodity {
        Some(d) => "D "@ + default_commodity_amount(d, s.decimal_mark) + "\n"@,
        None => Seq::empty(),
    }) + (match s.decimal_mark {
        Some(m) => "decimal-mark "@ + m + "\n"@,
        None => Seq::empty(),
    }) + directive_lines("commodity "@, s.commodities) + directive_lines("account "@, s.accounts)
        + directive_lines("include "@, include_paths) + HEADER_END@ + "\n\n"@
}

fn write_directive_lines(out: &mut String, prefix: &str, items: &[String])
    ensures
        final(out)@ == old(out)@ + directive_lines(prefix@, texts(items@)),
{
    let ghost s = texts(items@);
    let ghost f = |i: int| prefix@ + s[i] + "\n"@;
    let mut i: usize = 0;
    while i < items.len()
        invariant
            0 <= i <= items.len(),
            s == texts(items@),
            f == (|i: int| prefix@ + s[i] + "\n"@),
            out@ == old(out)@ + concat_range(i as nat, f),
        decreases items.len() - i,
    {
        push_str(out, prefix);
        push_str(out, items[i].as_str());
        push_str(out, "\n");
        assert(s[i as int] == items@[i as int]@);
        assert(out@ =~= old(out)@ + concat_range((i + 1) as nat, f));
        i = i + 1;
    }
}

/// Renders the managed header for the settings; `include_paths` are the
/// disk paths of the included journals, in order.
pub fn render_managed_header(settings: &JournalSettingsData, include_paths: &[String]) -> (r:
    String)
    ensures
        r@ == header_text(settings@, texts(include_paths@)),
{
    let mut out = String::new();
    push_str(&mut out, HEADER_BEGIN);
    push_str(&mut out, "\n");
    let ghost s0 = out@;
    match &settings.default_commodity {
        Some(dc) => {
            let dm = match &settings.decimal_mark {
                Some(m) => Some(m.as_str()),
                None => None,
            };
            let amount = render_default_commodity_amount(dc.as_str(), dm);
            push_str(&mut out, "D ");
            push_str(&mut out, amount.as_str());
            push_str(&mut out, "\n");
        },
        None => {},
    }
    let ghost s1 = out@;
    match &settings.decimal_mark {
        Some(m) => {
            push_str(&mut out, "decimal-mark ");
            push_str(&mut out, m.as_str());
            push_str(&mut out, "\n");
        },
        None => {},
    }
    let ghost s2 = out@;
    let mut samples_v: Vec<String> = Vec::new();
    let mut i: usize = 0;
    while i < settings.commodities.len()
        invariant
            0 <= i <= settings.commodities.len(),
            texts(samples_v@) == samples(settings.commodities@).take(i as int),
        decreases settings.commodities.len() - i,
    {
        let ghost prev = samples_v@;
        samples_v.push(settings.commodities[i].sample.clone());
        assert(samples_v@ =~= prev.push(settings.commodities@[i as int].sample));
        assert(texts(samples_v@) =~= texts(prev).push(settings.commodities@[i as int].sample@));
        assert(texts(samples_v@) =~= samples(settings.commodities@).take(i + 1));
        i = i + 1;
    }
    assert(samples(settings.commodities@).take(i as int) =~= samples(settings.commodities@));
    write_directive_lines(&mut out, "commodity ", samples_v.as_slice());
    let ghost s3 = out@;
    let mut names_v: Vec<String> = Vec::new();
    let mut i: usize = 0;
    while i < settings.accounts.len()
        invariant
            0 <= i <= settings.accounts.len(),
            texts(names_v@) == names(settings.accounts@).take(i as int),
        decreases settings.accounts.len() - i,
    {
        let ghost prev = names_v@;
        names_v.push(settings.accounts[i].name.clone());
        assert(names_v@ =~= prev.push(settings.accounts@[i as int].name));
        assert(texts(names_v@) =~= texts(prev).push(settings.accounts@[i as int].name@));
        assert(texts(names_v@) =~= names(settings.accounts@).take(i + 1));
        i = i + 1;
    }
    assert(names(settings.accounts@).take(i as int) =~= names(settings.accounts@));
    write_directive_lines(&mut out, "account ", names_v.as_slice());
    let ghost s4 = out@;
    write_directive_lines(&mut out, "include ", include_paths);
    push_str(&mut out, HEADER_END);
    push_str(&mut out, "\n\n");
    assert(s1 =~= s0 + (match settings@.default_commodity {
        Some(d) => "D "@ + default_commodity_amount(d, settings@.decimal_mark) + "\n"@,
        None => Seq::empty(),
    }));
    assert(s2 =~= s1 + (match settings@.decimal_mark {
        Some(m) => "decimal-mark "@ + m + "\n"@,
        None => Seq::empty(),
    }));
    assert(out@ =~= header_text(settings@, texts(include_paths@)));
    out
}

} // verus!

verus! {

// ---------------------------------------------------------------------------
// Stored settings
// ---------------------------------------------------------------------------

/// A stored settings row, with its JSON lists already decoded.
#[derive(Debug)]
pub struct JournalSettingsRow {
    pub file_id: i64,
    pub default_commodity: Option<String>,
    pub decimal_mark: Option<String>,
    pub commodities: Vec<CommoditySetting>,
    pub accounts: Vec<AccountSetting>,
    pub includes: Vec<i64>,
}

/// The text, unless it is blank (kept untrimmed).
pub open spec fn unless_blank(o: Option<Seq<char>>) -> Option<Seq<char>> {
    match o {
        Some(s) => if is_blank(s) {
            None
        } else {
            Some(s)
        },
        None => None,
    }
}

fn unless_blank_string(o: Option<String>) -> (r: Option<String>)
    ensures
        opt_text(r) == unless_blank(opt_text(o)),
{
    match o {
        Some(s) => if blank(s.as_str()) {
            None
        } else {
            Some(s)
        },
        None => None,
    }
}

/// The settings held by a stored row; a blank default commodity or decimal
/// mark counts as unset.
pub fn map_row_to_data(row: JournalSettingsRow) -> (r: JournalSettingsData)
    ensures
        r@.default_commodity == unless_blank(opt_text(row.default_commodity)),
        r@.decimal_mark == unless_blank(opt_text(row.decimal_mark)),
        r@.commodities == samples(row.commodities@),
        r@.accounts == names(row.accounts@),
        r@.includes == row.includes@,
{
    JournalSettingsData {
        default_commodity: unless_blank_string(row.default_commodity),
        decimal_mark: unless_blank_string(row.decimal_mark),
        commodities: row.commodities,
        accounts: row.accounts,
        includes: row.includes,
    }
}

// ---------------------------------------------------------------------------
// Include targets
// ---------------------------------------------------------------------------

/// Each journal id mapped to the disk path of the last journal with that id.
pub open spec fn id_index(js: Seq<JournalFileRef>) -> Map<i64, Seq<char>>
    decreases js.len(),
{
    if js.len() == 0 {
        Map::empty()
    } else {
        id_index(js.drop_last()).insert(js.last().id, js.last().disk_path@)
    }
}

proof fn lemma_id_index_last(js: Seq<JournalFileRef>, id: i64, k: int)
    requires
        -1 <= k < js.len(),
        forall|j: int| k < j < js.len() ==> js[j].id != id,
        k >= 0 ==> js[k].id == id,
    ensures
        k >= 0 ==> id_index(js).contains_key(id) && id_index(js)[id] == js[k].disk_path@,
        k < 0 ==> !id_index(js).contains_key(id),
    decreases js.len(),
{
    if js.len() > 0 && k != js.len() - 1 {
        lemma_id_index_last(js.drop_last(), id, k);
    }
}

/// The problem, if any, with the include at index `i` of `ids`.
pub open spec fn include_issue(root: i64, ids: Seq<i64>, i: int, by_id: Map<i64, Seq<char>>) -> Result<
    (),
    ErrorView,
> {
    if ids[i] == root {
        Err(ErrorView::BadRequest("journal cannot include itself"@))
    } else if ids.take(i).contains(ids[i]) {
        Err(ErrorView::BadRequest("duplicate include target: "@ + signed_decimal(ids[i] as int)))
    } else if !by_id.contains_key(ids[i]) {
        Err(
            ErrorView::BadRequest(
                "included journal "@ + signed_decimal(ids[i] as int) + " not found"@,
            ),
        )
    } else {
        Ok(())
    }
}

/// What `include_target_paths` answers: the disk path of every included
/// journal, in order, or the first problem with an include.
pub open spec fn include_targets(root: i64, ids: Seq<i64>, js: Seq<JournalFileRef>) -> Result<
    Seq<Seq<char>>,
    ErrorView,
> {
    match check_each(ids.len(), |i: int| include_issue(root, ids, i, id_index(js))) {
        Err(e) => Err(e),
        Ok(()) => Ok(ids.map_values(|id: i64| id_index(js)[id])),
    }
}

fn path_of_id(journals: &[JournalFileRef], id: i64) -> (r: Option<String>)
    ensures
        match r {
            Some(p) => id_index(journals@).contains_key(id) && id_index(journals@)[id] == p@,
            None => !id_index(journals@).contains_key(id),
        },
{
    let mut j = journals.len();
    while j > 0
        invariant
            0 <= j <= journals@.len(),
            forall|q: int| j <= q < journals@.len() ==> journals@[q].id != id,
        decreases j,
    {
        if journals[j - 1].id == id {
            proof {
                lemma_id_index_last(journals@, id, j - 1);
            }
            return Some(journals[j - 1].disk_path.clone());
        }
        j = j - 1;
    }
    proof {
        lemma_id_index_last(journals@, id, -1);
    }
    None
}

/// Whether `ids[i]` also occurs before index `i`.
/// The ids before index `i + 1`, as a set, grow by `ids[i]`.
proof fn lemma_take_to_set_push(ids: Seq<i64>, i: int)
    requires
        0 <= i < ids.len(),
    ensures
        ids.take(i + 1).to_set() == ids.take(i).to_set().insert(ids[i]),
{
    assert forall|x: i64|
        #![auto]
        ids.take(i + 1).to_set().contains(x) == ids.take(i).to_set().insert(ids[i]).contains(x) by {
        if ids.take(i + 1).contains(x) {
            let t = ids.take(i + 1);
            let q = choose|q: int| 0 <= q < t.len() && t[q] == x;
            if q < i {
                assert(ids.take(i)[q] == x);
            }
        }
        if ids.take(i).contains(x) {
            let t = ids.take(i);
            let q = choose|q: int| 0 <= q < t.len() && t[q] == x;
            assert(ids.take(i + 1)[q] == x);
        }
        if x == ids[i] {
            assert(ids.take(i + 1)[i] == x);
        }
    }
    assert(ids.take(i + 1).to_set() =~= ids.take(i).to_set().insert(ids[i]));
}

pub fn include_target_paths(root_file_id: i64, includes: &Vec<i64>, journals: &[JournalFileRef]) -> (r:
    Result<Vec<String>, AppError>)
    ensures
        match r {
            Ok(paths) => include_targets(root_file_id, includes@, journals@) == Ok::<
                Seq<Seq<char>>,
                ErrorView,
            >(texts(paths@)),
            Err(e) => include_targets(root_file_id, includes@, journals@) == Err::<
                Seq<Seq<char>>,
                ErrorView,
            >(e@),
        },
{
    let ghost ids = includes@;
    let ghost by_id = id_index(journals@);
    let ghost f = |i: int| include_issue(root_file_id, ids, i, by_id);
    broadcast use vstd::std_specs::hash::group_hash_axioms;

    let mut rendered: Vec<String> = Vec::new();
    let mut seen: HashSet<i64> = HashSet::new();
    assert(ids.take(0).to_set() =~= Set::<i64>::empty());
    let mut i: usize = 0;
    while i < includes.len()
        invariant
            0 <= i <= includes.len(),
            ids == includes@,
            seen@ == ids.take(i as int).to_set(),
            by_id == id_index(journals@),
            f == (|i: int| include_issue(root_file_id, ids, i, by_id)),
            check_each(i as nat, f) == Ok::<(), ErrorView>(()),
            texts(rendered@) == ids.take(i as int).map_values(|id: i64| by_id[id]),
        decreases includes.len() - i,
    {
        let id = includes[i];
        if id == root_file_id {
            proof {
                lemma_check_each_failure(f, (i + 1) as nat, ids.len());
            }
            return Err(AppError::BadRequest(String::from_str("journal cannot include itself")));
        }
        proof {
            lemma_take_to_set_push(ids, i as int);
        }
        if !seen.insert(id) {
            let mut msg = String::from_str("duplicate include target: ");
            push_signed(&mut msg, id);
            proof {
                lemma_check_each_failure(f, (i + 1) as nat, ids.len());
            }
            return Err(AppError::BadRequest(msg));
        }
        assert(!ids.take(i as int).contains(ids[i as int]));
        match path_of_id(journals, id) {
            None => {
                let mut msg = String::from_str("included journal ");
                push_signed(&mut msg, id);
                push_str(&mut msg, " not found");
                proof {
                    lemma_check_each_failure(f, (i + 1) as nat, ids.len());
                }
                return Err(AppError::BadRequest(msg));
            },
            Some(p) => {
                let ghost prev = rendered@;
                rendered.push(p);
                assert(texts(rendered@) =~= texts(prev).push(by_id[ids[i as int]]));
                assert(ids.take(i + 1).map_values(|id: i64| by_id[id]) =~= ids.take(
                    i as int,
                ).map_values(|id: i64| by_id[id]).push(by_id[ids[i as int]]));
            },
        }
        i = i + 1;
    }
    assert(ids.take(ids.len() as int) =~= ids);
    Ok(rendered)
}

// ---------------------------------------------------------------------------
// Writing settings into a journal
// ---------------------------------------------------------------------------

/// The new text of a journal whose header is set to `header`: a journal
/// with both markers gets its managed block replaced; any other journal is
/// read as unmanaged, and the header is put before its kept preamble and
/// body.  `None` when the transaction-start pattern is refused.
pub open spec fn journal_with_header(
    existing: Seq<char>,
    header: Seq<char>,
    idx: Map<Seq<char>, i64>,
) -> Option<Seq<char>> {
    if find_from(existing, HEADER_BEGIN@, 0) >= 0 && find_from(existing, HEADER_END@, 0) >= 0 {
        Some(replaced_header(existing, header))
    } else {
        match unmanaged_import(existing, idx) {
            None => None,
            Some(imp) => Some(header + imp.unsupported_preamble + imp.body),
        }
    }
}

fn contains_text(v: &Vec<char>, p: &str) -> (b: bool)
    ensures
        b == (find_from(v@, p@, 0) >= 0),
{
    let pv = chars_of(p);
    assert(v@.subrange(0, v@.len() as int) =~= v@);
    match find_chars(v, v.len(), &pv, 0) {
        Some(_) => true,
        None => false,
    }
}

/// Puts `header` into the journal text `existing`.
pub fn apply_managed_header(existing: &str, header: &str, journals_by_path: &JournalIndex) -> (r:
    Option<String>)
    ensures
        match r {
            Some(t) => journal_with_header(existing@, header@, journals_by_path@) == Some(t@),
            None => journal_with_header(existing@, header@, journals_by_path@) is None,
        },
{
    let v = chars_of(existing);
    if contains_text(&v, HEADER_BEGIN) && contains_text(&v, HEADER_END) {
        Some(replace_managed_header(existing, header))
    } else {
        match split_unmanaged_journal(existing, journals_by_path) {
            None => None,
            Some(imported) => Some(merge_unmanaged_content(header, imported)),
        }
    }
}

/// What is read from a journal's text: its managed header when it has a
/// complete one, otherwise its preamble.  `None` only when the
/// transaction-start pattern is refused.
pub open spec fn journal_import(text: Seq<char>, idx: Map<Seq<char>, i64>) -> Option<ImportedView> {
    match managed_import(text, idx) {
        Some(v) => Some(v),
        None => unmanaged_import(text, idx),
    }
}

/// Reads the settings of a journal from its text.
pub fn import_journal(text: &str, journals_by_path: &JournalIndex) -> (r: Option<ImportedJournal>)
    ensures
        match r {
            Some(imp) => journal_import(text@, journals_by_path@) == Some(imp@),
            None => journal_import(text@, journals_by_path@) is None,
        },
{
    match parse_managed_header(text, journals_by_path) {
        Some(imported) => Some(imported),
        None => split_unmanaged_journal(text, journals_by_path),
    }
}

} // verus!

verus! {

// ---------------------------------------------------------------------------
// Walking the include graph
// ---------------------------------------------------------------------------

/// A depth-first walk over the journals reachable through includes, looking
/// for a way back to the root journal.  Between steps the caller reads the
/// includes of the journal handed out and gives them to [`IncludeWalk::extend`].
pub struct IncludeWalk {
    root: i64,
    stack: Vec<i64>,
    visited: HashSet<i64>,
}

pub struct WalkView {
    pub root: i64,
    pub stack: Seq<i64>,
    pub visited: Set<i64>,
}

impl View for IncludeWalk {
    type V = WalkView;

    closed spec fn view(&self) -> WalkView {
        WalkView { root: self.root, stack: self.stack@, visited: self.visited@ }
    }
}

/// One step of the walk: pop journals until one not visited yet turns up
/// (it is handed out and marked visited), the root turns up (a cycle), or
/// nothing is left.
pub open spec fn walk_next(w: WalkView) -> (Result<Option<i64>, ErrorView>, WalkView)
    decreases w.stack.len(),
{
    if w.stack.len() == 0 {
        (Ok(None), w)
    } else {
        let curr = w.stack.last();
        let rest = WalkView { root: w.root, stack: w.stack.drop_last(), visited: w.visited };
        if curr == w.root {
            (Err(ErrorView::BadRequest("journal includes create a cycle"@)), rest)
        } else if w.visited.contains(curr) {
            walk_next(rest)
        } else {
            (
                Ok(Some(curr)),
                WalkView { root: w.root, stack: w.stack.drop_last(), visited: w.visited.insert(curr) },
            )
        }
    }
}

pub open spec fn step_view(r: Result<Option<i64>, AppError>) -> Result<Option<i64>, ErrorView> {
    match r {
        Ok(o) => Ok(o),
        Err(e) => Err(e@),
    }
}

impl IncludeWalk {
    /// Starts a walk from the journals that `root` includes.
    pub fn new(root: i64, includes: &Vec<i64>) -> (w: IncludeWalk)
        ensures
            w@ == (WalkView { root, stack: includes@, visited: Set::empty() }),
    {
        IncludeWalk { root, stack: includes.clone(), visited: HashSet::new() }
    }

    /// The next journal to read, `None` when the walk is over, or an error
    /// when the walk came back to the root.
    pub fn advance(&mut self) -> (r: Result<Option<i64>, AppError>)
        ensures
            (step_view(r), final(self)@) == walk_next(old(self)@),
        decreases old(self)@.stack.len(),
    {
        broadcast use vstd::std_specs::hash::group_hash_axioms;

        match self.stack.pop() {
            None => Ok(None),
            Some(curr) => {
                if curr == self.root {
                    return Err(
                        AppError::BadRequest(String::from_str("journal includes create a cycle")),
                    );
                }
                if self.visited.contains(&curr) {
                    self.advance()
                } else {
                    self.visited.insert(curr);
                    Ok(Some(curr))
                }
            },
        }
    }

    /// Adds the includes of the journal just handed out.
    pub fn extend(&mut self, next: &Vec<i64>)
        ensures
            final(self)@ == (WalkView {
                root: old(self)@.root,
                stack: old(self)@.stack + next@,
                visited: old(self)@.visited,
            }),
    {
        let mut i: usize = 0;
        while i < next.len()
            invariant
                0 <= i <= next.len(),
                self.root == old(self).root,
                self.visited@ == old(self).visited@,
                self.stack@ == old(self).stack@ + next@.take(i as int),
            decreases next.len() - i,
        {
            self.stack.push(next[i]);
            assert(self.stack@ =~= old(self).stack@ + next@.take(i + 1));
            i = i + 1;
        }
        assert(next@.take(next@.len() as int) =~= next@);
    }
}

} // verus!
