//! Laws of journal settings: what reading a written managed header gives
//! back, and how normalising settings and rendering the default commodity
//! behave when repeated.
use vstd::prelude::*;

use crate::journal_settings::{
    first_transaction_line, TRANSACTION_START_PATTERN, journal_import, journal_with_header, lemma_managed_block, replaced_header, unmanaged_import,
    clean, normalized, trimmed_opt, walk_next, WalkView, apply_line, classify, default_commodity_amount, directive_lines, empty_settings, header_text,
    import_lines, is_ascii_digit, is_ascii_alpha, managed_block, managed_import, split_lines,
    ImportedView, PreambleView, SettingsView, HEADER_BEGIN, HEADER_END,
};
use crate::error::ErrorView;
use crate::pattern::{regex_compile_error, regex_finds_match};
use crate::text::{
    concat_all, concat_range, find_char_from, find_from, is_ws, lemma_find_char_from, lemma_find_from,
    lemma_trim_fixed, lemma_trim_props, occurs_at, trim, trim_end, trim_start,
};

verus! {

// ---------------------------------------------------------------------------
// Lines of concatenated text
// ---------------------------------------------------------------------------

/// A text that is empty or ends with a line break.
pub open spec fn whole_lines(a: Seq<char>) -> bool {
    a.len() == 0 || a.last() == '\n'
}

proof fn lemma_find_char_prefix(a: Seq<char>, b: Seq<char>, c: char, i: int)
    requires
        0 <= i,
        find_char_from(a, c, i) >= 0,
    ensures
        find_char_from(a + b, c, i) == find_char_from(a, c, i),
    decreases a.len() - i,
{
    if i < a.len() && a[i] != c {
        lemma_find_char_prefix(a, b, c, i + 1);
    }
}

/// Splitting text made of whole lines and more text gives the lines of
/// each part.
pub proof fn lemma_split_lines_append(a: Seq<char>, b: Seq<char>)
    requires
        whole_lines(a),
    ensures
        split_lines(a + b) == split_lines(a) + split_lines(b),
    decreases a.len(),
{
    if a.len() == 0 {
        assert(a + b =~= b);
        assert(split_lines(a) =~= Seq::<Seq<char>>::empty());
        assert(split_lines(a) + split_lines(b) =~= split_lines(b));
    } else {
        lemma_find_char_from(a, '\n', 0);
        let k = find_char_from(a, '\n', 0);
        if k < 0 {
            assert(a[a.len() - 1] == '\n');
        }
        lemma_find_char_prefix(a, b, '\n', 0);
        let s = a + b;
        assert(s.take(k + 1) =~= a.take(k + 1));
        assert(s.skip(k + 1) =~= a.skip(k + 1) + b);
        let rest = a.skip(k + 1);
        if rest.len() > 0 {
            assert(rest.last() == a.last());
        }
        lemma_split_lines_append(rest, b);
        assert(split_lines(s) == seq![s.take(k + 1)] + split_lines(s.skip(k + 1)));
        assert(split_lines(a) == seq![a.take(k + 1)] + split_lines(a.skip(k + 1)));
        assert(split_lines(s) =~= split_lines(a) + split_lines(b));
    }
}

/// One line: a text without line breaks, then a line break.
pub open spec fn is_line(l: Seq<char>) -> bool {
    l.len() > 0 && l.last() == '\n' && !l.drop_last().contains('\n')
}

pub proof fn lemma_split_single_line(l: Seq<char>)
    requires
        is_line(l),
    ensures
        split_lines(l) == seq![l],
{
    lemma_find_char_from(l, '\n', 0);
    let k = find_char_from(l, '\n', 0);
    assert(l[l.len() - 1] == '\n');
    assert(k == l.len() - 1) by {
        if k < l.len() - 1 {
            assert(l.drop_last()[k] == '\n');
        }
    }
    assert(l.take(k + 1) =~= l);
    assert(l.skip(k + 1) =~= Seq::<char>::empty());
    assert(split_lines(l.skip(k + 1)) =~= Seq::<Seq<char>>::empty());
    assert(split_lines(l) =~= seq![l]);
}

/// Text made of lines, one after the other, splits into those lines.
pub proof fn lemma_split_concat_lines(n: nat, f: spec_fn(int) -> Seq<char>)
    requires
        forall|i: int| 0 <= i < n ==> #[trigger] is_line(f(i)),
    ensures
        split_lines(concat_range(n, f)) == Seq::new(n, f),
        whole_lines(concat_range(n, f)),
    decreases n,
{
    if n == 0 {
        assert(split_lines(Seq::<char>::empty()) =~= Seq::<Seq<char>>::empty());
        assert(Seq::new(0, f) =~= Seq::<Seq<char>>::empty());
    } else {
        lemma_split_concat_lines((n - 1) as nat, f);
        assert(is_line(f(n - 1)));
        lemma_split_lines_append(concat_range((n - 1) as nat, f), f(n - 1));
        lemma_split_single_line(f(n - 1));
        assert(Seq::new((n - 1) as nat, f).push(f(n - 1)) =~= Seq::new(n, f));
        let c = concat_range(n, f);
        assert(c == concat_range((n - 1) as nat, f) + f(n - 1));
        assert(c.last() == f(n - 1).last());
    }
}

// ---------------------------------------------------------------------------
// Reading lines one after the other
// ---------------------------------------------------------------------------

/// The settings and kept text after reading `ls` on top of `acc`.
pub open spec fn fold_lines(
    acc: (SettingsView, Seq<char>),
    ls: Seq<Seq<char>>,
    idx: Map<Seq<char>, i64>,
) -> (SettingsView, Seq<char>)
    decreases ls.len(),
{
    if ls.len() == 0 {
        acc
    } else {
        apply_line(fold_lines(acc, ls.drop_last(), idx), ls.last(), idx)
    }
}

pub proof fn lemma_import_is_fold(ls: Seq<Seq<char>>, idx: Map<Seq<char>, i64>)
    ensures
        import_lines(ls, idx) == fold_lines((empty_settings(), Seq::empty()), ls, idx),
    decreases ls.len(),
{
    if ls.len() > 0 {
        lemma_import_is_fold(ls.drop_last(), idx);
    }
}

pub proof fn lemma_fold_append(
    acc: (SettingsView, Seq<char>),
    xs: Seq<Seq<char>>,
    ys: Seq<Seq<char>>,
    idx: Map<Seq<char>, i64>,
)
    ensures
        fold_lines(acc, xs + ys, idx) == fold_lines(fold_lines(acc, xs, idx), ys, idx),
    decreases ys.len(),
{
    if ys.len() == 0 {
        assert(xs + ys =~= xs);
    } else {
        assert((xs + ys).drop_last() =~= xs + ys.drop_last());
        lemma_fold_append(acc, xs, ys.drop_last(), idx);
    }
}

// ---------------------------------------------------------------------------
// Classifying the lines of a managed header
// ---------------------------------------------------------------------------

/// A directive value that survives being written on a line of its own: not
/// empty, without whitespace at its ends, without line breaks.
pub open spec fn plain(v: Seq<char>) -> bool {
    v.len() > 0 && trim(v) == v && !v.contains('\n')
}

proof fn lemma_plain_ends(v: Seq<char>)
    requires
        plain(v),
    ensures
        !is_ws(v[0]),
        !is_ws(v.last()),
        trim_start(v) == v,
        trim_end(v) == v,
{
    lemma_trim_props(v);
    lemma_trim_fixed(v);
}

/// `p + v` on a line: trimming drops only the line break.
proof fn lemma_trim_line(p: Seq<char>, v: Seq<char>)
    requires
        p.len() > 0,
        !is_ws(p[0]),
        plain(v),
    ensures
        trim(p + v + "\n"@) == p + v,
{
    reveal_strlit("\n");
    lemma_plain_ends(v);
    let x = p + v;
    let l = x + "\n"@;
    assert(l[0] == p[0]);
    assert(trim_start(l) == l);
    assert(l.last() == '\n');
    assert(l.drop_last() =~= x);
    assert(x.last() == v.last());
    lemma_trim_fixed(x);
    assert(trim_end(l) == trim_end(x));
}

/// A text starting with another character does not start with `q`.
proof fn lemma_no_prefix(t: Seq<char>, q: Seq<char>)
    requires
        q.len() > 0,
        t.len() > 0,
        t[0] != q[0],
    ensures
        crate::journal_settings::after_prefix(t, q) is None,
{
    if q.len() <= t.len() && t.take(q.len() as int) == q {
        assert(t.take(q.len() as int)[0] == t[0]);
    }
}

/// `word + " " + v` starts with `word`, and the trimmed rest is `v`.
proof fn lemma_word_value(word: Seq<char>, v: Seq<char>)
    requires
        plain(v),
    ensures
        crate::journal_settings::after_prefix(word + " "@ + v, word) == Some(v),
{
    reveal_strlit(" ");
    let t = word + " "@ + v;
    assert(t.take(word.len() as int) =~= word);
    let r = t.skip(word.len() as int);
    assert(r =~= " "@ + v);
    lemma_plain_ends(v);
    assert(r[0] == ' ');
    assert(r.drop_first() =~= v);
    assert(trim_start(r) == trim_start(v));
}

pub proof fn lemma_classify_commodity(v: Seq<char>)
    requires
        plain(v),
    ensures
        classify("commodity "@ + v + "\n"@) == PreambleView::Commodity(v),
{
    reveal_strlit("commodity ");
    reveal_strlit("commodity");
    reveal_strlit("decimal-mark");
    reveal_strlit(" ");
    lemma_trim_line("commodity "@, v);
    let t = "commodity "@ + v;
    assert("commodity "@ =~= "commodity"@ + " "@);
    assert(t =~= "commodity"@ + " "@ + v);
    assert(t[0] == 'c');
    lemma_no_prefix(t, "decimal-mark"@);
    lemma_word_value("commodity"@, v);
}

pub proof fn lemma_classify_account(v: Seq<char>)
    requires
        plain(v),
    ensures
        classify("account "@ + v + "\n"@) == PreambleView::Account(v),
{
    reveal_strlit("account ");
    reveal_strlit("account");
    reveal_strlit("commodity");
    reveal_strlit("decimal-mark");
    reveal_strlit(" ");
    lemma_trim_line("account "@, v);
    let t = "account "@ + v;
    assert("account "@ =~= "account"@ + " "@);
    assert(t =~= "account"@ + " "@ + v);
    assert(t[0] == 'a');
    lemma_no_prefix(t, "decimal-mark"@);
    lemma_no_prefix(t, "commodity"@);
    lemma_word_value("account"@, v);
}

pub proof fn lemma_classify_include(v: Seq<char>)
    requires
        plain(v),
    ensures
        classify("include "@ + v + "\n"@) == PreambleView::Include(v, "include "@ + v + "\n"@),
{
    reveal_strlit("include ");
    reveal_strlit("include");
    reveal_strlit("account");
    reveal_strlit("commodity");
    reveal_strlit("decimal-mark");
    reveal_strlit(" ");
    lemma_trim_line("include "@, v);
    let t = "include "@ + v;
    assert("include "@ =~= "include"@ + " "@);
    assert(t =~= "include"@ + " "@ + v);
    assert(t[0] == 'i');
    lemma_no_prefix(t, "decimal-mark"@);
    lemma_no_prefix(t, "commodity"@);
    lemma_no_prefix(t, "account"@);
    lemma_word_value("include"@, v);
}

pub proof fn lemma_classify_decimal_mark(v: Seq<char>)
    requires
        plain(v),
    ensures
        classify("decimal-mark "@ + v + "\n"@) == PreambleView::DecimalMark(v),
{
    reveal_strlit("decimal-mark ");
    reveal_strlit("decimal-mark");
    reveal_strlit(" ");
    lemma_trim_line("decimal-mark "@, v);
    let t = "decimal-mark "@ + v;
    assert("decimal-mark "@ =~= "decimal-mark"@ + " "@);
    assert(t =~= "decimal-mark"@ + " "@ + v);
    assert(t[0] == 'd');
    lemma_word_value("decimal-mark"@, v);
}

pub proof fn lemma_classify_default_commodity(v: Seq<char>)
    requires
        plain(v),
    ensures
        classify("D "@ + v + "\n"@) == PreambleView::DefaultCommodity(v),
{
    reveal_strlit("D ");
    reveal_strlit("include");
    reveal_strlit("account");
    reveal_strlit("commodity");
    reveal_strlit("decimal-mark");
    lemma_trim_line("D "@, v);
    let t = "D "@ + v;
    assert(t[0] == 'D');
    lemma_no_prefix(t, "decimal-mark"@);
    lemma_no_prefix(t, "commodity"@);
    lemma_no_prefix(t, "account"@);
    lemma_no_prefix(t, "include"@);
    assert(t.take(2) =~= "D "@);
    assert(t.skip(2) =~= v);
}

pub proof fn lemma_classify_blank_line()
    ensures
        classify("\n"@) == PreambleView::Unsupported("\n"@),
{
    reveal_strlit("\n");
    let l = "\n"@;
    assert(is_ws(l[0]));
    assert(l.drop_first() =~= Seq::<char>::empty());
    assert(trim_start(l.drop_first()) == l.drop_first());
    assert(trim_start(l) == trim_start(l.drop_first()));
    assert(trim(l).len() == 0);
}

// ---------------------------------------------------------------------------
// Directive lines
// ---------------------------------------------------------------------------

/// Every value is plain.
pub open spec fn all_plain(s: Seq<Seq<char>>) -> bool {
    forall|i: int| 0 <= i < s.len() ==> plain(#[trigger] s[i])
}

/// The lines `prefix + s[i]`, one per value.
pub open spec fn directive_seq(prefix: Seq<char>, s: Seq<Seq<char>>) -> Seq<Seq<char>> {
    Seq::new(s.len(), |i: int| prefix + s[i] + "\n"@)
}

proof fn lemma_line_of(prefix: Seq<char>, v: Seq<char>)
    requires
        !prefix.contains('\n'),
        plain(v),
    ensures
        is_line(prefix + v + "\n"@),
{
    reveal_strlit("\n");
    let l = prefix + v + "\n"@;
    assert(l.drop_last() =~= prefix + v);
    if (prefix + v).contains('\n') {
        let j = choose|j: int| 0 <= j < (prefix + v).len() && (prefix + v)[j] == '\n';
        if j < prefix.len() {
            assert(prefix[j] == '\n');
        } else {
            assert(v[j - prefix.len()] == '\n');
        }
    }
}

pub proof fn lemma_split_directive_lines(prefix: Seq<char>, s: Seq<Seq<char>>)
    requires
        !prefix.contains('\n'),
        all_plain(s),
    ensures
        split_lines(directive_lines(prefix, s)) == directive_seq(prefix, s),
        whole_lines(directive_lines(prefix, s)),
{
    let f = |i: int| prefix + s[i] + "\n"@;
    assert forall|i: int| 0 <= i < s.len() implies #[trigger] is_line(f(i)) by {
        lemma_line_of(prefix, s[i]);
    }
    lemma_split_concat_lines(s.len(), f);
    assert(directive_lines(prefix, s) == concat_range(s.len(), f));
    assert(Seq::new(s.len(), f) =~= directive_seq(prefix, s));
}

/// Settings with `cs` added to the commodities.
pub open spec fn with_commodities(st: SettingsView, cs: Seq<Seq<char>>) -> SettingsView {
    SettingsView {
        default_commodity: st.default_commodity,
        decimal_mark: st.decimal_mark,
        commodities: st.commodities + cs,
        accounts: st.accounts,
        includes: st.includes,
    }
}

/// Settings with `a` added to the accounts.
pub open spec fn with_accounts(st: SettingsView, a: Seq<Seq<char>>) -> SettingsView {
    SettingsView {
        default_commodity: st.default_commodity,
        decimal_mark: st.decimal_mark,
        commodities: st.commodities,
        accounts: st.accounts + a,
        includes: st.includes,
    }
}

/// Settings with `ids` added to the includes.
pub open spec fn with_includes(st: SettingsView, ids: Seq<i64>) -> SettingsView {
    SettingsView {
        default_commodity: st.default_commodity,
        decimal_mark: st.decimal_mark,
        commodities: st.commodities,
        accounts: st.accounts,
        includes: st.includes + ids,
    }
}

pub proof fn lemma_fold_commodities(
    acc: (SettingsView, Seq<char>),
    cs: Seq<Seq<char>>,
    idx: Map<Seq<char>, i64>,
)
    requires
        all_plain(cs),
    ensures
        fold_lines(acc, directive_seq("commodity "@, cs), idx) == (with_commodities(acc.0, cs), acc.1),
    decreases cs.len(),
{
    let ls = directive_seq("commodity "@, cs);
    if cs.len() == 0 {
        assert(acc.0.commodities + cs =~= acc.0.commodities);
    } else {
        let init = cs.drop_last();
        assert(ls.drop_last() =~= directive_seq("commodity "@, init));
        lemma_fold_commodities(acc, init, idx);
        assert(plain(cs.last()));
        lemma_classify_commodity(cs.last());
        assert(ls.last() == "commodity "@ + cs.last() + "\n"@);
        assert((acc.0.commodities + init).push(cs.last()) =~= acc.0.commodities + cs);
    }
}

pub proof fn lemma_fold_accounts(
    acc: (SettingsView, Seq<char>),
    a: Seq<Seq<char>>,
    idx: Map<Seq<char>, i64>,
)
    requires
        all_plain(a),
    ensures
        fold_lines(acc, directive_seq("account "@, a), idx) == (with_accounts(acc.0, a), acc.1),
    decreases a.len(),
{
    let ls = directive_seq("account "@, a);
    if a.len() == 0 {
        assert(acc.0.accounts + a =~= acc.0.accounts);
    } else {
        let init = a.drop_last();
        assert(ls.drop_last() =~= directive_seq("account "@, init));
        lemma_fold_accounts(acc, init, idx);
        assert(plain(a.last()));
        lemma_classify_account(a.last());
        assert(ls.last() == "account "@ + a.last() + "\n"@);
        assert((acc.0.accounts + init).push(a.last()) =~= acc.0.accounts + a);
    }
}

/// The ids of the journals stored at `paths`.
pub open spec fn ids_at(paths: Seq<Seq<char>>, idx: Map<Seq<char>, i64>) -> Seq<i64> {
    Seq::new(paths.len(), |i: int| idx[paths[i]])
}

pub proof fn lemma_fold_includes(
    acc: (SettingsView, Seq<char>),
    ps: Seq<Seq<char>>,
    idx: Map<Seq<char>, i64>,
)
    requires
        all_plain(ps),
        forall|i: int| 0 <= i < ps.len() ==> idx.contains_key(#[trigger] ps[i]),
    ensures
        fold_lines(acc, directive_seq("include "@, ps), idx) == (
            with_includes(acc.0, ids_at(ps, idx)),
            acc.1,
        ),
    decreases ps.len(),
{
    let ls = directive_seq("include "@, ps);
    if ps.len() == 0 {
        assert(acc.0.includes + ids_at(ps, idx) =~= acc.0.includes);
    } else {
        let init = ps.drop_last();
        assert(ls.drop_last() =~= directive_seq("include "@, init));
        lemma_fold_includes(acc, init, idx);
        assert(plain(ps.last()));
        assert(idx.contains_key(ps[ps.len() - 1]));
        lemma_classify_include(ps.last());
        assert(ls.last() == "include "@ + ps.last() + "\n"@);
        assert((acc.0.includes + ids_at(init, idx)).push(idx[ps.last()]) =~= acc.0.includes
            + ids_at(ps, idx));
    }
}

// ---------------------------------------------------------------------------
// The default commodity amount
// ---------------------------------------------------------------------------

proof fn lemma_no_newline_concat(a: Seq<char>, b: Seq<char>)
    requires
        !a.contains('\n'),
        !b.contains('\n'),
    ensures
        !(a + b).contains('\n'),
{
    if (a + b).contains('\n') {
        let j = choose|j: int| 0 <= j < (a + b).len() && (a + b)[j] == '\n';
        if j < a.len() {
            assert(a[j] == '\n');
        } else {
            assert(b[j - a.len()] == '\n');
        }
    }
}

/// The rendered amount of a default commodity is non-empty, trimmed, holds a
/// digit, and has no line break when the commodity has none.
pub proof fn lemma_amount_facts(d: Seq<char>, m: Option<Seq<char>>)
    ensures
        default_commodity_amount(d, m).len() > 0,
        trim(default_commodity_amount(d, m)) == default_commodity_amount(d, m),
        exists|i: int|
            0 <= i < default_commodity_amount(d, m).len() && is_ascii_digit(
                #[trigger] default_commodity_amount(d, m)[i],
            ),
        !d.contains('\n') ==> !default_commodity_amount(d, m).contains('\n'),
{
    reveal_strlit("1,00");
    reveal_strlit("1.00");
    reveal_strlit(" ");
    let v = trim(d);
    lemma_trim_props(d);
    let amt = default_commodity_amount(d, m);
    assert(!d.contains('\n') ==> !v.contains('\n')) by {
        crate::text::lemma_trim_is_subrange(d);
        let (a, b) = choose|a: int, b: int|
            0 <= a <= b <= d.len() && #[trigger] d.subrange(a, b) == trim(d);
        if !d.contains('\n') && v.contains('\n') {
            let j = choose|j: int| 0 <= j < v.len() && v[j] == '\n';
            assert(d[a + j] == v[j]);
        }
    }
    if exists|i: int| 0 <= i < v.len() && is_ascii_digit(v[i]) {
        assert(amt == v);
        lemma_trim_fixed(v);
    } else {
        let sample = if m == Some(","@) {
            "1,00"@
        } else {
            "1.00"@
        };
        assert(!sample.contains('\n')) by {
            if sample.contains('\n') {
                let j = choose|j: int| 0 <= j < sample.len() && sample[j] == '\n';
            }
        }
        assert(!" "@.contains('\n')) by {
            if " "@.contains('\n') {
                let j = choose|j: int| 0 <= j < " "@.len() && " "@[j] == '\n';
            }
        }
        if v.len() > 0 && is_ascii_alpha(v[0]) {
            assert(amt == sample + " "@ + v);
            assert(amt[0] == '1');
            assert(is_ascii_digit(amt[0]));
            assert(amt.last() == v.last());
            lemma_trim_fixed(amt);
            if !d.contains('\n') {
                lemma_no_newline_concat(sample, " "@);
                lemma_no_newline_concat(sample + " "@, v);
            }
        } else {
            assert(amt == v + sample);
            assert(amt[v.len() as int] == '1');
            assert(is_ascii_digit(amt[v.len() as int]));
            assert(amt.last() == '0');
            if v.len() > 0 {
                assert(amt[0] == v[0]);
            }
            lemma_trim_fixed(amt);
            if !d.contains('\n') {
                lemma_no_newline_concat(v, sample);
            }
        }
    }
}

/// The rendered amount of a default commodity renders to itself, whatever
/// the decimal mark: writing back what was read changes nothing.
pub proof fn lemma_amount_stable(d: Seq<char>, m: Option<Seq<char>>, m2: Option<Seq<char>>)
    ensures
        default_commodity_amount(default_commodity_amount(d, m), m2) == default_commodity_amount(
            d,
            m,
        ),
{
    lemma_amount_facts(d, m);
}

// ---------------------------------------------------------------------------
// Reading back a written header
// ---------------------------------------------------------------------------

/// The `D` line of a header, if any.
pub open spec fn default_part(s: SettingsView) -> Seq<char> {
    match s.default_commodity {
        Some(d) => "D "@ + default_commodity_amount(d, s.decimal_mark) + "\n"@,
        None => Seq::empty(),
    }
}

/// The `decimal-mark` line of a header, if any.
pub open spec fn mark_part(s: SettingsView) -> Seq<char> {
    match s.decimal_mark {
        Some(m) => "decimal-mark "@ + m + "\n"@,
        None => Seq::empty(),
    }
}

/// What a header holds between its two markers.
pub open spec fn header_region(s: SettingsView, include_paths: Seq<Seq<char>>) -> Seq<char> {
    "\n"@ + default_part(s) + mark_part(s) + directive_lines("commodity "@, s.commodities)
        + directive_lines("account "@, s.accounts) + directive_lines("include "@, include_paths)
}

/// The settings read back from a written header: the same, except that the
/// default commodity comes back as the amount its `D` line carries.
pub open spec fn read_back(s: SettingsView) -> SettingsView {
    SettingsView {
        default_commodity: match s.default_commodity {
            Some(d) => Some(default_commodity_amount(d, s.decimal_mark)),
            None => None,
        },
        decimal_mark: s.decimal_mark,
        commodities: s.commodities,
        accounts: s.accounts,
        includes: s.includes,
    }
}

/// Settings that a header can carry line by line: values without line
/// breaks or surrounding whitespace that do not hold the end marker, and
/// the include paths those of the included journals.
pub open spec fn writable(
    s: SettingsView,
    include_paths: Seq<Seq<char>>,
    idx: Map<Seq<char>, i64>,
) -> bool {
    &&& (s.default_commodity matches Some(d) ==> !d.contains('\n') && marker_free(d))
    &&& (s.decimal_mark matches Some(m) ==> plain(m) && marker_free(m))
    &&& all_plain(s.commodities) && all_marker_free(s.commodities)
    &&& all_plain(s.accounts) && all_marker_free(s.accounts)
    &&& all_plain(include_paths) && all_marker_free(include_paths)
    &&& include_paths.len() == s.includes.len()
    &&& forall|i: int|
        0 <= i < include_paths.len() ==> idx.contains_key(#[trigger] include_paths[i])
            && idx[include_paths[i]] == s.includes[i]
}

proof fn lemma_whole_lines_concat(a: Seq<char>, b: Seq<char>)
    requires
        whole_lines(a),
        whole_lines(b),
    ensures
        whole_lines(a + b),
{
    if b.len() > 0 {
        assert((a + b).last() == b.last());
    } else {
        assert(a + b =~= a);
    }
}

proof fn lemma_no_newline_words()
    ensures
        !"commodity "@.contains('\n'),
        !"account "@.contains('\n'),
        !"include "@.contains('\n'),
{
    reveal_strlit("commodity ");
    reveal_strlit("account ");
    reveal_strlit("include ");
    if "commodity "@.contains('\n') {
        let j = choose|j: int| 0 <= j < "commodity "@.len() && "commodity "@[j] == '\n';
    }
    if "account "@.contains('\n') {
        let j = choose|j: int| 0 <= j < "account "@.len() && "account "@[j] == '\n';
    }
    if "include "@.contains('\n') {
        let j = choose|j: int| 0 <= j < "include "@.len() && "include "@[j] == '\n';
    }
}

/// The settings read from the region of a written header.
pub proof fn lemma_region_reads_back(
    s: SettingsView,
    include_paths: Seq<Seq<char>>,
    idx: Map<Seq<char>, i64>,
)
    requires
        writable(s, include_paths, idx),
    ensures
        import_lines(split_lines(header_region(s, include_paths)), idx) == (read_back(s), "\n"@),
{
    reveal_strlit("\n");
    lemma_no_newline_words();
    let nl = "\n"@;
    let d = default_part(s);
    let m = mark_part(s);
    let c = directive_lines("commodity "@, s.commodities);
    let a = directive_lines("account "@, s.accounts);
    let i = directive_lines("include "@, include_paths);
    // The lines of each part.
    assert(is_line(nl)) by {
        assert(nl.drop_last() =~= Seq::<char>::empty());
    }
    lemma_split_single_line(nl);
    let ld = match s.default_commodity {
        Some(dc) => seq![d],
        None => Seq::<Seq<char>>::empty(),
    };
    let lm = match s.decimal_mark {
        Some(mk) => seq![m],
        None => Seq::<Seq<char>>::empty(),
    };
    match s.default_commodity {
        Some(dc) => {
            lemma_amount_facts(dc, s.decimal_mark);
            reveal_strlit("D ");
            assert(!"D "@.contains('\n')) by {
                if "D "@.contains('\n') {
                    let j = choose|j: int| 0 <= j < "D "@.len() && "D "@[j] == '\n';
                }
            }
            lemma_line_of("D "@, default_commodity_amount(dc, s.decimal_mark));
            lemma_split_single_line(d);
        },
        None => {
            assert(split_lines(d) =~= Seq::<Seq<char>>::empty());
        },
    }
    match s.decimal_mark {
        Some(mk) => {
            reveal_strlit("decimal-mark ");
            assert(!"decimal-mark "@.contains('\n')) by {
                if "decimal-mark "@.contains('\n') {
                    let j = choose|j: int|
                        0 <= j < "decimal-mark "@.len() && "decimal-mark "@[j] == '\n';
                }
            }
            lemma_line_of("decimal-mark "@, mk);
            lemma_split_single_line(m);
        },
        None => {
            assert(split_lines(m) =~= Seq::<Seq<char>>::empty());
        },
    }
    lemma_split_directive_lines("commodity "@, s.commodities);
    lemma_split_directive_lines("account "@, s.accounts);
    lemma_split_directive_lines("include "@, include_paths);
    assert(whole_lines(nl));
    assert(whole_lines(d));
    assert(whole_lines(m));
    // Splitting the region part by part.
    lemma_split_lines_append(nl, d);
    lemma_whole_lines_concat(nl, d);
    lemma_split_lines_append(nl + d, m);
    lemma_whole_lines_concat(nl + d, m);
    lemma_split_lines_append(nl + d + m, c);
    lemma_whole_lines_concat(nl + d + m, c);
    lemma_split_lines_append(nl + d + m + c, a);
    lemma_whole_lines_concat(nl + d + m + c, a);
    lemma_split_lines_append(nl + d + m + c + a, i);
    let lc = directive_seq("commodity "@, s.commodities);
    let la = directive_seq("account "@, s.accounts);
    let li = directive_seq("include "@, include_paths);
    assert(split_lines(header_region(s, include_paths)) == seq![nl] + ld + lm + lc + la + li);
    // Reading the lines group by group.
    let acc0 = (empty_settings(), Seq::<char>::empty());
    lemma_import_is_fold(seq![nl] + ld + lm + lc + la + li, idx);
    lemma_fold_append(acc0, seq![nl] + ld + lm + lc + la, li, idx);
    lemma_fold_append(acc0, seq![nl] + ld + lm + lc, la, idx);
    lemma_fold_append(acc0, seq![nl] + ld + lm, lc, idx);
    lemma_fold_append(acc0, seq![nl] + ld, lm, idx);
    lemma_fold_append(acc0, seq![nl], ld, idx);
    lemma_classify_blank_line();
    assert(seq![nl].drop_last() =~= Seq::<Seq<char>>::empty());
    let acc1 = fold_lines(acc0, seq![nl], idx);
    assert(acc1 == (empty_settings(), nl)) by {
        assert(fold_lines(acc0, Seq::<Seq<char>>::empty(), idx) == acc0);
        assert(fold_lines(acc0, seq![nl], idx) == apply_line(
            fold_lines(acc0, seq![nl].drop_last(), idx),
            nl,
            idx,
        ));
        assert(apply_line(acc0, nl, idx) == (empty_settings(), Seq::<char>::empty() + nl));
        assert(Seq::<char>::empty() + nl =~= nl);
    }
    let acc2 = fold_lines(acc1, ld, idx);
    let st2 = SettingsView {
        default_commodity: read_back(s).default_commodity,
        decimal_mark: None,
        commodities: Seq::empty(),
        accounts: Seq::empty(),
        includes: Seq::empty(),
    };
    assert(acc2 == (st2, nl)) by {
        match s.default_commodity {
            Some(dc) => {
                lemma_amount_facts(dc, s.decimal_mark);
                lemma_classify_default_commodity(default_commodity_amount(dc, s.decimal_mark));
                assert(ld.drop_last() =~= Seq::<Seq<char>>::empty());
                assert(fold_lines(acc1, Seq::<Seq<char>>::empty(), idx) == acc1);
                assert(fold_lines(acc1, ld, idx) == apply_line(acc1, d, idx));
            },
            None => {
                assert(ld =~= Seq::<Seq<char>>::empty());
            },
        }
    }
    let acc3 = fold_lines(acc2, lm, idx);
    let st3 = SettingsView {
        default_commodity: read_back(s).default_commodity,
        decimal_mark: s.decimal_mark,
        commodities: Seq::empty(),
        accounts: Seq::empty(),
        includes: Seq::empty(),
    };
    assert(acc3 == (st3, nl)) by {
        match s.decimal_mark {
            Some(mk) => {
                lemma_classify_decimal_mark(mk);
                assert(lm.drop_last() =~= Seq::<Seq<char>>::empty());
                assert(fold_lines(acc2, Seq::<Seq<char>>::empty(), idx) == acc2);
                assert(fold_lines(acc2, lm, idx) == apply_line(acc2, m, idx));
            },
            None => {
                assert(lm =~= Seq::<Seq<char>>::empty());
            },
        }
    }
    lemma_fold_commodities(acc3, s.commodities, idx);
    let acc4 = fold_lines(acc3, lc, idx);
    lemma_fold_accounts(acc4, s.accounts, idx);
    let acc5 = fold_lines(acc4, la, idx);
    lemma_fold_includes(acc5, include_paths, idx);
    let acc6 = fold_lines(acc5, li, idx);
    assert(ids_at(include_paths, idx) =~= s.includes);
    assert(acc6.0.commodities =~= s.commodities);
    assert(acc6.0.accounts =~= s.accounts);
    assert(acc6.0.includes =~= s.includes);
    assert(acc6 == (read_back(s), nl));
}

proof fn lemma_find_from_first(s: Seq<char>, p: Seq<char>, i: int, k: int)
    requires
        0 <= i <= k,
        occurs_at(s, p, k),
        forall|j: int| i <= j < k ==> !occurs_at(s, p, j),
    ensures
        find_from(s, p, i) == k,
    decreases k - i,
{
    if i < k {
        lemma_find_from_first(s, p, i + 1, k);
    }
}

proof fn lemma_find_char_first(s: Seq<char>, c: char, i: int, k: int)
    requires
        0 <= i <= k < s.len(),
        s[k] == c,
        forall|j: int| i <= j < k ==> s[j] != c,
    ensures
        find_char_from(s, c, i) == k,
    decreases k - i,
{
    if i < k {
        lemma_find_char_first(s, c, i + 1, k);
    }
}

// ---------------------------------------------------------------------------
// Normalising settings
// ---------------------------------------------------------------------------

proof fn lemma_clean_idempotent(s: Seq<Seq<char>>)
    ensures
        clean(clean(s)) == clean(s),
    decreases s.len(),
{
    if s.len() > 0 {
        lemma_clean_idempotent(s.drop_last());
        let c = clean(s.drop_last());
        if trim(s.last()).len() > 0 {
            let v = trim(s.last());
            lemma_trim_props(s.last());
            assert(c.push(v).drop_last() =~= c);
            assert(c.push(v).last() == v);
        }
    }
}

proof fn lemma_clean_values(s: Seq<Seq<char>>)
    ensures
        forall|i: int|
            0 <= i < clean(s).len() ==> (#[trigger] clean(s)[i]).len() > 0 && trim(clean(s)[i])
                == clean(s)[i],
    decreases s.len(),
{
    if s.len() > 0 {
        lemma_clean_values(s.drop_last());
        lemma_trim_props(s.last());
        let c = clean(s.drop_last());
        if trim(s.last()).len() > 0 {
            assert forall|i: int|
                0 <= i < clean(s).len() implies (#[trigger] clean(s)[i]).len() > 0 && trim(
                clean(s)[i],
            ) == clean(s)[i] by {
                if i < c.len() {
                    assert(clean(s)[i] == c[i]);
                }
            }
        }
    }
}

/// Normalising settings a second time changes nothing, and normalised
/// settings hold only trimmed, non-empty texts.
pub proof fn lemma_normalize_settings_idempotent(s: SettingsView)
    ensures
        normalized(normalized(s)) == normalized(s),
        normalized(s).default_commodity matches Some(d) ==> d.len() > 0 && trim(d) == d,
        normalized(s).decimal_mark matches Some(m) ==> m.len() > 0 && trim(m) == m,
        forall|i: int|
            0 <= i < normalized(s).commodities.len() ==> (#[trigger] normalized(s).commodities[i]).len()
                > 0 && trim(normalized(s).commodities[i]) == normalized(s).commodities[i],
        forall|i: int|
            0 <= i < normalized(s).accounts.len() ==> (#[trigger] normalized(s).accounts[i]).len()
                > 0 && trim(normalized(s).accounts[i]) == normalized(s).accounts[i],
{
    lemma_clean_values(s.commodities);
    lemma_clean_values(s.accounts);
    lemma_clean_idempotent(s.commodities);
    lemma_clean_idempotent(s.accounts);
    match s.default_commodity {
        Some(d) => {
            lemma_trim_props(d);
        },
        None => {},
    }
    match s.decimal_mark {
        Some(m) => {
            lemma_trim_props(m);
        },
        None => {},
    }
}

// ---------------------------------------------------------------------------
// Lines
// ---------------------------------------------------------------------------

proof fn lemma_concat_all_push(s: Seq<Seq<char>>, x: Seq<char>)
    ensures
        concat_all(s.push(x)) == concat_all(s) + x,
{
    let f = |i: int| s.push(x)[i];
    let g = |i: int| s[i];
    assert forall|i: int| #![trigger f(i)] 0 <= i < s.len() implies f(i) == g(i) by {
        assert(s.push(x)[i] == s[i]);
    }
    lemma_concat_range_agree(s.len(), f, g);
    assert(concat_all(s.push(x)) == concat_range(s.len() + 1, f));
    assert(concat_range(s.len() + 1, f) == concat_range(s.len(), f) + f(s.len() as int));
    assert(concat_all(s) == concat_range(s.len(), g));
}

proof fn lemma_concat_range_agree(n: nat, f: spec_fn(int) -> Seq<char>, g: spec_fn(int) -> Seq<char>)
    requires
        forall|i: int| #![trigger f(i)] 0 <= i < n ==> f(i) == g(i),
    ensures
        concat_range(n, f) == concat_range(n, g),
    decreases n,
{
    if n > 0 {
        lemma_concat_range_agree((n - 1) as nat, f, g);
    }
}

proof fn lemma_concat_all_prepend(x: Seq<char>, s: Seq<Seq<char>>)
    ensures
        concat_all(seq![x] + s) == x + concat_all(s),
    decreases s.len(),
{
    if s.len() == 0 {
        assert(seq![x] + s =~= seq![x]);
        assert(concat_all(seq![x]) == concat_all(Seq::<Seq<char>>::empty().push(x)));
        lemma_concat_all_push(Seq::<Seq<char>>::empty(), x);
        assert(concat_all(Seq::<Seq<char>>::empty()) =~= Seq::<char>::empty());
        assert(x + concat_all(s) =~= x);
        assert(Seq::<char>::empty() + x =~= x);
    } else {
        let init = s.drop_last();
        lemma_concat_all_prepend(x, init);
        assert(seq![x] + s =~= (seq![x] + init).push(s.last()));
        lemma_concat_all_push(seq![x] + init, s.last());
        assert(s =~= init.push(s.last()));
        lemma_concat_all_push(init, s.last());
        assert(x + concat_all(init) + s.last() =~= x + (concat_all(init) + s.last()));
    }
}

/// The lines of a text, put back together, are the text.
pub proof fn lemma_lines_rejoin(s: Seq<char>)
    ensures
        concat_all(split_lines(s)) == s,
    decreases s.len(),
{
    if s.len() == 0 {
        assert(concat_all(split_lines(s)) =~= s);
    } else {
        lemma_find_char_from(s, '\n', 0);
        let k = find_char_from(s, '\n', 0);
        if k < 0 {
            assert(split_lines(s) == seq![s]);
            lemma_concat_all_prepend(s, Seq::empty());
            assert(seq![s] + Seq::<Seq<char>>::empty() =~= seq![s]);
            assert(concat_all(Seq::<Seq<char>>::empty()) =~= Seq::<char>::empty());
            assert(s + Seq::<char>::empty() =~= s);
        } else {
            lemma_lines_rejoin(s.skip(k + 1));
            lemma_concat_all_prepend(s.take(k + 1), split_lines(s.skip(k + 1)));
            assert(s.take(k + 1) + s.skip(k + 1) =~= s);
        }
    }
}

// ---------------------------------------------------------------------------
// Walking includes
// ---------------------------------------------------------------------------

/// A step of the include walk hands out a journal at most once and never
/// the root: what it hands out was not visited, is not the root, and is
/// visited afterwards; a cycle is reported only when the root turns up; the
/// stack only shrinks.
pub proof fn lemma_walk_step(w: WalkView)
    ensures
        walk_next(w).0 matches Ok(Some(j)) ==> j != w.root && !w.visited.contains(j)
            && walk_next(w).1.visited == w.visited.insert(j),
        walk_next(w).0 matches Ok(None) ==> walk_next(w).1.visited == w.visited,
        walk_next(w).0 is Err ==> w.stack.contains(w.root) && walk_next(w).0 == Err::<
            Option<i64>,
            ErrorView,
        >(ErrorView::BadRequest("journal includes create a cycle"@)),
        walk_next(w).1.stack.len() < w.stack.len() || w.stack.len() == 0,
        walk_next(w).1.root == w.root,
    decreases w.stack.len(),
{
    if w.stack.len() > 0 {
        let curr = w.stack.last();
        let rest = WalkView { root: w.root, stack: w.stack.drop_last(), visited: w.visited };
        if curr == w.root {
            assert(w.stack[w.stack.len() - 1] == curr);
        } else if w.visited.contains(curr) {
            lemma_walk_step(rest);
            if walk_next(rest).0 is Err {
                let q = choose|q: int| 0 <= q < rest.stack.len() && rest.stack[q] == w.root;
                assert(w.stack[q] == w.root);
            }
        }
    }
}

// ---------------------------------------------------------------------------
// Where the end marker can occur
// ---------------------------------------------------------------------------

/// The end marker does not occur in `v`.
pub open spec fn marker_free(v: Seq<char>) -> bool {
    forall|i: int| !occurs_at(v, HEADER_END@, i)
}

proof fn lemma_marker_facts()
    ensures
        HEADER_END@.len() > 2,
        HEADER_END@[0] == ';',
        HEADER_END@.last() == 'r',
        HEADER_END@[2] == 'E',
        !HEADER_END@.contains('\n'),
        HEADER_BEGIN@.len() > 2,
        HEADER_BEGIN@[0] == ';',
        HEADER_BEGIN@[2] == 'B',
        forall|k: int| 0 < k < HEADER_BEGIN@.len() ==> HEADER_BEGIN@[k] != ';',
{
    reveal_strlit("; BEGIN BudgetTool managed header");
    reveal_strlit("; END BudgetTool managed header");
    if HEADER_END@.contains('\n') {
        let j = choose|j: int| 0 <= j < HEADER_END@.len() && HEADER_END@[j] == '\n';
    }
}

/// An occurrence of the marker that covers position `k` of `s` puts a
/// marker character there.
proof fn lemma_occurrence_char(s: Seq<char>, i: int, k: int)
    requires
        occurs_at(s, HEADER_END@, i),
        i <= k < i + HEADER_END@.len(),
    ensures
        s[k] == HEADER_END@[k - i],
{
    assert(s.subrange(i, i + HEADER_END@.len())[k - i] == s[k]);
}

proof fn lemma_marker_free_concat(a: Seq<char>, b: Seq<char>)
    requires
        whole_lines(a),
        marker_free(a),
        marker_free(b),
    ensures
        marker_free(a + b),
{
    lemma_marker_facts();
    let e = HEADER_END@;
    assert forall|i: int| !occurs_at(a + b, e, i) by {
        if occurs_at(a + b, e, i) {
            if i + e.len() <= a.len() {
                assert((a + b).subrange(i, i + e.len()) =~= a.subrange(i, i + e.len()));
                assert(occurs_at(a, e, i));
            } else if i >= a.len() {
                assert((a + b).subrange(i, i + e.len()) =~= b.subrange(
                    i - a.len(),
                    i - a.len() + e.len(),
                ));
                assert(occurs_at(b, e, i - a.len()));
            } else {
                lemma_occurrence_char(a + b, i, a.len() - 1);
                assert((a + b)[a.len() - 1] == '\n');
                assert(e.contains('\n'));
            }
        }
    }
}

/// A line `p + v`, where `p` has no `;` and `v` holds no marker, holds no
/// marker.
proof fn lemma_marker_free_line(p: Seq<char>, v: Seq<char>)
    requires
        !p.contains(';'),
        marker_free(v),
    ensures
        marker_free(p + v + "\n"@),
{
    reveal_strlit("\n");
    lemma_marker_facts();
    let e = HEADER_END@;
    let l = p + v + "\n"@;
    assert forall|i: int| !occurs_at(l, e, i) by {
        if occurs_at(l, e, i) {
            lemma_occurrence_char(l, i, i);
            if i < p.len() {
                assert(l[i] == p[i]);
                assert(p.contains(';'));
            } else if i + e.len() <= p.len() + v.len() {
                assert(l.subrange(i, i + e.len()) =~= v.subrange(
                    i - p.len(),
                    i - p.len() + e.len(),
                ));
                assert(occurs_at(v, e, i - p.len()));
            } else {
                lemma_occurrence_char(l, i, l.len() - 1);
                assert(l[l.len() - 1] == '\n');
                assert(e.contains('\n'));
            }
        }
    }
}

pub open spec fn all_marker_free(s: Seq<Seq<char>>) -> bool {
    forall|i: int| 0 <= i < s.len() ==> marker_free(#[trigger] s[i])
}

proof fn lemma_directive_lines_push(prefix: Seq<char>, s: Seq<Seq<char>>)
    requires
        s.len() > 0,
    ensures
        directive_lines(prefix, s) == directive_lines(prefix, s.drop_last()) + (prefix + s.last()
            + "\n"@),
{
    let f = |i: int| prefix + s[i] + "\n"@;
    let g = |i: int| prefix + s.drop_last()[i] + "\n"@;
    assert forall|i: int| #![trigger f(i)] 0 <= i < s.len() - 1 implies f(i) == g(i) by {
        assert(s.drop_last()[i] == s[i]);
    }
    lemma_concat_range_agree((s.len() - 1) as nat, f, g);
    assert(directive_lines(prefix, s) == concat_range(s.len(), f));
    assert(directive_lines(prefix, s.drop_last()) == concat_range((s.len() - 1) as nat, g));
}

proof fn lemma_marker_free_directives(prefix: Seq<char>, s: Seq<Seq<char>>)
    requires
        !prefix.contains(';'),
        !prefix.contains('\n'),
        all_plain(s),
        all_marker_free(s),
    ensures
        marker_free(directive_lines(prefix, s)),
    decreases s.len(),
{
    lemma_marker_facts();
    if s.len() == 0 {
        assert(directive_lines(prefix, s) =~= Seq::<char>::empty());
        assert forall|i: int| !occurs_at(directive_lines(prefix, s), HEADER_END@, i) by {}
    } else {
        let init = s.drop_last();
        assert forall|i: int| 0 <= i < init.len() implies plain(#[trigger] init[i]) && marker_free(
            init[i],
        ) by {
            assert(init[i] == s[i]);
        }
        lemma_marker_free_directives(prefix, init);
        lemma_split_directive_lines(prefix, init);
        lemma_directive_lines_push(prefix, s);
        assert(marker_free(s[s.len() - 1]));
        lemma_marker_free_line(prefix, s.last());
        lemma_marker_free_concat(directive_lines(prefix, init), prefix + s.last() + "\n"@);
    }
}

proof fn lemma_amount_marker_free(d: Seq<char>, m: Option<Seq<char>>)
    requires
        marker_free(d),
    ensures
        marker_free(default_commodity_amount(d, m)),
{
    reveal_strlit("1,00");
    reveal_strlit("1.00");
    reveal_strlit(" ");
    lemma_marker_facts();
    let e = HEADER_END@;
    let v = trim(d);
    crate::text::lemma_trim_is_subrange(d);
    let (a, b) = choose|a: int, b: int|
        0 <= a <= b <= d.len() && #[trigger] d.subrange(a, b) == trim(d);
    assert(marker_free(v)) by {
        assert forall|i: int| !occurs_at(v, e, i) by {
            if occurs_at(v, e, i) {
                assert(d.subrange(a + i, a + i + e.len()) =~= v.subrange(i, i + e.len()));
                assert(occurs_at(d, e, a + i));
            }
        }
    }
    let amt = default_commodity_amount(d, m);
    if !(exists|i: int| 0 <= i < v.len() && is_ascii_digit(v[i])) {
        let sample = if m == Some(","@) {
            "1,00"@
        } else {
            "1.00"@
        };
        if v.len() > 0 && is_ascii_alpha(v[0]) {
            let pre = sample + " "@;
            assert(amt =~= pre + v);
            assert forall|i: int| !occurs_at(amt, e, i) by {
                if occurs_at(amt, e, i) {
                    lemma_occurrence_char(amt, i, i);
                    if i < pre.len() {
                        assert(amt[i] == pre[i]);
                    } else {
                        assert(amt.subrange(i, i + e.len()) =~= v.subrange(
                            i - pre.len(),
                            i - pre.len() + e.len(),
                        ));
                        assert(occurs_at(v, e, i - pre.len()));
                    }
                }
            }
        } else {
            assert(amt =~= v + sample);
            assert forall|i: int| !occurs_at(amt, e, i) by {
                if occurs_at(amt, e, i) {
                    if i + e.len() <= v.len() {
                        assert(amt.subrange(i, i + e.len()) =~= v.subrange(i, i + e.len()));
                        assert(occurs_at(v, e, i));
                    } else {
                        let k = i + e.len() - 1;
                        lemma_occurrence_char(amt, i, k);
                        assert(amt[k] == 'r');
                        assert(amt[k] == sample[k - v.len()]);
                    }
                }
            }
        }
    }
}

proof fn lemma_no_semicolon_words()
    ensures
        !"D "@.contains(';'),
        !"decimal-mark "@.contains(';'),
        !"commodity "@.contains(';'),
        !"account "@.contains(';'),
        !"include "@.contains(';'),
        !"D "@.contains('\n'),
        !"decimal-mark "@.contains('\n'),
{
    reveal_strlit("D ");
    reveal_strlit("decimal-mark ");
    reveal_strlit("commodity ");
    reveal_strlit("account ");
    reveal_strlit("include ");
    if "D "@.contains(';') || "D "@.contains('\n') {
        let j = choose|j: int| 0 <= j < "D "@.len() && ("D "@[j] == ';' || "D "@[j] == '\n');
    }
    if "decimal-mark "@.contains(';') || "decimal-mark "@.contains('\n') {
        let j = choose|j: int|
            0 <= j < "decimal-mark "@.len() && ("decimal-mark "@[j] == ';' || "decimal-mark "@[j]
                == '\n');
    }
    if "commodity "@.contains(';') {
        let j = choose|j: int| 0 <= j < "commodity "@.len() && "commodity "@[j] == ';';
    }
    if "account "@.contains(';') {
        let j = choose|j: int| 0 <= j < "account "@.len() && "account "@[j] == ';';
    }
    if "include "@.contains(';') {
        let j = choose|j: int| 0 <= j < "include "@.len() && "include "@[j] == ';';
    }
}

/// The region of a written header holds no end marker, and ends with a
/// line break.
proof fn lemma_region_marker_free(
    s: SettingsView,
    include_paths: Seq<Seq<char>>,
    idx: Map<Seq<char>, i64>,
)
    requires
        writable(s, include_paths, idx),
    ensures
        marker_free(header_region(s, include_paths)),
        header_region(s, include_paths).len() > 0,
        header_region(s, include_paths).last() == '\n',
{
    reveal_strlit("\n");
    lemma_marker_facts();
    lemma_no_semicolon_words();
    lemma_no_newline_words();
    let nl = "\n"@;
    let d = default_part(s);
    let m = mark_part(s);
    let c = directive_lines("commodity "@, s.commodities);
    let a = directive_lines("account "@, s.accounts);
    let i = directive_lines("include "@, include_paths);
    assert(marker_free(nl)) by {
        assert forall|k: int| !occurs_at(nl, HEADER_END@, k) by {}
    }
    assert(marker_free(Seq::<char>::empty())) by {
        assert forall|k: int| !occurs_at(Seq::<char>::empty(), HEADER_END@, k) by {}
    }
    match s.default_commodity {
        Some(dc) => {
            lemma_amount_marker_free(dc, s.decimal_mark);
            lemma_amount_facts(dc, s.decimal_mark);
            lemma_marker_free_line("D "@, default_commodity_amount(dc, s.decimal_mark));
            lemma_line_of("D "@, default_commodity_amount(dc, s.decimal_mark));
        },
        None => {},
    }
    match s.decimal_mark {
        Some(mk) => {
            lemma_marker_free_line("decimal-mark "@, mk);
            lemma_line_of("decimal-mark "@, mk);
        },
        None => {},
    }
    assert(whole_lines(d));
    assert(whole_lines(m));
    lemma_marker_free_directives("commodity "@, s.commodities);
    lemma_marker_free_directives("account "@, s.accounts);
    lemma_marker_free_directives("include "@, include_paths);
    lemma_split_directive_lines("commodity "@, s.commodities);
    lemma_split_directive_lines("account "@, s.accounts);
    lemma_split_directive_lines("include "@, include_paths);
    lemma_marker_free_concat(nl, d);
    lemma_whole_lines_concat(nl, d);
    lemma_marker_free_concat(nl + d, m);
    lemma_whole_lines_concat(nl + d, m);
    lemma_marker_free_concat(nl + d + m, c);
    lemma_whole_lines_concat(nl + d + m, c);
    lemma_marker_free_concat(nl + d + m + c, a);
    lemma_whole_lines_concat(nl + d + m + c, a);
    lemma_marker_free_concat(nl + d + m + c + a, i);
    lemma_whole_lines_concat(nl + d + m + c + a, i);
    assert(header_region(s, include_paths) == nl + d + m + c + a + i);
    assert((nl + d + m + c + a + i).len() > 0);
}

/// The begin marker does not occur in `v`.
pub open spec fn begin_free(v: Seq<char>) -> bool {
    forall|i: int| !occurs_at(v, HEADER_BEGIN@, i)
}

/// In text without a begin marker followed by text that starts with one,
/// the begin marker is first found where the second part starts.
proof fn lemma_begin_found_at(before: Seq<char>, after: Seq<char>)
    requires
        begin_free(before),
        after.len() >= HEADER_BEGIN@.len(),
        after.take(HEADER_BEGIN@.len() as int) == HEADER_BEGIN@,
    ensures
        find_from(before + after, HEADER_BEGIN@, 0) == before.len(),
{
    lemma_marker_facts();
    let b = HEADER_BEGIN@;
    let t = before + after;
    let pb: int = before.len() as int;
    let bl: int = b.len() as int;
    assert(t.subrange(pb, pb + bl) =~= after.take(bl));
    assert forall|j: int| 0 <= j < pb implies !occurs_at(t, b, j) by {
        if occurs_at(t, b, j) {
            if j + bl <= pb {
                assert(t.subrange(j, j + bl) =~= before.subrange(j, j + bl));
                assert(occurs_at(before, b, j));
            } else {
                assert(t.subrange(j, j + bl)[pb - j] == t[pb]);
                assert(t[pb] == after[0]);
                assert(after.take(bl)[0] == after[0]);
                assert(b[0] == ';');
                assert(b[pb - j] == t[pb]);
                assert(b[pb - j] == ';');
            }
        }
    }
    lemma_find_from_first(t, b, 0, pb);
}

/// After a begin marker and a region without end markers that ends with a
/// line break, the end marker that follows is the first one found.
proof fn lemma_end_found_after(before: Seq<char>, r: Seq<char>, after: Seq<char>)
    requires
        marker_free(r),
        r.len() > 0,
        r.last() == '\n',
        after.len() >= HEADER_END@.len(),
        after.take(HEADER_END@.len() as int) == HEADER_END@,
    ensures
        find_from(before + HEADER_BEGIN@ + r + after, HEADER_END@, before.len() as int) == before.len()
            + HEADER_BEGIN@.len() + r.len(),
{
    lemma_marker_facts();
    let b = HEADER_BEGIN@;
    let e = HEADER_END@;
    let t = before + b + r + after;
    let pb: int = before.len() as int;
    let bl: int = b.len() as int;
    let el: int = e.len() as int;
    let pos: int = pb + bl + r.len();
    assert(t.subrange(pos, pos + el) =~= after.take(el));
    assert forall|j: int| pb <= j < pos implies !occurs_at(t, e, j) by {
        if occurs_at(t, e, j) {
            lemma_occurrence_char(t, j, j);
            if j == pb {
                lemma_occurrence_char(t, j, pb + 2);
                assert(t[pb + 2] == b[2]);
            } else if j < pb + bl {
                assert(t[j] == b[j - pb]);
            } else if j + el <= pos {
                assert(t.subrange(j, j + el) =~= r.subrange(j - pb - bl, j - pb - bl + el));
                assert(occurs_at(r, e, j - pb - bl));
            } else {
                lemma_occurrence_char(t, j, pos - 1);
                assert(t[pos - 1] == r[r.len() - 1]);
                assert(e.contains('\n'));
            }
        }
    }
    lemma_find_from_first(t, e, pb, pos);
}

/// Reading a journal in which a written header follows text without a begin
/// marker: the managed block is the header, its directives give back the
/// settings (see [`lemma_header_round_trip`]), and the body is the text
/// around it.
pub proof fn lemma_header_read_after(
    before: Seq<char>,
    s: SettingsView,
    include_paths: Seq<Seq<char>>,
    idx: Map<Seq<char>, i64>,
    rest: Seq<char>,
)
    requires
        writable(s, include_paths, idx),
        begin_free(before),
    ensures
        managed_import(before + header_text(s, include_paths) + rest, idx) == Some(
            ImportedView {
                settings: read_back(s),
                unsupported_preamble: "\n"@,
                body: before + "\n"@ + rest,
                has_managed_header: true,
            },
        ),
{
    reveal_strlit("\n\n");
    reveal_strlit("\n");
    lemma_marker_facts();
    let b = HEADER_BEGIN@;
    let e = HEADER_END@;
    let r = header_region(s, include_paths);
    let h = header_text(s, include_paths);
    let after = e + "\n\n"@ + rest;
    let t = before + b + r + after;
    assert(before + h + rest =~= t);
    let pb: int = before.len() as int;
    let bl: int = b.len() as int;
    let pos: int = pb + bl + r.len();
    let el: int = e.len() as int;
    // The begin marker is first found where the header starts.
    assert((b + r + after).take(bl) =~= b);
    lemma_begin_found_at(before, b + r + after);
    assert(t =~= before + (b + r + after));
    // The end marker is first found at the closing line.
    lemma_region_marker_free(s, include_paths, idx);
    assert(after.take(el) =~= e);
    lemma_end_found_after(before, r, after);
    // Its line ends right after it.
    assert forall|j: int| pos <= j < pos + el implies t[j] != '\n' by {
        assert(t[j] == e[j - pos]);
        if e[j - pos] == '\n' {
            assert(e.contains('\n'));
        }
    }
    assert(t[pos + el] == '\n');
    lemma_find_char_first(t, '\n', pos, pos + el);
    assert(managed_block(t) == Some((pb, pos, pos + el + 1)));
    // What lies between the markers, and around the block.
    assert(t.subrange(pb + bl, pos) =~= r);
    lemma_region_reads_back(s, include_paths, idx);
    assert(t.take(pb) + t.skip(pos + el + 1) =~= before + "\n"@ + rest);
}

/// Reading back a written managed header: a journal made of the header that
/// [`render_managed_header`](crate::journal_settings::render_managed_header)
/// writes for some settings, followed by any text, has a managed block whose
/// directives give back those settings (the default commodity as the amount
/// its `D` line carries).  Besides them, the line break after the begin
/// marker is read as a kept blank line, and the blank line after the end
/// marker stays with the rest of the journal.  This holds when the settings
/// can be written line by line (see [`writable`]).
pub proof fn lemma_header_round_trip(
    s: SettingsView,
    include_paths: Seq<Seq<char>>,
    idx: Map<Seq<char>, i64>,
    rest: Seq<char>,
)
    requires
        writable(s, include_paths, idx),
    ensures
        managed_import(header_text(s, include_paths) + rest, idx) == Some(
            ImportedView {
                settings: read_back(s),
                unsupported_preamble: "\n"@,
                body: "\n"@ + rest,
                has_managed_header: true,
            },
        ),
{
    let e = Seq::<char>::empty();
    lemma_marker_facts();
    assert(begin_free(e)) by {
        assert forall|i: int| !occurs_at(e, HEADER_BEGIN@, i) by {}
    }
    lemma_header_read_after(e, s, include_paths, idx, rest);
    assert(e + header_text(s, include_paths) + rest =~= header_text(s, include_paths) + rest);
    assert(e + "\n"@ + rest =~= "\n"@ + rest);
}

/// Writing settings into a journal and reading them back: whatever the
/// journal held before, once the header for the settings has been put into
/// it, the journal is read as having a managed header that gives back those
/// settings (the default commodity as the amount its `D` line carries),
/// with the line break after the begin marker kept as the only unsupported
/// text.  This holds when the settings can be written line by line (see
/// [`writable`]).
pub proof fn lemma_written_settings_read_back(
    existing: Seq<char>,
    s: SettingsView,
    include_paths: Seq<Seq<char>>,
    idx: Map<Seq<char>, i64>,
)
    requires
        writable(s, include_paths, idx),
    ensures
        journal_with_header(existing, header_text(s, include_paths), idx) matches Some(t) ==> (
        journal_import(t, idx) matches Some(v) && v.settings == read_back(s)
            && v.has_managed_header && v.unsupported_preamble == "\n"@),
{
    let h = header_text(s, include_paths);
    if find_from(existing, HEADER_BEGIN@, 0) >= 0 && find_from(existing, HEADER_END@, 0) >= 0 {
        match managed_block(existing) {
            None => {
                lemma_header_round_trip(s, include_paths, idx, existing);
            },
            Some((st, en, le)) => {
                lemma_managed_block(existing);
                lemma_find_from(existing, HEADER_BEGIN@, 0);
                assert(find_from(existing, HEADER_BEGIN@, 0) == st);
                lemma_marker_facts();
                let before = existing.take(st);
                assert(before.len() == st);
                let bl = HEADER_BEGIN@.len() as int;
                assert(begin_free(before)) by {
                    assert forall|j: int| !occurs_at(before, HEADER_BEGIN@, j) by {
                        if occurs_at(before, HEADER_BEGIN@, j) {
                            assert(before.subrange(j, j + bl) =~= existing.subrange(j, j + bl));
                            assert(occurs_at(existing, HEADER_BEGIN@, j));
                            assert(0 <= j < st);
                        }
                    }
                }
                lemma_header_read_after(before, s, include_paths, idx, existing.skip(le));
                assert(replaced_header(existing, h) == before + h + existing.skip(le));
            },
        }
    } else {
        match unmanaged_import(existing, idx) {
            None => {},
            Some(imp) => {
                let rest = imp.unsupported_preamble + imp.body;
                lemma_header_round_trip(s, include_paths, idx, rest);
                assert(h + imp.unsupported_preamble + imp.body =~= h + rest);
            },
        }
    }
}

// ---------------------------------------------------------------------------
// Cycles in the include graph
// ---------------------------------------------------------------------------

/// Where a step of the walk stops on the stack: the index of the journal
/// it handed out or found to be the root; every journal above that index
/// was skipped as visited.
pub proof fn lemma_walk_next_shape(w: WalkView)
    ensures
        walk_next(w).1.root == w.root,
        walk_next(w).0 is Ok && walk_next(w).0->Ok_0 is None ==> walk_next(w).1.stack.len() == 0
            && walk_next(w).1.visited == w.visited && forall|i: int|
            0 <= i < w.stack.len() ==> w.visited.contains(#[trigger] w.stack[i]),
        walk_next(w).0 is Err ==> exists|k: int| 0 <= k < w.stack.len() && w.stack[k] == w.root,
        walk_next(w).0 matches Ok(Some(j)) ==> exists|k: int|
            {
                &&& 0 <= k < w.stack.len()
                &&& w.stack[k] == j
                &&& walk_next(w).1.stack == w.stack.take(k)
                &&& walk_next(w).1.visited == w.visited.insert(j)
                &&& !w.visited.contains(j)
                &&& j != w.root
                &&& forall|i: int| k < i < w.stack.len() ==> w.visited.contains(#[trigger] w.stack[i])
            },
    decreases w.stack.len(),
{
    if w.stack.len() > 0 {
        let n = w.stack.len() as int;
        let curr = w.stack.last();
        let rest = WalkView { root: w.root, stack: w.stack.drop_last(), visited: w.visited };
        if curr == w.root {
            assert(w.stack[n - 1] == w.root);
        } else if w.visited.contains(curr) {
            lemma_walk_next_shape(rest);
            assert(walk_next(w) == walk_next(rest));
            if walk_next(rest).0 is Ok && walk_next(rest).0->Ok_0 is None {
                assert forall|i: int| 0 <= i < n implies w.visited.contains(#[trigger] w.stack[i]) by {
                    if i < n - 1 {
                        assert(w.stack[i] == rest.stack[i]);
                    }
                }
            }
            if walk_next(rest).0 is Err {
                let k = choose|k: int| 0 <= k < rest.stack.len() && rest.stack[k] == w.root;
                assert(w.stack[k] == w.root);
            }
            if let Ok(Some(j)) = walk_next(rest).0 {
                let k = choose|k: int|
                    {
                        &&& 0 <= k < rest.stack.len()
                        &&& rest.stack[k] == j
                        &&& walk_next(rest).1.stack == rest.stack.take(k)
                        &&& walk_next(rest).1.visited == rest.visited.insert(j)
                        &&& !rest.visited.contains(j)
                        &&& j != rest.root
                        &&& forall|i: int|
                            k < i < rest.stack.len() ==> rest.visited.contains(#[trigger] rest.stack[i])
                    };
                assert(w.stack[k] == j);
                assert(rest.stack.take(k) =~= w.stack.take(k));
                assert forall|i: int| k < i < n implies w.visited.contains(#[trigger] w.stack[i]) by {
                    if i < n - 1 {
                        assert(w.stack[i] == rest.stack[i]);
                    }
                }
            }
        } else {
            assert(w.stack[n - 1] == curr);
            assert(w.stack.drop_last() =~= w.stack.take(n - 1));
        }
    }
}

/// The journals that journal `id` includes, in an include graph.
pub open spec fn includes_of(g: Map<i64, Seq<i64>>, id: i64) -> Seq<i64> {
    if g.contains_key(id) {
        g[id]
    } else {
        Seq::empty()
    }
}

/// `p` is a chain of includes: it starts at one of `starts`, and each
/// journal in it includes the next.
pub open spec fn include_chain(g: Map<i64, Seq<i64>>, starts: Seq<i64>, p: Seq<i64>) -> bool {
    &&& p.len() > 0
    &&& starts.contains(p[0])
    &&& forall|k: int| 0 <= k < p.len() - 1 ==> #[trigger] includes_of(g, p[k]).contains(p[k + 1])
}

/// Journal `x` is reached by following includes from `starts`.
pub open spec fn reachable(g: Map<i64, Seq<i64>>, starts: Seq<i64>, x: i64) -> bool {
    exists|p: Seq<i64>| include_chain(g, starts, p) && p.last() == x
}

/// One step of the walk as the caller drives it: the journal handed out,
/// if any, has its includes added to the stack.
pub open spec fn walk_step(w: WalkView, g: Map<i64, Seq<i64>>) -> (
    Result<Option<i64>, ErrorView>,
    WalkView,
) {
    let (r, w1) = walk_next(w);
    match r {
        Ok(Some(j)) => (
            r,
            WalkView { root: w1.root, stack: w1.stack + includes_of(g, j), visited: w1.visited },
        ),
        _ => (r, w1),
    }
}

/// How the walk ends within `fuel` steps: `Some(true)` when it reports a
/// cycle, `Some(false)` when it runs out of journals, `None` when it has
/// not ended yet.
pub open spec fn walk_outcome(w: WalkView, g: Map<i64, Seq<i64>>, fuel: nat) -> Option<bool>
    decreases fuel,
{
    if fuel == 0 {
        None
    } else {
        match walk_step(w, g).0 {
            Err(_) => Some(true),
            Ok(None) => Some(false),
            Ok(Some(_)) => walk_outcome(walk_step(w, g).1, g, (fuel - 1) as nat),
        }
    }
}

/// The walk starts from the root's includes, with nothing visited.
pub open spec fn walk_start(root: i64, includes: Seq<i64>) -> WalkView {
    WalkView { root, stack: includes, visited: Set::empty() }
}

/// Every journal on the stack is reachable from `starts`.
pub open spec fn walk_sound(w: WalkView, g: Map<i64, Seq<i64>>, starts: Seq<i64>) -> bool {
    forall|i: int| 0 <= i < w.stack.len() ==> reachable(g, starts, #[trigger] w.stack[i])
}

/// Nothing reachable is lost: the starts, and the includes of every visited
/// journal, are visited or on the stack; the root is never visited.
pub open spec fn walk_complete(w: WalkView, g: Map<i64, Seq<i64>>, starts: Seq<i64>) -> bool {
    &&& forall|x: i64| #[trigger] starts.contains(x) ==> w.visited.contains(x) || w.stack.contains(x)
    &&& forall|v: i64, y: i64|
        w.visited.contains(v) && #[trigger] includes_of(g, v).contains(y) ==> w.visited.contains(y)
            || w.stack.contains(y)
    &&& !w.visited.contains(w.root)
}

proof fn lemma_chain_extend(g: Map<i64, Seq<i64>>, starts: Seq<i64>, p: Seq<i64>, y: i64)
    requires
        include_chain(g, starts, p),
        includes_of(g, p.last()).contains(y),
    ensures
        include_chain(g, starts, p.push(y)),
        p.push(y).last() == y,
{
    let q = p.push(y);
    assert forall|k: int| 0 <= k < q.len() - 1 implies #[trigger] includes_of(g, q[k]).contains(
        q[k + 1],
    ) by {
        if k < p.len() - 1 {
            assert(q[k] == p[k] && q[k + 1] == p[k + 1]);
        } else {
            assert(q[k] == p.last() && q[k + 1] == y);
        }
    }
}

/// A set that holds the starts and is closed under includes holds every
/// journal at the end of a chain.
proof fn lemma_closed_holds_chain(
    g: Map<i64, Seq<i64>>,
    starts: Seq<i64>,
    vis: Set<i64>,
    p: Seq<i64>,
)
    requires
        forall|x: i64| #[trigger] starts.contains(x) ==> vis.contains(x),
        forall|v: i64, y: i64| vis.contains(v) && #[trigger] includes_of(g, v).contains(y) ==> vis.contains(y),
        include_chain(g, starts, p),
    ensures
        vis.contains(p.last()),
    decreases p.len(),
{
    if p.len() > 1 {
        let q = p.drop_last();
        assert forall|k: int| 0 <= k < q.len() - 1 implies #[trigger] includes_of(g, q[k]).contains(
            q[k + 1],
        ) by {
            assert(q[k] == p[k] && q[k + 1] == p[k + 1]);
        }
        assert(q[0] == p[0]);
        lemma_closed_holds_chain(g, starts, vis, q);
        let k = p.len() - 2;
        assert(includes_of(g, p[k]).contains(p[k + 1]));
        assert(q.last() == p[k]);
        assert(p.last() == p[k + 1]);
    }
}

proof fn lemma_walk_outcome_correct(w: WalkView, g: Map<i64, Seq<i64>>, starts: Seq<i64>, fuel: nat)
    requires
        walk_sound(w, g, starts),
        walk_complete(w, g, starts),
        walk_outcome(w, g, fuel) is Some,
    ensures
        walk_outcome(w, g, fuel) == Some(reachable(g, starts, w.root)),
    decreases fuel,
{
    lemma_walk_next_shape(w);
    let (r, w1) = walk_next(w);
    match r {
        Err(_) => {
            let k = choose|k: int| 0 <= k < w.stack.len() && w.stack[k] == w.root;
            assert(reachable(g, starts, w.stack[k]));
        },
        Ok(None) => {
            let vis = w.visited;
            assert forall|x: i64| #[trigger] starts.contains(x) implies vis.contains(x) by {
                if w.stack.contains(x) {
                    let i = choose|i: int| 0 <= i < w.stack.len() && w.stack[i] == x;
                    assert(w.visited.contains(w.stack[i]));
                }
            }
            assert forall|v: i64, y: i64|
                vis.contains(v) && #[trigger] includes_of(g, v).contains(y) implies vis.contains(y) by {
                if w.stack.contains(y) {
                    let i = choose|i: int| 0 <= i < w.stack.len() && w.stack[i] == y;
                    assert(w.visited.contains(w.stack[i]));
                }
            }
            if reachable(g, starts, w.root) {
                let p = choose|p: Seq<i64>| include_chain(g, starts, p) && p.last() == w.root;
                lemma_closed_holds_chain(g, starts, vis, p);
            }
        },
        Ok(Some(j)) => {
            let k = choose|k: int|
                {
                    &&& 0 <= k < w.stack.len()
                    &&& w.stack[k] == j
                    &&& walk_next(w).1.stack == w.stack.take(k)
                    &&& walk_next(w).1.visited == w.visited.insert(j)
                    &&& !w.visited.contains(j)
                    &&& j != w.root
                    &&& forall|i: int| k < i < w.stack.len() ==> w.visited.contains(#[trigger] w.stack[i])
                };
            let w2 = walk_step(w, g).1;
            let inc = includes_of(g, j);
            assert(w2.stack == w.stack.take(k) + inc);
            // Still sound.
            assert(reachable(g, starts, w.stack[k]));
            let pj = choose|p: Seq<i64>| include_chain(g, starts, p) && p.last() == j;
            assert forall|i: int| 0 <= i < w2.stack.len() implies reachable(g, starts, #[trigger] w2.stack[i]) by {
                if i < k {
                    assert(w2.stack[i] == w.stack[i]);
                } else {
                    let y = w2.stack[i];
                    assert(y == inc[i - k]);
                    assert(inc.contains(y));
                    lemma_chain_extend(g, starts, pj, y);
                }
            }
            // Still complete.
            assert forall|x: i64| w.stack.contains(x) implies w2.visited.contains(x) || w2.stack.contains(x) by {
                let i = choose|i: int| 0 <= i < w.stack.len() && w.stack[i] == x;
                if i < k {
                    assert(w2.stack[i] == x);
                } else if i > k {
                    assert(w.visited.contains(w.stack[i]));
                }
            }
            assert forall|v: i64, y: i64|
                w2.visited.contains(v) && #[trigger] includes_of(g, v).contains(y) implies w2.visited.contains(y)
                || w2.stack.contains(y) by {
                if v == j {
                    let q = choose|q: int| 0 <= q < inc.len() && inc[q] == y;
                    assert(w2.stack[k + q] == y);
                } else {
                    assert(w.visited.contains(v));
                    if w.stack.contains(y) {
                    }
                }
            }
            assert forall|x: i64| #[trigger] starts.contains(x) implies w2.visited.contains(x)
                || w2.stack.contains(x) by {
                if w.stack.contains(x) {
                }
            }
            assert(walk_outcome(w, g, fuel) == walk_outcome(w2, g, (fuel - 1) as nat));
            lemma_walk_outcome_correct(w2, g, starts, (fuel - 1) as nat);
        },
    }
}

/// Every journal the walk can meet lies in `nodes`: the starts do, and so
/// do the includes of every journal in `nodes`.
pub open spec fn walk_bounded(
    nodes: Set<i64>,
    g: Map<i64, Seq<i64>>,
    starts: Seq<i64>,
) -> bool {
    &&& nodes.finite()
    &&& forall|x: i64| #[trigger] starts.contains(x) ==> nodes.contains(x)
    &&& forall|v: i64, y: i64|
        nodes.contains(v) && #[trigger] includes_of(g, v).contains(y) ==> nodes.contains(y)
}

proof fn lemma_walk_ends_from(
    w: WalkView,
    g: Map<i64, Seq<i64>>,
    nodes: Set<i64>,
    starts: Seq<i64>,
    fuel: nat,
)
    requires
        walk_bounded(nodes, g, starts),
        w.visited.subset_of(nodes),
        forall|i: int| 0 <= i < w.stack.len() ==> nodes.contains(#[trigger] w.stack[i]),
        fuel > nodes.len() - w.visited.len(),
    ensures
        walk_outcome(w, g, fuel) is Some,
    decreases fuel,
{
    vstd::set_lib::lemma_len_subset(w.visited, nodes);
    lemma_walk_next_shape(w);
    if let Ok(Some(j)) = walk_next(w).0 {
        let k = choose|k: int|
            {
                &&& 0 <= k < w.stack.len()
                &&& w.stack[k] == j
                &&& walk_next(w).1.stack == w.stack.take(k)
                &&& walk_next(w).1.visited == w.visited.insert(j)
                &&& !w.visited.contains(j)
                &&& j != w.root
                &&& forall|i: int| k < i < w.stack.len() ==> w.visited.contains(#[trigger] w.stack[i])
            };
        let w2 = walk_step(w, g).1;
        assert(nodes.contains(w.stack[k]));
        assert(w2.visited.subset_of(nodes));
        vstd::set::axiom_set_insert_len(w.visited, j);
        vstd::set_lib::lemma_len_subset(w2.visited, nodes);
        let inc = includes_of(g, j);
        assert forall|i: int| 0 <= i < w2.stack.len() implies nodes.contains(#[trigger] w2.stack[i]) by {
            if i < k {
                assert(w2.stack[i] == w.stack[i]);
            } else {
                assert(w2.stack[i] == inc[i - k]);
                assert(inc.contains(inc[i - k]));
            }
        }
        lemma_walk_ends_from(w2, g, nodes, starts, (fuel - 1) as nat);
    }
}

/// The walk over includes decides cycles: driven by a caller that extends
/// the stack with the includes `g` lists for each journal handed out, the
/// walk from a root's includes ends within `|nodes| + 1` steps when the
/// journals it can meet lie in a finite set `nodes`, and whenever it ends
/// it reports a cycle exactly when the root is reachable from its includes.
pub proof fn lemma_walk_reports_cycle_iff_reachable(
    root: i64,
    includes: Seq<i64>,
    g: Map<i64, Seq<i64>>,
    nodes: Set<i64>,
    fuel: nat,
)
    ensures
        walk_outcome(walk_start(root, includes), g, fuel) is Some ==> walk_outcome(
            walk_start(root, includes),
            g,
            fuel,
        ) == Some(reachable(g, includes, root)),
        walk_bounded(nodes, g, includes) ==> walk_outcome(
            walk_start(root, includes),
            g,
            nodes.len() + 1,
        ) is Some,
{
    let w = walk_start(root, includes);
    assert forall|i: int| 0 <= i < w.stack.len() implies reachable(g, includes, #[trigger] w.stack[i]) by {
        let p = seq![w.stack[i]];
        assert(p[0] == includes[i]);
        assert(includes.contains(p[0]));
        assert(include_chain(g, includes, p));
        assert(p.last() == w.stack[i]);
    }
    if walk_outcome(w, g, fuel) is Some {
        lemma_walk_outcome_correct(w, g, includes, fuel);
    }
    if walk_bounded(nodes, g, includes) {
        assert(w.visited =~= Set::<i64>::empty());
        assert(w.visited.len() == 0);
        assert forall|i: int| 0 <= i < w.stack.len() implies nodes.contains(#[trigger] w.stack[i]) by {
            assert(includes.contains(includes[i]));
        }
        lemma_walk_ends_from(w, g, nodes, includes, (nodes.len() + 1) as nat);
    }
}

// ---------------------------------------------------------------------------
// Splitting a journal without a managed header
// ---------------------------------------------------------------------------

proof fn lemma_concat_all_append(a: Seq<Seq<char>>, b: Seq<Seq<char>>)
    ensures
        concat_all(a + b) == concat_all(a) + concat_all(b),
    decreases b.len(),
{
    if b.len() == 0 {
        assert(a + b =~= a);
        assert(concat_all(b) =~= Seq::<char>::empty());
        assert(concat_all(a) + concat_all(b) =~= concat_all(a));
    } else {
        lemma_concat_all_append(a, b.drop_last());
        assert(a + b =~= (a + b.drop_last()).push(b.last()));
        lemma_concat_all_push(a + b.drop_last(), b.last());
        assert(b =~= b.drop_last().push(b.last()));
        lemma_concat_all_push(b.drop_last(), b.last());
        assert(concat_all(a) + concat_all(b.drop_last()) + b.last() =~= concat_all(a) + (concat_all(
            b.drop_last(),
        ) + b.last()));
    }
}

/// A journal without a managed header splits at the first line that starts
/// a transaction (after leading whitespace): the body is the text from that
/// line on, the lines before it form the preamble, and none of them starts
/// a transaction.
pub proof fn lemma_unmanaged_split(text: Seq<char>, idx: Map<Seq<char>, i64>)
    ensures
        unmanaged_import(text, idx) matches Some(v) ==> {
            let lines = split_lines(text);
            let k = first_transaction_line(lines, 0);
            &&& 0 <= k <= lines.len()
            &&& text == concat_all(lines.take(k)) + v.body
            &&& !v.has_managed_header
            &&& forall|i: int|
                0 <= i < k ==> !regex_finds_match(
                    TRANSACTION_START_PATTERN@,
                    trim_start(#[trigger] lines[i]),
                )
            &&& k < lines.len() ==> regex_finds_match(TRANSACTION_START_PATTERN@, trim_start(lines[k]))
        },
{
    if regex_compile_error(TRANSACTION_START_PATTERN@) is None {
        let lines = split_lines(text);
        let k = first_transaction_line(lines, 0);
        lemma_first_line_facts(lines, 0);
        lemma_lines_rejoin(text);
        assert(lines.take(k) + lines.skip(k) =~= lines);
        lemma_concat_all_append(lines.take(k), lines.skip(k));
    }
}

proof fn lemma_first_line_facts(lines: Seq<Seq<char>>, i: int)
    requires
        0 <= i <= lines.len(),
    ensures
        i <= first_transaction_line(lines, i) <= lines.len(),
        forall|j: int|
            i <= j < first_transaction_line(lines, i) ==> !regex_finds_match(
                TRANSACTION_START_PATTERN@,
                trim_start(#[trigger] lines[j]),
            ),
        first_transaction_line(lines, i) < lines.len() ==> regex_finds_match(
            TRANSACTION_START_PATTERN@,
            trim_start(lines[first_transaction_line(lines, i)]),
        ),
    decreases lines.len() - i,
{
    if i < lines.len() && !regex_finds_match(TRANSACTION_START_PATTERN@, trim_start(lines[i])) {
        lemma_first_line_facts(lines, i + 1);
    }
}

} // verus!
