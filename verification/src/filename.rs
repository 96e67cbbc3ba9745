//! File names: cleaning uploaded names, reading extensions and normalising
//! journal names.
use vstd::prelude::*;

use crate::error::{AppError, ErrorView};
use crate::text::{chars_of, last_index_of, push_range, push_str, rfind_char, str_eq, trim, trim_bounds};

verus! {

// ---------------------------------------------------------------------------
// Path segments
// ---------------------------------------------------------------------------

/// A path separator: `/`, or `\` which is read as `/`.
pub open spec fn is_sep(c: char) -> bool {
    c == '/' || c == '\\'
}

/// The text with its trailing separators removed.
pub open spec fn strip_trailing_seps(s: Seq<char>) -> Seq<char>
    decreases s.len(),
{
    if s.len() > 0 && is_sep(s.last()) {
        strip_trailing_seps(s.drop_last())
    } else {
        s
    }
}

/// The characters after the last separator.
pub open spec fn tail_segment(s: Seq<char>) -> Seq<char>
    decreases s.len(),
{
    if s.len() == 0 || is_sep(s.last()) {
        Seq::empty()
    } else {
        tail_segment(s.drop_last()).push(s.last())
    }
}

/// The last non-empty segment of a path, `None` when every segment is empty.
pub open spec fn last_segment(s: Seq<char>) -> Option<Seq<char>> {
    let t = strip_trailing_seps(s);
    if t.len() == 0 {
        None
    } else {
        Some(tail_segment(t))
    }
}

/// What [`sanitize_filename`] makes of a name: its last non-empty path
/// segment, unless that is `.`, `..` or holds a NUL character.
pub open spec fn sanitized(s: Seq<char>) -> Option<Seq<char>> {
    match last_segment(s) {
        None => None,
        Some(b) => if b == seq!['.'] || b == seq!['.', '.'] || b.contains('\0') {
            None
        } else {
            Some(b)
        },
    }
}

pub proof fn lemma_strip_trailing_seps(s: Seq<char>)
    ensures
        strip_trailing_seps(s) == s.take(strip_trailing_seps(s).len() as int),
        strip_trailing_seps(s).len() <= s.len(),
        strip_trailing_seps(s).len() > 0 ==> !is_sep(strip_trailing_seps(s).last()),
        forall|j: int| strip_trailing_seps(s).len() <= j < s.len() ==> is_sep(#[trigger] s[j]),
    decreases s.len(),
{
    if s.len() > 0 && is_sep(s.last()) {
        let d = s.drop_last();
        lemma_strip_trailing_seps(d);
        assert(d.take(strip_trailing_seps(s).len() as int) =~= s.take(
            strip_trailing_seps(s).len() as int,
        ));
        assert forall|j: int| strip_trailing_seps(s).len() <= j < s.len() implies is_sep(
            #[trigger] s[j],
        ) by {
            if j < d.len() {
                assert(s[j] == d[j]);
            }
        }
    } else {
        assert(s.take(s.len() as int) =~= s);
    }
}

pub proof fn lemma_tail_segment(s: Seq<char>)
    ensures
        tail_segment(s).len() <= s.len(),
        tail_segment(s) == s.subrange(s.len() - tail_segment(s).len(), s.len() as int),
        forall|j: int| 0 <= j < tail_segment(s).len() ==> !is_sep(#[trigger] tail_segment(s)[j]),
        tail_segment(s).len() < s.len() ==> is_sep(s[s.len() - tail_segment(s).len() - 1]),
    decreases s.len(),
{
    if s.len() == 0 || is_sep(s.last()) {
        assert(s.subrange(s.len() as int, s.len() as int) =~= Seq::<char>::empty());
    } else {
        let d = s.drop_last();
        lemma_tail_segment(d);
        let n = tail_segment(s).len();
        assert(tail_segment(s) =~= s.subrange(s.len() - n, s.len() as int));
        assert forall|j: int| 0 <= j < n implies !is_sep(#[trigger] tail_segment(s)[j]) by {
            if j < n - 1 {
                assert(tail_segment(s)[j] == tail_segment(d)[j]);
            }
        }
        if n < s.len() {
            assert(s[s.len() - n - 1] == d[d.len() - tail_segment(d).len() - 1]);
        }
    }
}

/// A text without separators is its own tail segment.
pub proof fn lemma_no_seps_fixed(s: Seq<char>)
    requires
        forall|j: int| 0 <= j < s.len() ==> !is_sep(#[trigger] s[j]),
    ensures
        strip_trailing_seps(s) == s,
        tail_segment(s) == s,
    decreases s.len(),
{
    if s.len() > 0 {
        let d = s.drop_last();
        assert(!is_sep(s[s.len() - 1]));
        assert forall|j: int| 0 <= j < d.len() implies !is_sep(#[trigger] d[j]) by {
            assert(d[j] == s[j]);
        }
        lemma_no_seps_fixed(d);
        assert(d.push(s.last()) =~= s);
    }
}

/// Cleaning an uploaded name gives a non-empty name with no separators,
/// which is not a dot segment and holds no NUL, and which cleaning keeps as
/// it is.
pub proof fn lemma_sanitize_idempotent(s: Seq<char>)
    requires
        sanitized(s) is Some,
    ensures
        sanitized(s)->0.len() > 0,
        sanitized(s)->0 != seq!['.'] && sanitized(s)->0 != seq!['.', '.'],
        !sanitized(s)->0.contains('\0'),
        forall|j: int|
            0 <= j < sanitized(s)->0.len() ==> !is_sep(#[trigger] sanitized(s)->0[j]),
        sanitized(sanitized(s)->0) == sanitized(s),
{
    let t = strip_trailing_seps(s);
    lemma_strip_trailing_seps(s);
    lemma_tail_segment(t);
    let b = tail_segment(t);
    assert(b.len() > 0) by {
        assert(!is_sep(t.last()));
        if b.len() == 0 {
            assert(is_sep(t[t.len() - 1]));
        }
    }
    lemma_no_seps_fixed(b);
}

/// What cleaning keeps is the last non-empty segment of the name: a run of
/// non-separators that starts the name or follows a separator, after which
/// only separators remain.
pub proof fn lemma_sanitize_last_segment(s: Seq<char>)
    requires
        sanitized(s) is Some,
    ensures
        exists|i: int|
            #![trigger s.subrange(i, i + sanitized(s)->0.len())]
            0 <= i && i + sanitized(s)->0.len() <= s.len() && s.subrange(
                i,
                i + sanitized(s)->0.len(),
            ) == sanitized(s)->0 && (i == 0 || is_sep(s[i - 1])) && forall|j: int|
                i + sanitized(s)->0.len() <= j < s.len() ==> is_sep(#[trigger] s[j]),
{
    let t = strip_trailing_seps(s);
    lemma_strip_trailing_seps(s);
    lemma_tail_segment(t);
    let b = tail_segment(t);
    let i = t.len() - b.len();
    assert(s.subrange(i, i + b.len()) =~= b) by {
        assert(t.subrange(i, t.len() as int) =~= s.subrange(i, i + b.len()));
    }
    if i > 0 {
        assert(t[i - 1] == s[i - 1]);
    }
}

// ---------------------------------------------------------------------------
// sanitize_filename
// ---------------------------------------------------------------------------

/// Sanitize an uploaded filename: keep only the final path component, reject traversal.
/// Returns None if the result is empty or a bare dot-segment.
pub fn sanitize_filename(name: &str) -> (r: Option<String>)
    ensures
        match r {
            Some(b) => sanitized(name@) == Some(b@),
            None => sanitized(name@) is None,
        },
{
    let v = chars_of(name);
    assert(v@.take(v.len() as int) =~= v@);
    let mut j: usize = v.len();
    while j > 0 && (v[j - 1] == '/' || v[j - 1] == '\\')
        invariant
            j <= v.len(),
            strip_trailing_seps(v@) == strip_trailing_seps(v@.take(j as int)),
        decreases j,
    {
        assert(v@.take(j as int).drop_last() =~= v@.take(j - 1));
        j = j - 1;
    }
    assert(strip_trailing_seps(v@.take(j as int)) == v@.take(j as int)) by {
        if j > 0 {
            assert(v@.take(j as int).last() == v@[j - 1]);
        }
    }
    if j == 0 {
        return None;
    }
    let ghost t = v@.take(j as int);
    let mut i: usize = j;
    while i > 0 && v[i - 1] != '/' && v[i - 1] != '\\'
        invariant
            i <= j <= v.len(),
            t == v@.take(j as int),
            tail_segment(t) == tail_segment(v@.take(i as int)) + v@.subrange(i as int, j as int),
        decreases i,
    {
        assert(v@.take(i as int).drop_last() =~= v@.take(i - 1));
        assert(v@.take(i as int).last() == v@[i - 1]);
        assert(v@.subrange(i - 1, j as int) =~= seq![v@[i - 1]] + v@.subrange(i as int, j as int));
        assert(tail_segment(v@.take(i - 1)).push(v@[i - 1]) + v@.subrange(i as int, j as int)
            =~= tail_segment(v@.take(i - 1)) + v@.subrange(i - 1, j as int));
        i = i - 1;
    }
    assert(tail_segment(v@.take(i as int)) =~= Seq::<char>::empty()) by {
        if i > 0 {
            assert(v@.take(i as int).last() == v@[i - 1]);
        }
    }
    assert(tail_segment(t) =~= v@.subrange(i as int, j as int));
    let n = j - i;
    let is_dot = n == 1 && v[i] == '.';
    let is_dotdot = n == 2 && v[i] == '.' && v[i + 1] == '.';
    let mut has_nul = false;
    let mut k = i;
    while k < j
        invariant
            i <= k <= j <= v.len(),
            has_nul == v@.subrange(i as int, k as int).contains('\0'),
        decreases j - k,
    {
        if v[k] == '\0' {
            has_nul = true;
            assert(v@.subrange(i as int, k + 1)[k - i] == '\0');
        }
        assert(v@.subrange(i as int, k + 1) =~= v@.subrange(i as int, k as int).push(v@[k as int]));
        k = k + 1;
    }
    let ghost b = v@.subrange(i as int, j as int);
    assert(is_dot == (b == seq!['.'])) by {
        if b == seq!['.'] {
            assert(b.len() == 1 && b[0] == v@[i as int]);
        }
        if is_dot {
            assert(b =~= seq!['.']);
        }
    }
    assert(is_dotdot == (b == seq!['.', '.'])) by {
        if b == seq!['.', '.'] {
            assert(b[0] == v@[i as int] && b[1] == v@[i + 1]);
        }
        if is_dotdot {
            assert(b =~= seq!['.', '.']);
        }
    }
    if is_dot || is_dotdot || has_nul {
        return None;
    }
    let mut out = String::new();
    push_range(&mut out, &v, i, j);
    assert(out@ =~= b);
    Some(out)
}

// ---------------------------------------------------------------------------
// file_extension
// ---------------------------------------------------------------------------

/// The extension of a file name: what follows its last `.`, where a dot in
/// first place does not count; `None` without such a dot or when nothing
/// follows it.
pub open spec fn extension_of(s: Seq<char>) -> Option<Seq<char>> {
    let k = last_index_of(s.drop_first(), '.');
    if s.len() == 0 || k < 0 || k + 2 == s.len() {
        None
    } else {
        Some(s.subrange(k + 2, s.len() as int))
    }
}

/// Whether the first character of a text takes one byte in UTF-8, so that
/// the text can be cut after it.
pub open spec fn starts_ascii(s: Seq<char>) -> bool {
    s.len() > 0 && (s[0] as u32) < 128
}

/// Extract the file extension from a filename.
/// Returns None for dotfiles (e.g. `.hidden`) and files with no extension.
pub fn file_extension(filename: &str) -> (r: Option<&str>)
    requires
        starts_ascii(filename@),
    ensures
        match r {
            Some(e) => extension_of(filename@) == Some(e@),
            None => extension_of(filename@) is None,
        },
{
    let v = chars_of(filename);
    assert(v@.subrange(1, v@.len() as int) =~= v@.drop_first());
    match rfind_char(&v, 1, v.len(), '.') {
        None => None,
        Some(dot) => {
            if dot + 1 == v.len() {
                None
            } else {
                Some(filename.substring_char(dot + 1, v.len()))
            }
        },
    }
}

// ---------------------------------------------------------------------------
// normalize_journal_name
// ---------------------------------------------------------------------------

/// What [`normalize_journal_name`] gives for a name.
pub open spec fn normalized_journal_name(name: Seq<char>) -> Result<Seq<char>, ErrorView> {
    let t = trim(name);
    if t.len() == 0 {
        Err(ErrorView::BadRequest("journal name cannot be empty"@))
    } else {
        match extension_of(t) {
            None => Ok(t + ".journal"@),
            Some(ext) => if ext == "journal"@ {
                Ok(t)
            } else {
                Err(
                    ErrorView::BadRequest(
                        "expected a .journal name but got '."@ + ext
                            + "'; omit the extension or use '.journal'"@,
                    ),
                )
            },
        }
    }
}

/// Whether a journal name can be normalised without cutting text inside a
/// character: a blank name, or one whose trimmed text starts with an ASCII
/// character.
pub open spec fn journal_name_cuttable(name: Seq<char>) -> bool {
    trim(name).len() == 0 || starts_ascii(trim(name))
}

/// Normalize a user-supplied journal name: append `.journal` if no extension,
/// keep it if already `.journal`, or return an error for any other extension.
pub fn normalize_journal_name(name: &str) -> (r: Result<String, AppError>)
    requires
        journal_name_cuttable(name@),
    ensures
        match r {
            Ok(s) => normalized_journal_name(name@) == Ok::<Seq<char>, ErrorView>(s@),
            Err(e) => normalized_journal_name(name@) == Err::<Seq<char>, ErrorView>(e@),
        },
{
    let v = chars_of(name);
    let (lo, hi) = trim_bounds(&v, 0, v.len());
    assert(v@.subrange(0, v@.len() as int) =~= v@);
    if lo == hi {
        return Err(AppError::BadRequest(String::from_str("journal name cannot be empty")));
    }
    let mut t = String::new();
    push_range(&mut t, &v, lo, hi);
    proof {
        reveal_strlit("journal");
    }
    match file_extension(t.as_str()) {
        None => {
            push_str(&mut t, ".journal");
            Ok(t)
        },
        Some(ext) => {
            let same = str_eq(ext, "journal");
            if same {
                Ok(t)
            } else {
                let mut m = String::from_str("expected a .journal name but got '.");
                push_str(&mut m, ext);
                push_str(&mut m, "'; omit the extension or use '.journal'");
                Err(AppError::BadRequest(m))
            }
        },
    }
}

/// Appending text without `c` leaves the last `c` where it was.
pub proof fn lemma_last_index_of_append(x: Seq<char>, y: Seq<char>, c: char)
    requires
        !y.contains(c),
    ensures
        last_index_of(x + y, c) == last_index_of(x, c),
    decreases y.len(),
{
    if y.len() > 0 {
        assert((x + y).drop_last() =~= x + y.drop_last());
        assert((x + y).last() == y.last());
        assert(!y.drop_last().contains(c)) by {
            if y.drop_last().contains(c) {
                let q = choose|q: int| 0 <= q < y.drop_last().len() && y.drop_last()[q] == c;
                assert(y[q] == c);
            }
        }
        assert(y.last() != c) by {
            if y.last() == c {
                assert(y[y.len() - 1] == c);
            }
        }
        lemma_last_index_of_append(x, y.drop_last(), c);
    } else {
        assert(x + y =~= x);
    }
}

/// A normalised journal name is normalised again to itself.
pub proof fn lemma_normalize_journal_name_idempotent(name: Seq<char>)
    requires
        normalized_journal_name(name) is Ok,
    ensures
        normalized_journal_name(normalized_journal_name(name)->Ok_0) == normalized_journal_name(
            name,
        ),
{
    reveal_strlit(".journal");
    reveal_strlit("journal");
    let t = trim(name);
    crate::text::lemma_trim_props(name);
    assert(!"journal"@.contains('.')) by {
        if "journal"@.contains('.') {
            let q = choose|q: int| 0 <= q < "journal"@.len() && "journal"@[q] == '.';
        }
    }
    match extension_of(t) {
        None => {
            let r = t + ".journal"@;
            assert(r[0] == t[0]);
            assert(r.last() == 'l');
            crate::text::lemma_trim_fixed(r);
            assert(r.drop_first() =~= t.drop_first().push('.') + "journal"@);
            lemma_last_index_of_append(t.drop_first().push('.'), "journal"@, '.');
            assert(t.drop_first().push('.').last() == '.');
            assert(r.subrange(t.len() as int + 1, r.len() as int) =~= "journal"@);
        },
        Some(ext) => {
            crate::text::lemma_trim_fixed(t);
        },
    }
}

} // verus!
