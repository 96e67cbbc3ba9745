//! Command lines for hledger reports.
use vstd::prelude::*;

use crate::error::{AppError, ErrorView};
use crate::text::{decimal, push_decimal, texts};

verus! {

/// Filters of a report request.
#[derive(Debug, Clone)]
pub struct ReportQuery {
    pub begin: Option<String>,
    pub end: Option<String>,
    pub period: Option<String>,
    pub depth: Option<u32>,
    pub account: Option<String>,
}

/// A flag followed by its value, when the value is present.
pub open spec fn flag_with(flag: Seq<char>, value: Option<String>) -> Seq<Seq<char>> {
    match value {
        Some(v) => seq![flag, v@],
        None => Seq::empty(),
    }
}

/// The hledger arguments a report query stands for: `--begin`, `--end`,
/// `--period` and `--depth` with their values, then the account pattern.
pub open spec fn query_args(q: ReportQuery) -> Seq<Seq<char>> {
    flag_with("--begin"@, q.begin) + flag_with("--end"@, q.end) + flag_with("--period"@, q.period)
        + match q.depth {
        Some(d) => seq!["--depth"@, decimal(d as nat)],
        None => Seq::empty(),
    } + match q.account {
        Some(a) => seq![a@],
        None => Seq::empty(),
    }
}

/// The texts of a sequence of string slices.
pub open spec fn str_texts(s: Seq<&str>) -> Seq<Seq<char>> {
    s.map_values(|x: &str| x@)
}

fn push_flag(args: &mut Vec<String>, flag: &str, value: &Option<String>)
    ensures
        texts(final(args)@) == texts(old(args)@) + flag_with(flag@, *value),
{
    match value {
        Some(v) => {
            args.push(flag.to_owned());
            args.push(v.clone());
        },
        None => {},
    }
    assert(texts(args@) =~= texts(old(args)@) + flag_with(flag@, *value));
}

/// Convert ReportQuery fields into hledger CLI flags.
pub fn filter_args(query: &ReportQuery) -> (args: Vec<String>)
    ensures
        texts(args@) == query_args(*query),
{
    let mut args: Vec<String> = Vec::new();
    assert(texts(args@) =~= Seq::<Seq<char>>::empty());
    push_flag(&mut args, "--begin", &query.begin);
    push_flag(&mut args, "--end", &query.end);
    push_flag(&mut args, "--period", &query.period);
    let ghost before = texts(args@);
    match query.depth {
        Some(d) => {
            args.push("--depth".to_owned());
            let mut n = String::new();
            push_decimal(&mut n, d as u64);
            assert(n@ =~= decimal(d as nat));
            args.push(n);
        },
        None => {},
    }
    assert(texts(args@) =~= before + match query.depth {
        Some(d) => seq!["--depth"@, decimal(d as nat)],
        None => Seq::empty(),
    });
    let ghost before2 = texts(args@);
    match &query.account {
        Some(a) => {
            args.push(a.clone());
        },
        None => {},
    }
    assert(texts(args@) =~= before2 + match query.account {
        Some(a) => seq![a@],
        None => Seq::<Seq<char>>::empty(),
    });
    args
}

/// Build the full args slice for hledger from a subcommand, journal paths, and filters.
pub fn build_args<'a>(subcommand: &'a str, file_args: &'a [String], filter_args: &'a [String]) -> (r:
    Vec<&'a str>)
    ensures
        str_texts(r@) == seq![subcommand@] + texts(file_args@) + texts(filter_args@),
{
    let mut args: Vec<&'a str> = Vec::new();
    args.push(subcommand);
    let mut i: usize = 0;
    while i < file_args.len()
        invariant
            0 <= i <= file_args@.len(),
            str_texts(args@) == seq![subcommand@] + texts(file_args@.take(i as int)),
        decreases file_args.len() - i,
    {
        let ghost prev = args@;
        let x = file_args[i].as_str();
        args.push(x);
        assert(str_texts(args@) =~= str_texts(prev).push(x@));
        assert(texts(file_args@.take(i + 1)) =~= texts(file_args@.take(i as int)).push(
            file_args@[i as int]@,
        ));
        assert(str_texts(args@) =~= seq![subcommand@] + texts(file_args@.take(i + 1)));
        i = i + 1;
    }
    assert(file_args@.take(file_args@.len() as int) =~= file_args@);
    let mut j: usize = 0;
    while j < filter_args.len()
        invariant
            0 <= j <= filter_args@.len(),
            str_texts(args@) == seq![subcommand@] + texts(file_args@) + texts(
                filter_args@.take(j as int),
            ),
        decreases filter_args.len() - j,
    {
        let ghost prev = args@;
        let x = filter_args[j].as_str();
        args.push(x);
        assert(str_texts(args@) =~= str_texts(prev).push(x@));
        assert(texts(filter_args@.take(j + 1)) =~= texts(filter_args@.take(j as int)).push(
            filter_args@[j as int]@,
        ));
        assert(str_texts(args@) =~= seq![subcommand@] + texts(file_args@) + texts(
            filter_args@.take(j + 1),
        ));
        j = j + 1;
    }
    assert(filter_args@.take(filter_args@.len() as int) =~= filter_args@);
    args
}

/// The `-f` arguments for a user's journals: each journal, followed by its
/// manual-entries file when that exists.
pub open spec fn file_args(journals: Seq<(String, Option<String>)>) -> Seq<Seq<char>>
    decreases journals.len(),
{
    if journals.len() == 0 {
        Seq::empty()
    } else {
        let (path, sidecar) = journals.last();
        file_args(journals.drop_last()) + seq!["-f"@, path@] + match sidecar {
            Some(s) => seq!["-f"@, s@],
            None => Seq::empty(),
        }
    }
}

/// The journal arguments of a report: `journals` pairs each journal path
/// with the path of its manual-entries file when that file exists.  A user
/// without journals cannot run reports.
pub fn journal_file_args(journals: &[(String, Option<String>)]) -> (r: Result<
    Vec<String>,
    AppError,
>)
    ensures
        match r {
            Ok(args) => journals@.len() > 0 && texts(args@) == file_args(journals@),
            Err(e) => journals@.len() == 0 && e@ == ErrorView::BadRequest(
                "no journal data yet; upload or create a .journal file first"@,
            ),
        },
{
    if journals.len() == 0 {
        return Err(
            AppError::BadRequest(
                String::from_str("no journal data yet; upload or create a .journal file first"),
            ),
        );
    }
    let mut args: Vec<String> = Vec::new();
    let mut i: usize = 0;
    while i < journals.len()
        invariant
            0 <= i <= journals@.len(),
            texts(args@) == file_args(journals@.take(i as int)),
        decreases journals.len() - i,
    {
        let ghost prev = texts(args@);
        let (path, sidecar) = &journals[i];
        args.push(String::from_str("-f"));
        args.push(path.clone());
        match sidecar {
            Some(s) => {
                args.push(String::from_str("-f"));
                args.push(s.clone());
            },
            None => {},
        }
        assert(journals@.take(i + 1).drop_last() =~= journals@.take(i as int));
        assert(texts(args@) =~= prev + seq!["-f"@, path@] + match sidecar {
            Some(s) => seq!["-f"@, s@],
            None => Seq::<Seq<char>>::empty(),
        });
        i = i + 1;
    }
    assert(journals@.take(journals@.len() as int) =~= journals@);
    Ok(args)
}

} // verus!
