//! Running hledger: the arguments it is given and how its exit is judged.
use vstd::prelude::*;

use crate::error::{AppError, ErrorView};
use crate::json::{json_bytes_error, json_bytes_value, json_from_bytes};
use crate::text::texts;

verus! {

/// The arguments of a report run: the given ones, then the JSON output flag.
pub fn json_report_args(args: &[String]) -> (r: Vec<String>)
    ensures
        texts(r@) == texts(args@).push("--output-format=json"@),
{
    let mut r: Vec<String> = Vec::new();
    let mut i: usize = 0;
    while i < args.len()
        invariant
            0 <= i <= args.len(),
            texts(r@) == texts(args@.take(i as int)),
        decreases args.len() - i,
    {
        let ghost prev = r@;
        r.push(args[i].clone());
        assert(texts(r@) =~= texts(prev).push(args@[i as int]@));
        assert(texts(args@.take(i + 1)) =~= texts(args@.take(i as int)).push(args@[i as int]@));
        i = i + 1;
    }
    assert(args@.take(args@.len() as int) =~= args@);
    let ghost before = r@;
    r.push(String::from_str("--output-format=json"));
    assert(texts(r@) =~= texts(before).push("--output-format=json"@));
    r
}

/// How a finished hledger run is judged: a failed run is a `HledgerCommand`
/// error with its exit code (-1 when it has none, as when killed by a
/// signal) and its standard error.
pub fn command_result(success: bool, code: Option<i32>, stderr: String) -> (r: Result<(), AppError>)
    ensures
        r is Ok <==> success,
        !success ==> (r matches Err(e) && e@ == (ErrorView::HledgerCommand {
            exit_code: match code {
                Some(c) => c,
                None => -1i32,
            },
            stderr: stderr@,
        })),
{
    if success {
        Ok(())
    } else {
        let exit_code = match code {
            Some(c) => c,
            None => -1,
        };
        Err(AppError::HledgerCommand { exit_code, stderr })
    }
}

/// The JSON value a report run printed, read from exactly those bytes;
/// output that is not one JSON value is a `HledgerParse` error carrying the
/// parser's message.
pub fn parse_report_output(stdout: &[u8]) -> (r: Result<serde_json::Value, AppError>)
    ensures
        match r {
            Ok(v) => json_bytes_error(stdout@) is None && v == json_bytes_value(stdout@),
            Err(e) => json_bytes_error(stdout@) matches Some(m) && e@ == ErrorView::HledgerParse(m),
        },
{
    match json_from_bytes(stdout) {
        Ok(v) => Ok(v),
        Err(m) => Err(AppError::HledgerParse(m)),
    }
}

} // verus!
