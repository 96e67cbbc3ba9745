//! Stored files: their records, and the checks and names behind uploading,
//! converting and creating files.
use vstd::prelude::*;

use crate::error::{AppError, ErrorView};
use crate::filename::{
    extension_of, file_extension, journal_name_cuttable, normalize_journal_name,
    normalized_journal_name, sanitize_filename, sanitized, starts_ascii,
};
use crate::journal_settings::JournalSettingsData;
use crate::text::{push_signed, push_str, signed_decimal, str_eq, texts};

verus! {

/// Largest accepted upload, in bytes.
pub const MAX_FILE_SIZE: usize = 10485760;

/// Database row for the files table.
#[derive(Debug, Clone)]
pub struct FileRecord {
    pub id: i64,
    pub user_id: i64,
    pub filename: String,
    pub file_type: String,
    pub size_bytes: i64,
    pub disk_path: String,
    pub created_at: String,
}

/// API-facing file metadata (hides disk_path and user_id).
#[derive(Debug, Clone)]
pub struct FileInfo {
    pub id: i64,
    pub filename: String,
    pub file_type: String,
    pub size_bytes: i64,
    pub created_at: String,
}

impl From<FileRecord> for FileInfo {
    fn from(r: FileRecord) -> (info: Self) {
        FileInfo {
            id: r.id,
            filename: r.filename,
            file_type: r.file_type,
            size_bytes: r.size_bytes,
            created_at: r.created_at,
        }
    }
}

impl vstd::std_specs::convert::FromSpecImpl<FileRecord> for FileInfo {
    open spec fn obeys_from_spec() -> bool {
        true
    }

    open spec fn from_spec(r: FileRecord) -> Self {
        FileInfo {
            id: r.id,
            filename: r.filename,
            file_type: r.file_type,
            size_bytes: r.size_bytes,
            created_at: r.created_at,
        }
    }
}

/// The metadata of a stored file whose content now has `size_bytes` bytes.
pub fn file_info_with_size(file: &FileRecord, size_bytes: i64) -> (info: FileInfo)
    ensures
        info.id == file.id,
        info.filename@ == file.filename@,
        info.file_type@ == file.file_type@,
        info.size_bytes == size_bytes,
        info.created_at@ == file.created_at@,
{
    FileInfo {
        id: file.id,
        filename: file.filename.clone(),
        file_type: file.file_type.clone(),
        size_bytes,
        created_at: file.created_at.clone(),
    }
}

/// Which stored rules a CSV conversion uses.
#[derive(Debug, Clone)]
pub struct ConvertRequest {
    pub rules_file_id: Option<i64>,
    pub rules_config_id: Option<i64>,
}

/// A request to create an empty journal with the given settings.
#[derive(Debug, Clone)]
pub struct CreateJournalRequest {
    pub name: String,
    pub settings: Option<JournalSettingsData>,
}

// ---------------------------------------------------------------------------
// Uploads
// ---------------------------------------------------------------------------

/// The extensions an upload may have.
pub open spec fn allowed_extension(ext: Seq<char>) -> bool {
    ext == "journal"@ || ext == "csv"@ || ext == "rules"@
}

/// The checks on the name of an uploaded file: it must be given, survive
/// cleaning, have an extension, and the extension must be allowed.  On
/// success, the cleaned name and its extension.
pub open spec fn upload_name_check(original: Option<Seq<char>>) -> Result<
    (Seq<char>, Seq<char>),
    ErrorView,
> {
    match original {
        None => Err(ErrorView::BadRequest("missing filename in Content-Disposition"@)),
        Some(o) => match sanitized(o) {
            None => Err(ErrorView::BadRequest("invalid filename: "@ + o)),
            Some(f) => match extension_of(f) {
                None => Err(ErrorView::BadRequest("file must have an extension"@)),
                Some(ext) => if allowed_extension(ext) {
                    Ok((f, ext))
                } else {
                    Err(
                        ErrorView::BadRequest(
                            "unsupported file type '."@ + ext + "'; allowed: journal, csv, rules"@,
                        ),
                    )
                },
            },
        },
    }
}

/// Whether the extension of the cleaned name can be read without cutting
/// inside a character (see [`file_extension`]).
pub open spec fn upload_name_cuttable(original: Option<Seq<char>>) -> bool {
    match original {
        None => true,
        Some(o) => match sanitized(o) {
            None => true,
            Some(f) => starts_ascii(f),
        },
    }
}

/// Checks the name of an uploaded file; gives the cleaned name and its
/// extension.
pub fn check_upload_name(original_name: Option<&str>) -> (r: Result<(String, String), AppError>)
    requires
        upload_name_cuttable(
            match original_name {
                Some(o) => Some(o@),
                None => None,
            },
        ),
    ensures
        match r {
            Ok((f, ext)) => upload_name_check(
                match original_name {
                    Some(o) => Some(o@),
                    None => None,
                },
            ) == Ok::<(Seq<char>, Seq<char>), ErrorView>((f@, ext@)),
            Err(e) => upload_name_check(
                match original_name {
                    Some(o) => Some(o@),
                    None => None,
                },
            ) == Err::<(Seq<char>, Seq<char>), ErrorView>(e@),
        },
{
    let original = match original_name {
        None => {
            return Err(
                AppError::BadRequest(String::from_str("missing filename in Content-Disposition")),
            );
        },
        Some(o) => o,
    };
    let filename = match sanitize_filename(original) {
        None => {
            let mut m = String::from_str("invalid filename: ");
            push_str(&mut m, original);
            return Err(AppError::BadRequest(m));
        },
        Some(f) => f,
    };
    let ext = match file_extension(filename.as_str()) {
        None => {
            return Err(AppError::BadRequest(String::from_str("file must have an extension")));
        },
        Some(e) => e,
    };
    if !(str_eq(ext, "journal") || str_eq(ext, "csv") || str_eq(ext, "rules")) {
        let mut m = String::from_str("unsupported file type '.");
        push_str(&mut m, ext);
        push_str(&mut m, "'; allowed: journal, csv, rules");
        return Err(AppError::BadRequest(m));
    }
    let ext_owned = ext.to_owned();
    Ok((filename, ext_owned))
}

/// An upload is accepted exactly for the file types `journal`, `csv` and
/// `rules`: when its name survives cleaning and has an extension, it is
/// answered with the cleaned name and that extension if the extension is one
/// of those three, and refused as a bad request naming the extension
/// otherwise.
pub proof fn lemma_upload_types(original: Seq<char>, name: Seq<char>, ext: Seq<char>)
    requires
        sanitized(original) == Some(name),
        extension_of(name) == Some(ext),
    ensures
        (ext == "journal"@ || ext == "csv"@ || ext == "rules"@) ==> upload_name_check(
            Some(original),
        ) == Ok::<(Seq<char>, Seq<char>), ErrorView>((name, ext)),
        !(ext == "journal"@ || ext == "csv"@ || ext == "rules"@) ==> upload_name_check(
            Some(original),
        ) == Err::<(Seq<char>, Seq<char>), ErrorView>(
            ErrorView::BadRequest(
                "unsupported file type '."@ + ext + "'; allowed: journal, csv, rules"@,
            ),
        ),
{
}

/// Refuses uploads larger than [`MAX_FILE_SIZE`].
pub fn check_upload_size(len: usize) -> (r: Result<(), AppError>)
    ensures
        r is Err <==> len > MAX_FILE_SIZE,
        r matches Err(e) ==> e@ == ErrorView::PayloadTooLarge,
{
    if len > MAX_FILE_SIZE {
        Err(AppError::PayloadTooLarge)
    } else {
        Ok(())
    }
}

/// The name a file is stored under: a unique prefix, `_`, and its name.
pub fn stored_file_name(unique: &str, filename: &str) -> (r: String)
    ensures
        r@ == unique@ + "_"@ + filename@,
{
    let mut out = String::new();
    push_str(&mut out, unique);
    push_str(&mut out, "_");
    push_str(&mut out, filename);
    out
}

// ---------------------------------------------------------------------------
// Converting CSV files
// ---------------------------------------------------------------------------

/// `Err` with a `BadRequest` unless the file has the expected type:
/// `file <id> is not a <what> (type: <file_type>)`.
pub open spec fn type_check(id: i64, file_type: Seq<char>, expected: Seq<char>, what: Seq<char>) -> Result<
    (),
    ErrorView,
> {
    if file_type == expected {
        Ok(())
    } else {
        Err(
            ErrorView::BadRequest(
                "file "@ + signed_decimal(id as int) + " is not a "@ + what + " (type: "@
                    + file_type + ")"@,
            ),
        )
    }
}

fn check_file_type(id: i64, file_type: &str, expected: &str, what: &str) -> (r: Result<
    (),
    AppError,
>)
    ensures
        match r {
            Ok(()) => type_check(id, file_type@, expected@, what@) == Ok::<(), ErrorView>(()),
            Err(e) => type_check(id, file_type@, expected@, what@) == Err::<(), ErrorView>(e@),
        },
{
    if str_eq(file_type, expected) {
        Ok(())
    } else {
        let mut m = String::from_str("file ");
        push_signed(&mut m, id);
        push_str(&mut m, " is not a ");
        push_str(&mut m, what);
        push_str(&mut m, " (type: ");
        push_str(&mut m, file_type);
        push_str(&mut m, ")");
        Err(AppError::BadRequest(m))
    }
}

/// Only CSV files can be converted.
pub fn check_csv_file(id: i64, file_type: &str) -> (r: Result<(), AppError>)
    ensures
        match r {
            Ok(()) => type_check(id, file_type@, "csv"@, "CSV"@) == Ok::<(), ErrorView>(()),
            Err(e) => type_check(id, file_type@, "csv"@, "CSV"@) == Err::<(), ErrorView>(e@),
        },
{
    check_file_type(id, file_type, "csv", "CSV")
}

/// A rules file picked by id must be a rules file.
pub fn check_rules_file(id: i64, file_type: &str) -> (r: Result<(), AppError>)
    ensures
        match r {
            Ok(()) => type_check(id, file_type@, "rules"@, "rules file"@) == Ok::<(), ErrorView>(
                (),
            ),
            Err(e) => type_check(id, file_type@, "rules"@, "rules file"@) == Err::<(), ErrorView>(
                e@,
            ),
        },
{
    check_file_type(id, file_type, "rules", "rules file")
}

/// The name with every trailing `.csv` removed (`str::trim_end_matches`).
pub open spec fn csv_stem(name: Seq<char>) -> Seq<char>
    decreases name.len(),
{
    if name.len() >= 4 && name.skip(name.len() - 4) == ".csv"@ {
        csv_stem(name.take(name.len() - 4))
    } else {
        name
    }
}

fn ends_with_csv(v: &Vec<char>, end: usize) -> (b: bool)
    requires
        end <= v.len(),
    ensures
        b == (end >= 4 && v@.take(end as int).skip(end - 4) == ".csv"@),
{
    proof {
        reveal_strlit(".csv");
    }
    let ghost t = v@.take(end as int);
    if end < 4 {
        return false;
    }
    let b = v[end - 4] == '.' && v[end - 3] == 'c' && v[end - 2] == 's' && v[end - 1] == 'v';
    proof {
        let w = t.skip(end - 4);
        assert(w.len() == 4);
        assert(w[0] == v@[end - 4] && w[1] == v@[end - 3] && w[2] == v@[end - 2] && w[3]
            == v@[end - 1]);
        if b {
            assert(w =~= ".csv"@);
        }
        if w == ".csv"@ {
            assert(w[0] == '.' && w[1] == 'c' && w[2] == 's' && w[3] == 'v');
        }
    }
    b
}

/// The stem of a CSV file name (its name without trailing `.csv`s).
pub fn csv_file_stem(name: &str) -> (r: String)
    ensures
        r@ == csv_stem(name@),
{
    let v = crate::text::chars_of(name);
    let mut end: usize = v.len();
    assert(v@.take(end as int) =~= v@);
    while ends_with_csv(&v, end)
        invariant
            end <= v.len(),
            csv_stem(v@) == csv_stem(v@.take(end as int)),
        decreases end,
    {
        assert(v@.take(end as int).take(end - 4) =~= v@.take(end - 4));
        end = end - 4;
    }
    crate::text::string_from_range(&v, 0, end)
}

/// The name of the rules file looked for when converting a CSV file.
pub fn rules_name_for_csv(csv_filename: &str) -> (r: String)
    ensures
        r@ == csv_stem(csv_filename@) + ".rules"@,
{
    let mut out = csv_file_stem(csv_filename);
    push_str(&mut out, ".rules");
    out
}

/// The name of the journal a CSV file is converted into.
pub fn journal_name_for_csv(csv_filename: &str) -> (r: String)
    ensures
        r@ == csv_stem(csv_filename@) + ".journal"@,
{
    let mut out = csv_file_stem(csv_filename);
    push_str(&mut out, ".journal");
    out
}

/// Where the rules for a conversion come from.
#[derive(Debug, Clone)]
pub enum RulesSource {
    /// A stored rules config, by id.
    Config(i64),
    /// An uploaded rules file, by id.
    File(i64),
    /// The newest uploaded rules file with this name.
    ByName(String),
}

/// The rules for a conversion: the rules config when one is given, else the
/// rules file when one is given, else the rules file named after the CSV
/// file (`<stem>.rules`).
pub fn rules_source(req: &ConvertRequest, csv_filename: &str) -> (r: RulesSource)
    ensures
        match req.rules_config_id {
            Some(c) => r == RulesSource::Config(c),
            None => match req.rules_file_id {
                Some(f) => r == RulesSource::File(f),
                None => r matches RulesSource::ByName(n) && n@ == csv_stem(csv_filename@)
                    + ".rules"@,
            },
        },
{
    match req.rules_config_id {
        Some(c) => RulesSource::Config(c),
        None => match req.rules_file_id {
            Some(f) => RulesSource::File(f),
            None => RulesSource::ByName(rules_name_for_csv(csv_filename)),
        },
    }
}

/// The error when no rules file is named after the CSV file.
pub fn missing_rules_error(csv_filename: &str) -> (e: AppError)
    ensures
        e@ == ErrorView::BadRequest(
            "no rules file found for '"@ + csv_filename@
                + "'; upload a .rules file, specify rules_file_id, or use a rules config"@,
        ),
{
    let mut m = String::from_str("no rules file found for '");
    push_str(&mut m, csv_filename);
    push_str(&mut m, "'; upload a .rules file, specify rules_file_id, or use a rules config");
    AppError::BadRequest(m)
}

/// The hledger arguments that print a CSV file as a journal.
pub fn convert_command(csv_path: &str, rules_path: &str) -> (args: Vec<String>)
    ensures
        texts(args@) == seq!["print"@, "-f"@, csv_path@, "--rules-file"@, rules_path@],
{
    let mut args: Vec<String> = Vec::new();
    args.push(String::from_str("print"));
    args.push(String::from_str("-f"));
    args.push(csv_path.to_owned());
    args.push(String::from_str("--rules-file"));
    args.push(rules_path.to_owned());
    assert(texts(args@) =~= seq!["print"@, "-f"@, csv_path@, "--rules-file"@, rules_path@]);
    args
}

// ---------------------------------------------------------------------------
// Creating journals
// ---------------------------------------------------------------------------

/// The file name of a new journal: the normalised name, cleaned.
pub open spec fn journal_file_name_of(name: Seq<char>) -> Result<Seq<char>, ErrorView> {
    match normalized_journal_name(name) {
        Err(e) => Err(e),
        Ok(n) => match sanitized(n) {
            None => Err(ErrorView::BadRequest("invalid journal name: "@ + name)),
            Some(f) => Ok(f),
        },
    }
}

/// The file name for a journal the user asked to create under `name`.
pub fn journal_file_name(name: &str) -> (r: Result<String, AppError>)
    requires
        journal_name_cuttable(name@),
    ensures
        match r {
            Ok(f) => journal_file_name_of(name@) == Ok::<Seq<char>, ErrorView>(f@),
            Err(e) => journal_file_name_of(name@) == Err::<Seq<char>, ErrorView>(e@),
        },
{
    let normalized = normalize_journal_name(name)?;
    match sanitize_filename(normalized.as_str()) {
        None => {
            let mut m = String::from_str("invalid journal name: ");
            push_str(&mut m, name);
            Err(AppError::BadRequest(m))
        },
        Some(f) => Ok(f),
    }
}

/// Refuses a journal name the user already has.
pub fn check_journal_absent(exists: bool, filename: &str) -> (r: Result<(), AppError>)
    ensures
        r is Err <==> exists,
        r matches Err(e) ==> e@ == ErrorView::BadRequest(
            "a journal named '"@ + filename@ + "' already exists"@,
        ),
{
    if exists {
        let mut m = String::from_str("a journal named '");
        push_str(&mut m, filename);
        push_str(&mut m, "' already exists");
        Err(AppError::BadRequest(m))
    } else {
        Ok(())
    }
}

/// Journal settings belong to journals only.
pub fn check_journal_file(id: i64, file_type: &str) -> (r: Result<(), AppError>)
    ensures
        r is Err <==> file_type@ != "journal"@,
        r matches Err(e) ==> e@ == ErrorView::BadRequest(
            "file "@ + signed_decimal(id as int) + " is not a journal"@,
        ),
{
    if str_eq(file_type, "journal") {
        Ok(())
    } else {
        let mut m = String::from_str("file ");
        push_signed(&mut m, id);
        push_str(&mut m, " is not a journal");
        Err(AppError::BadRequest(m))
    }
}

} // verus!
