//! Bindings for the output of `ichiran-cli`, the Japanese morphological analyzer.
use vstd::prelude::*;

pub mod decode;
pub mod json;
pub mod raw;
pub mod rusty;

pub use self::decode::{decode_document, PathSegment, SchemaError};
pub use self::json::{json_of_text, parse_json, Json, JsonError, JsonModel};

pub use self::rusty::{
    normalize, Alternative, CompoundWordInfo, Conj, ConjProp, Counter, Gloss, Segment, Segmentation,
    Via, Word, WordInfo,
};

verus! {

#[verifier::external_type_specification]
#[verifier::external_body]
pub struct ExPathBuf(std::path::PathBuf);

#[verifier::external_type_specification]
#[verifier::external_body]
pub struct ExIoError(std::io::Error);

#[verifier::external_type_specification]
#[verifier::external_body]
pub struct ExFromUtf8Error(std::string::FromUtf8Error);

#[verifier::external_type_specification]
#[verifier::external_body]
pub struct ExJsonError(serde_json::Error);

/// Everything that can go wrong while running `ichiran-cli` and reading its output.
#[derive(Debug)]
pub enum IchiranError {
    /// The program could not be run.
    CommandError(std::io::Error),
    /// Its output is not valid UTF-8.
    InvalidUtf8(std::string::FromUtf8Error),
    /// Its output does not have the expected shape; holds the output.
    UnexpectedOutput(String),
    /// It ran, and exited with a non-zero code.
    IchiranError { stdout: String, stderr: String },
    /// Its structured output is not JSON.
    InvalidJson(JsonError),
    /// Its structured output does not match the schema, at the given path.
    Deserialization(SchemaError),
}

/// Runs `ichiran-cli`, found at the given path.
#[derive(Debug)]
pub struct IchiranCli {
    cli_path: std::path::PathBuf,
}

impl IchiranCli {
    /// The path that this value runs.
    pub closed spec fn path(&self) -> std::path::PathBuf {
        self.cli_path
    }

    /// Takes a path to the `ichiran-cli` binary.
    pub fn new(cli_path: std::path::PathBuf) -> (r: Self)
        ensures
            r.path() == cli_path,
    {
        Self { cli_path }
    }

    /// The path of the binary.
    pub fn cli_path(&self) -> (r: &std::path::PathBuf)
        ensures
            *r == self.path(),
    {
        &self.cli_path
    }

    /// Reads the output of `ichiran-cli` run without flags: the romanized text,
    /// without the trailing newline.
    pub fn romanize(&self, stdout: &str) -> (r: String)
        ensures
            r@ == trimmed_end(stdout@),
            stdout@.len() == 0 ==> r@.len() == 0,
    {
        trim_trailing(stdout)
    }

    /// Reads the output of `ichiran-cli -i`: the romanized text on the first
    /// line, then one blank-line separated stanza per word. Fails with
    /// `UnexpectedOutput` exactly when the output has no line.
    pub fn romanize_with_info(&self, stdout: &str) -> (r: Result<RomanizedWithInfo, IchiranError>)
        ensures
            lines_of(stdout@).len() == 0 <==> r is Err,
            r matches Err(e) ==> e matches IchiranError::UnexpectedOutput(s) && s@ == stdout@,
            r matches Ok(info) ==> info@ == report_of(lines_of(stdout@)),
    {
        let lines = split_lines(stdout);
        report_from_lines(stdout, &lines)
    }

    /// Reads the output of `ichiran-cli -f` and normalizes it: the segments of
    /// the document that `stdout` holds, each normalized. Fails as
    /// `decode_structured` does.
    pub fn segment(&self, stdout: &str, strict: bool) -> (r: Result<Vec<Segment>, IchiranError>)
        ensures
            r is Ok <==> reads_document(stdout@, strict),
            r matches Ok(v) ==> exists|d: raw::FullSplitInfo|
                #[trigger] read_as(stdout@, strict, d) && rusty::segment_views(v@) == rusty::segments_of(d.0@),
            structured_failure(stdout@, strict, r),
    {
        let doc = match decode_structured(stdout, strict) {
            Ok(doc) => doc,
            Err(e) => return Err(e),
        };
        let ghost d = doc;
        let out = normalize(doc);
        assert(read_as(stdout@, strict, d) && rusty::segment_views(out@) == rusty::segments_of(d.0@));
        Ok(out)
    }
}

/// The text holds a JSON value, nested within `MAX_DEPTH`, that reads as a
/// document.
pub open spec fn reads_document(text: Seq<char>, strict: bool) -> bool {
    json_of_text(text) matches Some(m) && json::fits(m, json::MAX_DEPTH as nat) && forall|j: Json|
        j@ == m ==> #[trigger] decode::document_ok(j, strict)
}

/// The JSON value that the text holds reads as the document `d`.
pub open spec fn read_as(text: Seq<char>, strict: bool, d: raw::FullSplitInfo) -> bool {
    forall|j: Json| Some(j@) == json_of_text(text) ==> #[trigger] decode::document_is(j, strict, d)
}

/// How reading structured output fails: with a syntax error exactly when
/// serde_json refuses the text, with `TooDeep` exactly when the value nests
/// deeper than `MAX_DEPTH`, and otherwise with a schema error whose path
/// leads through the value to where it does not match.
pub open spec fn structured_failure<T>(text: Seq<char>, strict: bool, r: Result<T, IchiranError>) -> bool {
    &&& (json_of_text(text) is None ==> r matches Err(IchiranError::InvalidJson(JsonError::Syntax(_))))
    &&& (r matches Err(IchiranError::InvalidJson(e)) ==> (e is Syntax <==> json_of_text(text) is None) && (e is TooDeep
        <==> (json_of_text(text) matches Some(m) && !json::fits(m, json::MAX_DEPTH as nat))))
    &&& (r matches Err(IchiranError::Deserialization(e)) ==> exists|j: Json|
        Some(j@) == json_of_text(text) && !decode::document_ok(j, strict) && #[trigger] decode::leads_to(j, e.path@))
    &&& (r matches Err(e) ==> e is InvalidJson || e is Deserialization)
}

/// Reads the structured output of `ichiran-cli -f` into the raw types: the
/// document that the JSON value read by serde_json from `text` reads as. It
/// succeeds exactly when that value is within `MAX_DEPTH` and matches the
/// schema.
pub fn decode_structured(text: &str, strict: bool) -> (r: Result<raw::FullSplitInfo, IchiranError>)
    ensures
        r is Ok <==> reads_document(text@, strict),
        r matches Ok(d) ==> read_as(text@, strict, d),
        structured_failure(text@, strict, r),
{
    let j = match parse_json(text) {
        Ok(j) => j,
        Err(e) => return Err(IchiranError::InvalidJson(e)),
    };
    let ghost value = j;
    match decode_document(j, strict) {
        Ok(d) => {
            assert forall|k: Json| Some(k@) == json_of_text(text@) implies #[trigger] decode::document_is(k, strict, d)
                && decode::document_ok(k, strict) by {
                decode::lemma_same_document(value, k, strict);
            }
            assert(json_of_text(text@) == Some(value@) && json::fits(value@, json::MAX_DEPTH as nat));
            assert forall|k: Json| k@ == value@ implies #[trigger] decode::document_ok(k, strict) by {
                decode::lemma_same_document(value, k, strict);
            }
            assert(reads_document(text@, strict));
            Ok(d)
        },
        Err(e) => {
            let ghost path = e.path@;
            assert(!decode::document_ok(value, strict) && decode::leads_to(value, path));
            let r: Result<raw::FullSplitInfo, IchiranError> = Err(IchiranError::Deserialization(e));
            assert(r->Err_0->Deserialization_0.path@ == path);
            r
        },
    }
}

/// What `str::lines` yields for a text: the text cut at each "\n" or "\r\n",
/// without the terminators.
pub uninterp spec fn lines_of(text: Seq<char>) -> Seq<Seq<char>>;

/// What `str::trim_end` leaves of a text: the text without its trailing whitespace.
pub uninterp spec fn trimmed_end(text: Seq<char>) -> Seq<char>;

/// Relies on `str::lines`: the lines of the text, each as an owned string.
#[verifier::external_body]
fn split_lines(text: &str) -> (r: Vec<String>)
    ensures
        views_of(r@) == lines_of(text@),
{
    text.lines().map(|l| l.to_string()).collect()
}

/// Relies on `str::trim_end`: the text without its trailing whitespace, which
/// is a prefix of the text.
#[verifier::external_body]
fn trim_trailing(text: &str) -> (r: String)
    ensures
        r@ == trimmed_end(text@),
        r@.len() <= text@.len(),
        r@ == text@.subrange(0, r@.len() as int),
{
    text.trim_end().to_string()
}

/// The views of a sequence of strings.
pub open spec fn views_of(v: Seq<String>) -> Seq<Seq<char>> {
    v.map_values(|s: String| s@)
}

/// The result of `ichiran-cli -i`: the romanized input, and one entry per word.
#[derive(Debug, Clone, PartialEq, Eq)]
pub struct RomanizedWithInfo {
    pub romanized: String,
    pub entries: Vec<RomanizedWithInfoEntry>,
}

/// A word header line, and the lines that follow it up to the next blank line.
#[derive(Debug, Clone, PartialEq, Eq)]
pub struct RomanizedWithInfoEntry {
    pub word: String,
    pub alternatives: Vec<String>,
}

/// An entry as a header and its lines.
pub type EntryView = (Seq<char>, Seq<Seq<char>>);

impl View for RomanizedWithInfoEntry {
    type V = EntryView;

    open spec fn view(&self) -> EntryView {
        (self.word@, views_of(self.alternatives@))
    }
}

impl View for RomanizedWithInfo {
    type V = (Seq<char>, Seq<EntryView>);

    open spec fn view(&self) -> (Seq<char>, Seq<EntryView>) {
        (self.romanized@, entry_views(self.entries@))
    }
}

/// The views of a sequence of entries.
pub open spec fn entry_views(v: Seq<RomanizedWithInfoEntry>) -> Seq<EntryView> {
    v.map_values(|e: RomanizedWithInfoEntry| e@)
}

/// The entries that a run of report lines yields, given the entry that is open
/// before them. A blank line closes the open entry, if any; a non-blank line
/// opens an entry when none is open and is added to the open one otherwise.
/// An entry still open when the lines run out is closed there.
pub open spec fn group_entries(lines: Seq<Seq<char>>, open: Option<EntryView>) -> Seq<EntryView>
    decreases lines.len(),
{
    if lines.len() == 0 {
        match open {
            Some(e) => seq![e],
            None => seq![],
        }
    } else {
        let line = lines[0];
        let rest = lines.drop_first();
        if line.len() == 0 {
            match open {
                Some(e) => seq![e] + group_entries(rest, None),
                None => group_entries(rest, None),
            }
        } else {
            match open {
                Some(e) => group_entries(rest, Some((e.0, e.1.push(line)))),
                None => group_entries(rest, Some((line, seq![]))),
            }
        }
    }
}

/// The entry that is open while the automaton has read `word` and `alternatives`.
pub open spec fn open_entry(word: Option<String>, alternatives: Seq<String>) -> Option<EntryView> {
    match word {
        Some(w) => Some((w@, views_of(alternatives))),
        None => None,
    }
}

/// The whole report as its lines give it: the first line, trimmed at its end,
/// is the romanization; the remaining lines are grouped into entries.
pub open spec fn report_of(lines: Seq<Seq<char>>) -> (Seq<char>, Seq<EntryView>) {
    (trimmed_end(lines[0]), group_entries(lines.drop_first(), None))
}

/// Reads the report of `ichiran-cli -i` from the lines of its output `stdout`.
/// Fails with `UnexpectedOutput`, holding the output, exactly when there is no line.
pub fn report_from_lines(stdout: &str, lines: &Vec<String>) -> (r: Result<RomanizedWithInfo, IchiranError>)
    ensures
        lines@.len() == 0 <==> r is Err,
        r matches Err(e) ==> e matches IchiranError::UnexpectedOutput(s) && s@ == stdout@,
        r matches Ok(info) ==> info@ == report_of(views_of(lines@)),
        r matches Ok(info) ==> info.romanized@.len() <= lines@[0]@.len(),
{
    if lines.len() == 0 {
        return Err(IchiranError::UnexpectedOutput(stdout.to_owned()));
    }
    let romanized = trim_trailing(lines[0].as_str());
    let ghost all = views_of(lines@);
    let ghost n = lines@.len() as int;
    let mut entries: Vec<RomanizedWithInfoEntry> = Vec::new();
    let mut word: Option<String> = None;
    let mut alternatives: Vec<String> = Vec::new();
    let mut i: usize = 1;
    assert(all.subrange(1, n) =~= all.drop_first());
    while i < lines.len()
        invariant
            1 <= i <= lines@.len(),
            n == lines@.len(),
            all == views_of(lines@),
            word is None ==> alternatives@.len() == 0,
            entry_views(entries@) + group_entries(all.subrange(i as int, n), open_entry(word, alternatives@))
                == group_entries(all.drop_first(), None),
        decreases lines@.len() - i,
    {
        let line = &lines[i];
        let ghost rest = all.subrange(i as int, n);
        assert(rest.drop_first() =~= all.subrange(i + 1, n));
        assert(rest[0] == line@);
        if line.as_str().is_empty() {
            match word {
                Some(w) => {
                    let ghost e = (w@, views_of(alternatives@));
                    let ghost before = entry_views(entries@);
                    entries.push(RomanizedWithInfoEntry { word: w, alternatives });
                    assert(entry_views(entries@) =~= before.push(e));
                    assert(before.push(e) + group_entries(all.subrange(i + 1, n), None)
                        =~= before + (seq![e] + group_entries(all.subrange(i + 1, n), None)));
                    word = None;
                    alternatives = Vec::new();
                },
                None => {},
            }
        } else {
            match word {
                Some(_) => {
                    let ghost old_alts = alternatives@;
                    alternatives.push(line.clone());
                    assert(views_of(alternatives@) =~= views_of(old_alts).push(line@));
                },
                None => {
                    word = Some(line.clone());
                    assert(views_of(alternatives@) =~= seq![]);
                },
            }
        }
        i = i + 1;
    }
    assert(all.subrange(i as int, n) =~= seq![]);
    match word {
        Some(w) => {
            let ghost e = (w@, views_of(alternatives@));
            let ghost before = entry_views(entries@);
            entries.push(RomanizedWithInfoEntry { word: w, alternatives });
            assert(entry_views(entries@) =~= before.push(e));
            assert(before + seq![e] =~= before.push(e));
        },
        None => {
            assert(entry_views(entries@) + seq![] =~= entry_views(entries@));
        },
    }
    Ok(RomanizedWithInfo { romanized, entries })
}

/// A report whose only line is blank has no entries.
pub proof fn lemma_blank_report(lines: Seq<Seq<char>>)
    requires
        lines.len() == 1,
        lines[0].len() == 0,
    ensures
        report_of(lines).1 == Seq::<EntryView>::empty(),
{
    assert(lines.drop_first() =~= Seq::<Seq<char>>::empty());
}

} // verus!
