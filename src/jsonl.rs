//! Which activity-log files are read, and which source label each event gets.

use vstd::prelude::*;
use vstd::string::{StrSliceExecFns, StringExecFns};

use crate::attribution::BACKGROUND_LABEL;
use crate::calendar::{CalDate, MAX_ORDINAL, MIN_ORDINAL};
use crate::text::{
    char_from, contains_str, find_char_from, find_str, first_from, has_substring,
    lemma_first_from_found, replace_char, replace_char_str,
};

verus! {

/// Path segment under which tracked projects live.
pub const TRACKED_MARKER: &'static str = "/Programowanie/";

/// Label prefix of a project found under the tracked directory.
pub const PROJECT_PREFIX: &'static str = "-home-jarx-Programowanie-";

/// Path segment of logs written by sub-agents, which are not read.
pub const SUBAGENTS_SEGMENT: &'static str = "/subagents/";

/// Extension of activity-log files.
pub const LOG_EXTENSION: &'static str = "jsonl";

/// Directory name that holds the per-project log directories.
pub const PROJECTS_DIR: &'static str = "projects";

/// Label of a log whose project cannot be told.
pub const UNKNOWN_LABEL: &'static str = "unknown";

/// The file-path arguments of a tool call, as a log record gives them.
pub struct ToolInput {
    pub file_path: Option<String>,
    pub path: Option<String>,
    pub workdir: Option<String>,
}

/// The fields of a log record that the engine reads.
pub struct JsonlEntry {
    pub timestamp: Option<String>,
    pub session_id: Option<String>,
    pub tool_input: Option<ToolInput>,
}

pub open spec fn opt_view(o: Option<String>) -> Option<Seq<char>> {
    match o {
        Some(s) => Some(s@),
        None => None,
    }
}

/// The first of the tool call's file path, path and working directory that is given.
pub open spec fn tool_path(t: ToolInput) -> Option<Seq<char>> {
    if t.file_path is Some {
        opt_view(t.file_path)
    } else if t.path is Some {
        opt_view(t.path)
    } else {
        opt_view(t.workdir)
    }
}

/// The project label of a path below the tracked directory: the directory
/// right after the first tracked marker, with `_` written as `-`.
pub open spec fn project_from_path(fp: Seq<char>) -> Option<Seq<char>> {
    let i = first_from(fp, TRACKED_MARKER@, 0);
    if i == -1 {
        None
    } else {
        let start = i + TRACKED_MARKER@.len();
        let name = fp.subrange(start, char_from(fp, '/', start));
        if name.len() == 0 {
            None
        } else {
            Some(PROJECT_PREFIX@ + replace_char(name, '_', '-'))
        }
    }
}

pub open spec fn entry_project(e: JsonlEntry) -> Option<Seq<char>> {
    match e.tool_input {
        None => None,
        Some(t) => match tool_path(t) {
            None => None,
            Some(fp) => project_from_path(fp),
        },
    }
}

/// The project that a background record's tool call points at, if any.
pub fn extract_project_from_tool_input(entry: &JsonlEntry) -> (r: Option<String>)
    ensures
        opt_view(r) == entry_project(*entry),
{
    let tool_input = match &entry.tool_input {
        Some(t) => t,
        None => return None,
    };
    let file_path: &String = match &tool_input.file_path {
        Some(p) => p,
        None => match &tool_input.path {
            Some(p) => p,
            None => match &tool_input.workdir {
                Some(p) => p,
                None => return None,
            },
        },
    };
    let fp = file_path.as_str();
    let i = match find_str(fp, TRACKED_MARKER) {
        Some(i) => i,
        None => return None,
    };
    proof {
        lemma_first_from_found(fp@, TRACKED_MARKER@, 0);
    }
    let _length = fp.unicode_len();
    let start = i + TRACKED_MARKER.unicode_len();
    let end = find_char_from(fp, '/', start);
    if end == start {
        return None;
    }
    let name = fp.substring_char(start, end);
    proof {
        reveal_strlit("-");
    }
    let normalized = replace_char_str(name, '_', "-");
    let mut label = String::from_str(PROJECT_PREFIX);
    label.append(normalized.as_str());
    Some(label)
}

/// The source label of a record: for background logs the project that its tool
/// call points at, when there is one; else the label of the log file.
pub fn project_of_record(default_project: &String, entry: &JsonlEntry) -> (r: String)
    ensures
        r@ == if default_project@ == BACKGROUND_LABEL@ && entry_project(*entry) is Some {
            entry_project(*entry)->0
        } else {
            default_project@
        },
{
    let background = String::from_str(BACKGROUND_LABEL);
    if *default_project == background {
        match extract_project_from_tool_input(entry) {
            Some(p) => p,
            None => default_project.clone(),
        }
    } else {
        default_project.clone()
    }
}

/// The path of the parent directory, as `Path::parent` gives it.
pub uninterp spec fn parent_of(path: Seq<char>) -> Option<Seq<char>>;

/// The last component of a path, as `Path::file_name` gives it.
pub uninterp spec fn file_name_of(path: Seq<char>) -> Option<Seq<char>>;

/// The extension of a path's file name, as `Path::extension` gives it.
pub uninterp spec fn extension_of(path: Seq<char>) -> Option<Seq<char>>;

/// Relies on std's `Path::parent`: the path without its last component, or
/// `None` for a root or an empty path. A part of a `&str` is valid UTF-8.
#[verifier::external_body]
fn path_parent(path: &str) -> (r: Option<String>)
    ensures
        opt_view(r) == parent_of(path@),
{
    std::path::Path::new(path).parent().map(|p| p.to_string_lossy().into_owned())
}

/// Relies on std's `Path::file_name`: the final component unless it is `..`,
/// `None` where there is none.
#[verifier::external_body]
fn path_file_name(path: &str) -> (r: Option<String>)
    ensures
        opt_view(r) == file_name_of(path@),
{
    std::path::Path::new(path).file_name().map(|n| n.to_string_lossy().into_owned())
}

/// Relies on std's `Path::extension`: the part of the file name after its last
/// `.`, `None` where the name has no such dot or starts with its only one.
#[verifier::external_body]
fn path_extension(path: &str) -> (r: Option<String>)
    ensures
        opt_view(r) == extension_of(path@),
{
    std::path::Path::new(path).extension().map(|e| e.to_string_lossy().into_owned())
}

/// Name of the directory that holds a file, or empty.
pub open spec fn parent_dir_name(path: Seq<char>) -> Seq<char> {
    match parent_of(path) {
        Some(p) => match file_name_of(p) {
            Some(n) => n,
            None => Seq::empty(),
        },
        None => Seq::empty(),
    }
}

/// The label of a log file: background logs are those with "transcripts" in
/// their path; another log takes the name of its directory, unless that is
/// empty or the projects directory itself.
pub open spec fn log_label(path: Seq<char>) -> Seq<char> {
    if has_substring(path, BACKGROUND_LABEL@) {
        BACKGROUND_LABEL@
    } else if parent_dir_name(path).len() > 0 && parent_dir_name(path) != PROJECTS_DIR@ {
        parent_dir_name(path)
    } else {
        UNKNOWN_LABEL@
    }
}

/// The source label of every record of the log file at `path`.
pub fn extract_project_name(path: &str) -> (r: String)
    ensures
        r@ == log_label(path@),
{
    if contains_str(path, BACKGROUND_LABEL) {
        return String::from_str(BACKGROUND_LABEL);
    }
    let parent_name = match path_parent(path) {
        Some(p) => match path_file_name(p.as_str()) {
            Some(n) => n,
            None => String::new(),
        },
        None => String::new(),
    };
    let projects = String::from_str(PROJECTS_DIR);
    if parent_name.as_str().unicode_len() > 0 && !(parent_name == projects) {
        parent_name
    } else {
        String::from_str(UNKNOWN_LABEL)
    }
}

/// A file met while walking the log directories, with the local date of its
/// last change when that is known.
pub struct FileCandidate {
    pub path: String,
    pub is_file: bool,
    pub modified: Option<CalDate>,
}

pub open spec fn date_view(d: Option<CalDate>) -> Option<int> {
    match d {
        Some(x) => Some(x.ordinal as int),
        None => None,
    }
}

/// A walked file is read: a regular `.jsonl` file outside sub-agent logs,
/// changed on the filter date and not before the cutoff (a file without a
/// known change date passes both).
pub open spec fn keep_file(c: FileCandidate, date_filter: Option<int>, min_date: Option<int>) -> bool {
    &&& c.is_file
    &&& extension_of(c.path@) == Some(LOG_EXTENSION@)
    &&& !has_substring(c.path@, SUBAGENTS_SEGMENT@)
    &&& match date_view(c.modified) {
        None => true,
        Some(m) => (date_filter is None || date_filter == Some(m)) && (min_date is None || m
            >= min_date->0),
    }
}

/// Paths of the first `n` candidates that are read, in order.
pub open spec fn kept_files(
    cs: Seq<FileCandidate>,
    date_filter: Option<int>,
    min_date: Option<int>,
    n: int,
) -> Seq<Seq<char>>
    decreases n,
{
    if n <= 0 {
        seq![]
    } else if keep_file(cs[n - 1], date_filter, min_date) {
        kept_files(cs, date_filter, min_date, n - 1).push(cs[n - 1].path@)
    } else {
        kept_files(cs, date_filter, min_date, n - 1)
    }
}

pub open spec fn path_views(s: Seq<String>) -> Seq<Seq<char>> {
    s.map_values(|p: String| p@)
}

/// The activity logs among walked files, changed on `date_filter` when it is
/// given and not before `min_date` when it is given.
pub fn find_jsonl_files(
    candidates: &Vec<FileCandidate>,
    date_filter: Option<CalDate>,
    min_date: Option<CalDate>,
) -> (r: Vec<String>)
    ensures
        path_views(r@) == kept_files(
            candidates@,
            date_view(date_filter),
            date_view(min_date),
            candidates@.len() as int,
        ),
{
    let mut files: Vec<String> = Vec::new();
    let mut i: usize = 0;
    while i < candidates.len()
        invariant
            i <= candidates@.len(),
            path_views(files@) == kept_files(candidates@, date_view(date_filter), date_view(min_date), i as int),
        decreases candidates.len() - i,
    {
        let c = &candidates[i];
        let ext_ok = match path_extension(c.path.as_str()) {
            Some(e) => e == String::from_str(LOG_EXTENSION),
            None => false,
        };
        let date_ok = match c.modified {
            None => true,
            Some(m) => {
                let on_day = match date_filter {
                    None => true,
                    Some(f) => f.ordinal == m.ordinal,
                };
                let recent = match min_date {
                    None => true,
                    Some(cutoff) => m.ordinal >= cutoff.ordinal,
                };
                on_day && recent
            },
        };
        let ghost prev = files@;
        if c.is_file && ext_ok && !contains_str(c.path.as_str(), SUBAGENTS_SEGMENT) && date_ok {
            files.push(c.path.clone());
            assert(path_views(files@) =~= path_views(prev).push(c.path@));
        }
        i = i + 1;
    }
    files
}

/// All activity logs among walked files.
pub fn find_all_jsonl_files(candidates: &Vec<FileCandidate>) -> (r: Vec<String>)
    ensures
        path_views(r@) == kept_files(candidates@, None, None, candidates@.len() as int),
{
    find_jsonl_files(candidates, None, None)
}

/// The activity logs changed today.
pub fn find_today_jsonl_files(candidates: &Vec<FileCandidate>, today: CalDate) -> (r: Vec<String>)
    ensures
        path_views(r@) == kept_files(
            candidates@,
            Some(today.ordinal as int),
            None,
            candidates@.len() as int,
        ),
{
    find_jsonl_files(candidates, Some(today), None)
}

/// The activity logs changed in the last `days` days.
pub fn find_recent_jsonl_files(candidates: &Vec<FileCandidate>, today: CalDate, days: i64) -> (r: Vec<
    String,
>)
    requires
        MIN_ORDINAL <= today.ordinal - days <= MAX_ORDINAL,
    ensures
        path_views(r@) == kept_files(
            candidates@,
            None,
            Some(today.ordinal - days),
            candidates@.len() as int,
        ),
{
    let cutoff = CalDate { ordinal: (today.ordinal as i64 - days) as i32 };
    find_jsonl_files(candidates, None, Some(cutoff))
}

} // verus!
