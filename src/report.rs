//! Display names of projects, and which projects are tracked.

use vstd::prelude::*;
use vstd::string::{StrSliceExecFns, StringExecFns};

use crate::text::{contains_str, find_str, first_from, has_substring, lemma_first_from_found};

verus! {

/// Display name of work outside any tracked project.
pub const OTHER_NAME: &'static str = "Inne";

/// Prefix of a project label, before the tracked directory's name.
pub const LABEL_HOME: &'static str = "-home-jarx-";

/// Which directory holds the tracked projects, and which projects are left out.
pub struct ProjectsConfig {
    pub tracked_path: String,
    pub excluded_projects: Vec<String>,
}

impl Default for ProjectsConfig {
    fn default() -> (r: ProjectsConfig)
        ensures
            r.tracked_path@ == "Programowanie"@,
            r.excluded_projects@.len() == 0,
    {
        ProjectsConfig { tracked_path: String::from_str("Programowanie"), excluded_projects: Vec::new() }
    }
}

/// `s` with every occurrence of the non-empty `p` removed, scanning from the left.
pub open spec fn remove_all(s: Seq<char>, p: Seq<char>) -> Seq<char>
    decreases s.len(),
{
    let i = first_from(s, p, 0);
    if p.len() == 0 || i < 0 || i + p.len() > s.len() {
        s
    } else {
        s.subrange(0, i) + remove_all(s.subrange(i + p.len(), s.len() as int), p)
    }
}

/// Index of the first character from `i` on that is not `c`, or the length.
pub open spec fn skip_from(s: Seq<char>, c: char, i: int) -> int
    decreases s.len() - i,
{
    if i < 0 || i >= s.len() {
        s.len() as int
    } else if s[i] != c {
        i
    } else {
        skip_from(s, c, i + 1)
    }
}

/// One past the last character before `j` that is not `c`, or `lo` when none is from `lo` on.
pub open spec fn skip_back(s: Seq<char>, c: char, lo: int, j: int) -> int
    decreases j - lo,
{
    if j <= lo || j > s.len() {
        if j > s.len() { s.len() as int } else { lo }
    } else if s[j - 1] != c {
        j
    } else {
        skip_back(s, c, lo, j - 1)
    }
}

/// `s` without leading and trailing `c`.
pub open spec fn trim_char(s: Seq<char>, c: char) -> Seq<char> {
    let a = skip_from(s, c, 0);
    s.subrange(a, skip_back(s, c, a, s.len() as int))
}

/// The display name of a project label: the label with the tracked-directory
/// prefix removed and dashes trimmed, or the name for other work.
pub open spec fn display_name(raw: Seq<char>, base_dir: Seq<char>) -> Seq<char> {
    if raw.len() == 0 || !has_substring(raw, base_dir) {
        OTHER_NAME@
    } else {
        let name = trim_char(remove_all(raw, LABEL_HOME@ + base_dir + "-"@), '-');
        if name.len() == 0 {
            OTHER_NAME@
        } else {
            name
        }
    }
}

proof fn lemma_skip_from_bounds(s: Seq<char>, c: char, i: int)
    requires
        0 <= i <= s.len(),
    ensures
        i <= skip_from(s, c, i) <= s.len(),
    decreases s.len() - i,
{
    if i < s.len() && s[i] == c {
        lemma_skip_from_bounds(s, c, i + 1);
    }
}

proof fn lemma_skip_back_bounds(s: Seq<char>, c: char, lo: int, j: int)
    requires
        0 <= lo <= j <= s.len(),
    ensures
        lo <= skip_back(s, c, lo, j) <= j,
    decreases j - lo,
{
    if j > lo && s[j - 1] == c {
        lemma_skip_back_bounds(s, c, lo, j - 1);
    }
}

fn remove_all_str(s: &str, p: &str) -> (r: String)
    requires
        p@.len() > 0,
    ensures
        r@ == remove_all(s@, p@),
{
    let m = p.unicode_len();
    let mut out = String::new();
    let mut rest: &str = s;
    loop
        invariant
            m == p@.len(),
            m > 0,
            out@ + remove_all(rest@, p@) == remove_all(s@, p@),
        decreases rest@.len(),
    {
        let n = rest.unicode_len();
        match find_str(rest, p) {
            None => {
                out.append(rest);
                return out;
            },
            Some(i) => {
                proof {
                    lemma_first_from_found(rest@, p@, 0);
                }
                let head = rest.substring_char(0, i);
                let tail = rest.substring_char(i + m, n);
                let ghost before = rest@;
                out.append(head);
                rest = tail;
                assert(out@ + remove_all(rest@, p@) =~= remove_all(s@, p@)) by {
                    assert(remove_all(before, p@) == before.subrange(0, i as int) + remove_all(
                        tail@,
                        p@,
                    ));
                }
            },
        }
    }
}

fn trim_char_str(s: &str, c: char) -> (r: String)
    ensures
        r@ == trim_char(s@, c),
{
    let n = s.unicode_len();
    let mut a: usize = 0;
    while a < n && s.get_char(a) == c
        invariant
            n == s@.len(),
            a <= n,
            skip_from(s@, c, 0) == skip_from(s@, c, a as int),
        decreases n - a,
    {
        a = a + 1;
    }
    let mut b: usize = n;
    while b > a && s.get_char(b - 1) == c
        invariant
            n == s@.len(),
            a <= b <= n,
            skip_back(s@, c, a as int, n as int) == skip_back(s@, c, a as int, b as int),
        decreases b - a,
    {
        b = b - 1;
    }
    String::from_str(s.substring_char(a, b))
}

/// The display name of a project label in reports.
pub fn normalize_project_name(raw_name: &str, tracked_path: &str) -> (r: String)
    ensures
        r@ == display_name(raw_name@, tracked_path@),
{
    if raw_name.unicode_len() == 0 || !contains_str(raw_name, tracked_path) {
        return String::from_str(OTHER_NAME);
    }
    let mut pattern = String::from_str(LABEL_HOME);
    pattern.append(tracked_path);
    proof {
        reveal_strlit("-");
    }
    pattern.append("-");
    let removed = remove_all_str(raw_name, pattern.as_str());
    let name = trim_char_str(removed.as_str(), '-');
    if name.as_str().unicode_len() == 0 {
        String::from_str(OTHER_NAME)
    } else {
        name
    }
}

} // verus!
