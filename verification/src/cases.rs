//! Test-case files for the judge: where they are found and what they
//! hold. Reading from disk happens outside; this module holds the data
//! and the path decisions.

use vstd::prelude::*;

verus! {

/// Failures while locating or reading configuration.
#[derive(Debug)]
pub enum ReaderError {
    /// No configuration file could be found; the payload names it.
    NoConfigFile(String),
    /// A named file does not exist or clashes; the payload explains.
    FileNotFound(String),
    /// Any other failure, as text.
    General(String),
}

/// Where the test-case file is: given outright, or to be found by
/// trying the two YAML extensions.
pub enum TestCasePath {
    Specified(String),
    NoExtension(String),
}

impl TestCasePath {
    pub fn specified(path: String) -> (r: Self)
        ensures
            r matches TestCasePath::Specified(p) && p == path,
    {
        TestCasePath::Specified(path)
    }

    pub fn no_extension(path: String) -> (r: Self)
        ensures
            r matches TestCasePath::NoExtension(p) && p == path,
    {
        TestCasePath::NoExtension(path)
    }
}

/// One test: an input and the expected answer.
#[derive(Debug)]
pub struct TestCase {
    pub input: String,
    pub answer: String,
}

/// Limits the file may set; `None` leaves the default.
#[derive(Debug)]
pub struct LimitInfo {
    pub memory: Option<usize>,
    pub time: Option<u64>,
}

/// The parsed test-case file.
#[derive(Debug)]
pub struct TestCases {
    pub cases: Vec<TestCase>,
    pub limit: Option<LimitInfo>,
}

/// Missing limits resolve to no limits at all.
pub fn flatten_limit_info(limit: Option<LimitInfo>) -> (r: LimitInfo)
    ensures
        match limit {
            Some(l) => r == l,
            None => r.memory is None && r.time is None,
        },
{
    if let Some(l) = limit {
        l
    } else {
        LimitInfo { memory: None, time: None }
    }
}

/// Decides which of the two candidate YAML paths to use, given whether
/// each exists: exactly one must, both is a clash, neither means there
/// is no configuration.
pub fn resolve_yaml_path(
    yml_path: String,
    yaml_path: String,
    yml_exists: bool,
    yaml_exists: bool,
) -> (r: Result<String, ReaderError>)
    ensures
        yml_exists && !yaml_exists ==> (r matches Ok(p) && p == yml_path),
        !yml_exists && yaml_exists ==> (r matches Ok(p) && p == yaml_path),
        yml_exists && yaml_exists ==> (r matches Err(e) && e is FileNotFound),
        !yml_exists && !yaml_exists ==> (r matches Err(e) && e matches ReaderError::NoConfigFile(p)
            && p == yaml_path),
{
    match (yml_exists, yaml_exists) {
        (true, false) => Ok(yml_path),
        (false, true) => Ok(yaml_path),
        (true, true) => Err(
            ReaderError::FileNotFound(
                String::from_str("configuration clash: both a .yml and a .yaml file exist"),
            ),
        ),
        (false, false) => Err(ReaderError::NoConfigFile(yaml_path)),
    }
}

/// Index of the character after the last `/` of `s`, or zero: where the
/// file name starts.
pub open spec fn file_name_start(s: Seq<char>, upto: int) -> int
    decreases upto,
{
    if upto <= 0 {
        0
    } else if s[upto - 1] == '/' {
        upto
    } else {
        file_name_start(s, upto - 1)
    }
}

/// Index of the last `.` of the file name of `s`, or the length if the
/// name has no usable extension; a dot at the very start of the name
/// (a hidden file) does not count.
pub open spec fn ext_dot(s: Seq<char>, upto: int, name_start: int) -> int
    decreases upto,
{
    if upto <= name_start || upto <= 0 {
        s.len() as int
    } else if s[upto - 1] == '.' && upto - 1 > name_start {
        upto - 1
    } else {
        ext_dot(s, upto - 1, name_start)
    }
}

/// The final `/`-separated component of `s` names no file: it is empty
/// (a bare directory path or the empty path) or a parent-directory
/// reference, so there is no extension to replace.
pub open spec fn no_file_name(s: Seq<char>) -> bool {
    let fns = file_name_start(s, s.len() as int);
    fns == s.len() || (s.len() - fns == 2 && s[fns] == '.' && s[fns + 1] == '.')
}

/// The path with its extension replaced: the part after the file name's
/// last dot is dropped, and `.new_extension` appended when the new
/// extension is non-empty; a path without a final file name is returned
/// unchanged.
pub open spec fn changed_extension(s: Seq<char>, ext: Seq<char>) -> Seq<char> {
    if no_file_name(s) {
        s
    } else {
        let stem = s.take(ext_dot(s, s.len() as int, file_name_start(s, s.len() as int)));
        if ext.len() == 0 {
            stem
        } else {
            stem + seq!['.'] + ext
        }
    }
}

/// Replaces the extension of a path held as a string, treating `/` as
/// the directory separator; an empty new extension strips the old one,
/// and a path whose final component is empty or `..` is returned
/// unchanged (a dot component counts as an ordinary name).
pub fn change_extension(path: &String, new_extension: &String) -> (r: String)
    ensures
        r@ == changed_extension(path@, new_extension@),
{
    let ghost s = path@;
    let n = path.as_str().unicode_len();

    // where the file name starts
    let mut name_start: usize = n;
    let mut at_slash = false;
    while name_start > 0 && !at_slash
        invariant
            name_start <= n,
            n == s.len(),
            s == path@,
            at_slash ==> name_start > 0 && s[name_start as int - 1] == '/',
            file_name_start(s, s.len() as int) == if at_slash {
                name_start as int
            } else {
                file_name_start(s, name_start as int)
            },
        decreases name_start + if at_slash { 0int } else { 1int },
    {
        let c = path.as_str().get_char(name_start - 1);
        if c == '/' {
            at_slash = true;
        } else {
            name_start = name_start - 1;
        }
    }
    proof {
        assert(file_name_start(s, s.len() as int) == name_start as int);
    }

    // nothing to do when the path names no file
    if name_start == n {
        return path.clone();
    }
    if n - name_start == 2 {
        let c0 = path.as_str().get_char(name_start);
        let c1 = path.as_str().get_char(name_start + 1);
        if c0 == '.' && c1 == '.' {
            return path.clone();
        }
    }

    // the dot that starts the extension
    let mut cut: usize = n;
    let mut probe: usize = n;
    let mut found = false;
    while probe > name_start && !found
        invariant
            name_start <= probe <= n,
            n == s.len(),
            s == path@,
            found ==> cut < n,
            !found ==> cut == n,
            ext_dot(s, s.len() as int, name_start as int) == if found {
                cut as int
            } else {
                ext_dot(s, probe as int, name_start as int)
            },
        decreases probe + if found { 0int } else { 1int },
    {
        let c = path.as_str().get_char(probe - 1);
        if c == '.' && probe - 1 > name_start {
            cut = probe - 1;
            found = true;
        } else {
            probe = probe - 1;
        }
    }
    proof {
        assert(ext_dot(s, s.len() as int, name_start as int) == cut as int);
    }

    let stem = path.as_str().substring_char(0, cut);
    let mut out = String::from_str(stem);
    if new_extension.as_str().unicode_len() > 0 {
        out.append(".");
        out.append(new_extension.as_str());
        proof {
            reveal_strlit(".");
            assert(("."@) =~= seq!['.']);
            assert(out@ =~= changed_extension(path@, new_extension@));
        }
    } else {
        proof {
            assert(out@ =~= changed_extension(path@, new_extension@));
        }
    }
    out
}

} // verus!
