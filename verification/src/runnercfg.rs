//! The runner's argument and configuration decisions: which language a
//! file is judged as, and how command-line arguments and the test-case
//! file combine into one test description. Argument parsing and file
//! reading happen outside; this module takes their plain results.

use crate::cases::{flatten_limit_info, LimitInfo, ReaderError, TestCase};
use vstd::prelude::*;

verus! {

/// The runner's command-line arguments, already parsed.
#[derive(Debug)]
pub struct Args {
    pub file: String,
    pub config: Option<String>,
    pub lang: Option<ArgFileLang>,
    pub no_judge: bool,
    /// Milliseconds.
    pub time: Option<u64>,
    /// KiB.
    pub memory: Option<usize>,
    pub verbose: bool,
}

/// The languages selectable on the command line.
#[derive(Debug, Clone, Copy, PartialEq, Eq, Structural)]
pub enum ArgFileLang {
    C,
    Cpp,
    Java,
    Python,
    Rust,
    Go,
}

/// The languages the runner can judge, or an unknown extension.
#[derive(Debug, PartialEq, Eq)]
pub enum FileType {
    C,
    Cpp,
    Java,
    Python,
    Rust,
    Go,
    Unknown(String),
}

impl ArgFileLang {
    pub fn to_file_type(&self) -> (r: FileType)
        ensures
            r == match *self {
                ArgFileLang::C => FileType::C,
                ArgFileLang::Cpp => FileType::Cpp,
                ArgFileLang::Java => FileType::Java,
                ArgFileLang::Python => FileType::Python,
                ArgFileLang::Rust => FileType::Rust,
                ArgFileLang::Go => FileType::Go,
            },
    {
        match self {
            ArgFileLang::C => FileType::C,
            ArgFileLang::Cpp => FileType::Cpp,
            ArgFileLang::Java => FileType::Java,
            ArgFileLang::Python => FileType::Python,
            ArgFileLang::Rust => FileType::Rust,
            ArgFileLang::Go => FileType::Go,
        }
    }
}

/// Where the configuration file is: given outright, or to be found by
/// trying the two YAML extensions.
pub enum ConfigPath {
    Specified(String),
    NoExtension(String),
}

impl ConfigPath {
    pub fn specified(path: String) -> (r: Self)
        ensures
            r matches ConfigPath::Specified(p) && p == path,
    {
        ConfigPath::Specified(path)
    }

    pub fn no_extension(path: String) -> (r: Self)
        ensures
            r matches ConfigPath::NoExtension(p) && p == path,
    {
        ConfigPath::NoExtension(path)
    }
}

/// The parsed test-case file of the runner.
#[derive(Debug)]
pub struct Config {
    pub cases: Vec<TestCase>,
    pub limit: Option<LimitInfo>,
}

/// Everything one judging session needs.
pub struct TestInfo {
    pub file: String,
    pub file_type: FileType,
    pub cases: Vec<TestCase>,
    pub max_memory: Option<usize>,
    /// Milliseconds.
    pub max_time: Option<u64>,
    pub do_judge: bool,
}

/// True exactly when the two strings hold the same characters.
pub fn str_eq(a: &str, b: &str) -> (r: bool)
    ensures
        r == (a@ == b@),
{
    let sa = String::from_str(a);
    let sb = String::from_str(b);
    sa == sb
}

/// The file type an extension names, when no language was given
/// explicitly.
pub fn file_type_of_extension(extension: Option<&String>) -> (r: FileType)
    ensures
        match extension {
            Some(e) => {
                &&& e@ == "c"@ ==> r is C
                &&& e@ == "cpp"@ ==> r is Cpp
                &&& e@ == "java"@ ==> r is Java
                &&& e@ == "py"@ ==> r is Python
                &&& e@ == "rs"@ ==> r is Rust
                &&& e@ == "go"@ ==> r is Go
                &&& (e@ != "c"@ && e@ != "cpp"@ && e@ != "java"@ && e@ != "py"@ && e@ != "rs"@
                    && e@ != "go"@) ==> (r matches FileType::Unknown(u) && u == e)
            },
            None => r matches FileType::Unknown(u) && u@ == Seq::<char>::empty(),
        },
{
    proof {
        reveal_strlit("c");
        reveal_strlit("cpp");
        reveal_strlit("java");
        reveal_strlit("py");
        reveal_strlit("rs");
        reveal_strlit("go");
        assert("c"@.len() == 1 && "cpp"@.len() == 3 && "java"@.len() == 4 && "py"@.len() == 2
            && "rs"@.len() == 2 && "go"@.len() == 2);
        assert("py"@[0] == 'p' && "rs"@[0] == 'r' && "go"@[0] == 'g');
    }
    match extension {
        Some(e) => {
            if str_eq(e.as_str(), "c") {
                FileType::C
            } else if str_eq(e.as_str(), "cpp") {
                FileType::Cpp
            } else if str_eq(e.as_str(), "java") {
                FileType::Java
            } else if str_eq(e.as_str(), "py") {
                FileType::Python
            } else if str_eq(e.as_str(), "rs") {
                FileType::Rust
            } else if str_eq(e.as_str(), "go") {
                FileType::Go
            } else {
                FileType::Unknown(e.clone())
            }
        },
        None => FileType::Unknown(String::new()),
    }
}

/// Combines the parsed arguments, whether the source file exists, its
/// extension, and the already-read configuration into the session
/// description: the file must exist, limits given on the command line
/// win over the file's, and no-judge mode needs no configuration.
pub fn resolve_args(args: Args, file_present: bool, extension: Option<&String>, config: Option<
    Config,
>) -> (r: Result<TestInfo, ReaderError>)
    requires
        file_present && !args.no_judge ==> config is Some,
    ensures
        !file_present ==> (r matches Err(e) && e matches ReaderError::FileNotFound(f) && f
            == args.file),
        file_present && args.no_judge ==> (r matches Ok(t) && {
            &&& t.file == args.file
            &&& t.cases@ == Seq::<TestCase>::empty()
            &&& t.max_memory is None
            &&& t.max_time is None
            &&& !t.do_judge
        }),
        file_present && !args.no_judge ==> (r matches Ok(t) && {
            let c = config->0;
            &&& t.file == args.file
            &&& t.cases == c.cases
            &&& t.max_memory == (if args.memory is Some {
                args.memory
            } else {
                match c.limit {
                    Some(l) => l.memory,
                    None => None,
                }
            })
            &&& t.max_time == (if args.time is Some {
                args.time
            } else {
                match c.limit {
                    Some(l) => l.time,
                    None => None,
                }
            })
            &&& t.do_judge
        }),
{
    if !file_present {
        return Err(ReaderError::FileNotFound(args.file));
    }

    let file_type = match args.lang {
        Some(t) => t.to_file_type(),
        None => file_type_of_extension(extension),
    };

    if args.no_judge {
        Ok(
            TestInfo {
                file_type,
                file: args.file,
                cases: Vec::new(),
                max_memory: None,
                max_time: None,
                do_judge: false,
            },
        )
    } else {
        let config = match config {
            Some(c) => c,
            None => {
                proof {
                    assert(false);
                }
                return Err(ReaderError::General(String::new()));
            },
        };
        let config_limit = flatten_limit_info(config.limit);
        Ok(
            TestInfo {
                file_type,
                file: args.file,
                cases: config.cases,
                max_memory: match args.memory {
                    Some(m) => Some(m),
                    None => config_limit.memory,
                },
                max_time: match args.time {
                    Some(t) => Some(t),
                    None => config_limit.time,
                },
                do_judge: true,
            },
        )
    }
}

} // verus!
