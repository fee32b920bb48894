//! The judge's argument and configuration decisions, a close sibling of
//! the runner's but with a free-form language name and a warm-up count.

use crate::cases::{flatten_limit_info, LimitInfo, ReaderError, TestCase};
use vstd::prelude::*;

verus! {

/// The judge's command-line arguments, already parsed.
#[derive(Debug)]
pub struct Args {
    pub config: Option<String>,
    pub file: String,
    pub lang: Option<String>,
    /// KiB.
    pub memory: Option<usize>,
    pub no_judge: bool,
    /// Milliseconds.
    pub time: Option<u64>,
    pub verbose: bool,
    pub warmup: Option<u32>,
}

/// A language the judge knows: its file extension and how to compile
/// and run it.
#[derive(Debug)]
pub struct LanguageProfile {
    pub extension: String,
    pub compile: Option<CommandInstruction>,
    pub run: Option<CommandInstruction>,
}

/// One shell command template.
#[derive(Debug)]
pub struct CommandInstruction {
    pub command: String,
}

/// The judge's own configuration.
#[derive(Debug)]
pub struct EvaluatorConfig {
    pub languages: Vec<LanguageProfile>,
    pub warmup: Option<u32>,
}

/// Everything one judging session needs.
pub struct TestInfo {
    pub file: String,
    pub file_type: String,
    pub cases: Vec<TestCase>,
    pub max_memory: Option<usize>,
    /// Milliseconds.
    pub max_time: Option<u64>,
    pub do_judge: bool,
    pub warmup_times: Option<u32>,
}

impl TestInfo {
    /// Takes the configured warm-up count when none was given on the
    /// command line.
    pub fn with_config(&mut self, config: &EvaluatorConfig)
        ensures
            *final(self) == (TestInfo {
                warmup_times: if old(self).warmup_times is None {
                    config.warmup
                } else {
                    old(self).warmup_times
                },
                ..*old(self)
            }),
    {
        if self.warmup_times.is_none() {
            self.warmup_times = config.warmup;
        }
    }
}

/// Combines the parsed arguments, whether the source file exists, its
/// extension, and the already-read test cases into the session
/// description: the language name wins over the extension, explicit
/// limits win over the file's.
pub fn resolve_args(
    args: Args,
    file_present: bool,
    extension: Option<&String>,
    config: Option<crate::runnercfg::Config>,
) -> (r: Result<TestInfo, ReaderError>)
    requires
        file_present && !args.no_judge ==> config is Some,
    ensures
        !file_present ==> (r matches Err(e) && e matches ReaderError::FileNotFound(f) && f
            == args.file),
        file_present ==> (r matches Ok(t) && {
            &&& t.file == args.file
            &&& t.file_type@ == (match args.lang {
                Some(l) => l@,
                None => match extension {
                    Some(e) => e@,
                    None => Seq::<char>::empty(),
                },
            })
            &&& t.do_judge == !args.no_judge
            &&& t.warmup_times == args.warmup
            &&& args.no_judge ==> t.cases@ == Seq::<TestCase>::empty() && t.max_memory is None
                && t.max_time is None
            &&& !args.no_judge ==> {
                let c = config->0;
                &&& t.cases == c.cases
                &&& t.max_memory == (if args.memory is Some {
                    args.memory
                } else {
                    match c.limit {
                        Some(l) => l.memory,
                        None => None,
                    }
                })
                &&& t.max_time == (if args.time is Some {
                    args.time
                } else {
                    match c.limit {
                        Some(l) => l.time,
                        None => None,
                    }
                })
            }
        }),
{
    if !file_present {
        return Err(ReaderError::FileNotFound(args.file));
    }

    let file_type = match args.lang {
        Some(i) => i,
        None => match extension {
            Some(e) => e.clone(),
            None => String::new(),
        },
    };

    if args.no_judge {
        Ok(
            TestInfo {
                file_type,
                file: args.file,
                cases: Vec::new(),
                max_memory: None,
                max_time: None,
                do_judge: false,
                warmup_times: args.warmup,
            },
        )
    } else {
        let config = match config {
            Some(c) => c,
            None => {
                proof {
                    assert(false);
                }
                return Err(ReaderError::General(String::new()));
            },
        };
        let config_limit = flatten_limit_info(config.limit);
        Ok(
            TestInfo {
                file_type,
                file: args.file,
                cases: config.cases,
                max_memory: match args.memory {
                    Some(m) => Some(m),
                    None => config_limit.memory,
                },
                max_time: match args.time {
                    Some(t) => Some(t),
                    None => config_limit.time,
                },
                do_judge: true,
                warmup_times: args.warmup,
            },
        )
    }
}

} // verus!
