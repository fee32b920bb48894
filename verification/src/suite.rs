//! The generator's plain-text test-suite format: `key count` headers
//! followed by that many content lines, where `limit` lines carry
//! `time`/`memory` pairs and `input`/`answer` blocks pair up into test
//! cases. Malformed pieces are skipped, and the parse stops when a
//! block runs past the end.

use crate::strutil::{
    join_lines, parse_u64, parse_usize, spec_join_nl, spec_lines, spec_parse_u64, spec_tokens,
    split_lines, split_tokens,
};
use vstd::prelude::*;

verus! {

/// A whole suite: the optional limits and the cases.
#[derive(Debug)]
pub struct TestSuite {
    pub limit: Option<TestLimit>,
    pub cases: Vec<TestCase>,
}

/// One test: an input, the expected answer, and a display number (zero
/// for cases that came from outside).
#[derive(Debug)]
pub struct TestCase {
    pub input: String,
    pub answer: String,
    pub id: u32,
}

/// Limits a suite may set.
#[derive(Debug)]
pub struct TestLimit {
    /// KiB.
    pub memory: Option<u32>,
    /// Milliseconds.
    pub time: Option<u64>,
}

impl TestLimit {
    pub fn new() -> (r: Self)
        ensures
            r.memory is None,
            r.time is None,
    {
        Self { memory: None, time: None }
    }

    /// A limit that sets nothing collapses to no limit at all.
    pub fn into_option(self) -> (r: Option<Self>)
        ensures
            self.memory is Some || self.time is Some ==> r == Some(self),
            self.memory is None && self.time is None ==> r is None,
    {
        if self.memory.is_some() || self.time.is_some() {
            Some(self)
        } else {
            None
        }
    }
}

/// The parse state: the time limit, the memory limit, and the input
/// and answer blocks collected so far.
pub open spec fn suite_state_init() -> (Option<u64>, Option<u32>, Seq<Seq<char>>, Seq<Seq<char>>) {
    (None, None, Seq::empty(), Seq::empty())
}

/// Folds the `time`/`memory` pairs of a `limit` block into the limits;
/// unknown keys and unparsable values leave them alone.
pub open spec fn apply_limit_pairs(
    toks: Seq<Seq<char>>,
    j: int,
    time: Option<u64>,
    mem: Option<u32>,
) -> (Option<u64>, Option<u32>)
    decreases toks.len() - j,
{
    if j < 0 || j + 2 > toks.len() {
        (time, mem)
    } else {
        let key = toks[j];
        let val = toks[j + 1];
        let next = if key == "time"@ {
            match spec_parse_u64(val) {
                Some(ms) => (Some(ms), mem),
                None => (time, mem),
            }
        } else if key == "memory"@ {
            match spec_parse_u64(val) {
                Some(kib) => if kib <= u32::MAX {
                    (time, Some(kib as u32))
                } else {
                    (time, mem)
                },
                None => (time, mem),
            }
        } else {
            (time, mem)
        };
        apply_limit_pairs(toks, j + 2, next.0, next.1)
    }
}

/// What one well-formed block does to the state.
pub open spec fn suite_block_step(
    lines: Seq<Seq<char>>,
    i: int,
    count: int,
    key: Seq<char>,
    st: (Option<u64>, Option<u32>, Seq<Seq<char>>, Seq<Seq<char>>),
) -> (Option<u64>, Option<u32>, Seq<Seq<char>>, Seq<Seq<char>>) {
    let joined = spec_join_nl(lines.subrange(i + 1, i + 1 + count));
    if key == "limit"@ {
        let toks = spec_tokens(joined);
        if toks.len() % 2 != 0 {
            st
        } else {
            let lim = apply_limit_pairs(toks, 0, st.0, st.1);
            (lim.0, lim.1, st.2, st.3)
        }
    } else if key == "input"@ {
        (st.0, st.1, st.2.push(joined), st.3)
    } else if key == "answer"@ {
        (st.0, st.1, st.2, st.3.push(joined))
    } else {
        st
    }
}

/// Runs the parse from line `i` on: headers that are not `key count`
/// are skipped, a block that runs past the end stops the parse, and
/// every other block is applied in order.
pub open spec fn suite_parse_from(
    lines: Seq<Seq<char>>,
    i: int,
    st: (Option<u64>, Option<u32>, Seq<Seq<char>>, Seq<Seq<char>>),
) -> (Option<u64>, Option<u32>, Seq<Seq<char>>, Seq<Seq<char>>)
    decreases lines.len() - i,
{
    if i < 0 || i >= lines.len() {
        st
    } else {
        let parts = spec_tokens(lines[i]);
        if parts.len() != 2 {
            suite_parse_from(lines, i + 1, st)
        } else {
            let pc = spec_parse_u64(parts[1]);
            if pc is None || pc->0 > usize::MAX {
                suite_parse_from(lines, i + 1, st)
            } else {
                let count = pc->0 as int;
                if i + 1 + count > lines.len() {
                    st
                } else {
                    suite_parse_from(
                        lines,
                        i + 1 + count,
                        suite_block_step(lines, i, count, parts[0], st),
                    )
                }
            }
        }
    }
}

/// The final parse state of a whole text.
pub open spec fn suite_parse(s: Seq<char>) -> (
    Option<u64>,
    Option<u32>,
    Seq<Seq<char>>,
    Seq<Seq<char>>,
) {
    suite_parse_from(spec_lines(s), 0, suite_state_init())
}

/// Parses the plain `key count` test-suite format: the collected input
/// and answer blocks pair up in order (extras of either kind are
/// dropped), and the limits keep the last parsed value of each kind.
pub fn parse_easy_test_suite(input: &str) -> (r: TestSuite)
    ensures
        ({
            let st = suite_parse(input@);
            let n_cases = if st.2.len() <= st.3.len() {
                st.2.len() as int
            } else {
                st.3.len() as int
            };
            &&& r.limit == (if st.0 is Some || st.1 is Some {
                Some(TestLimit { memory: st.1, time: st.0 })
            } else {
                None::<TestLimit>
            })
            &&& r.cases@.len() == n_cases
            &&& forall|k: int|
                0 <= k < n_cases ==> (#[trigger] r.cases@[k]).input@ == st.2[k]
                    && r.cases@[k].answer@ == st.3[k] && r.cases@[k].id == 0
        }),
{
    let lines = split_lines(input);
    let ghost dv = lines.deep_view();
    let n = lines.len();
    proof {
        assert(dv.len() == lines@.len());
    }

    let mut time: Option<u64> = None;
    let mut mem: Option<u32> = None;
    let mut inputs: Vec<String> = Vec::new();
    let mut answers: Vec<String> = Vec::new();
    let mut i: usize = 0;
    let mut stopped = false;

    proof {
        assert(inputs.deep_view() =~= Seq::<Seq<char>>::empty());
        assert(answers.deep_view() =~= Seq::<Seq<char>>::empty());
    }

    while i < n && !stopped
        invariant
            i <= n,
            n == dv.len(),
            dv == lines.deep_view(),
            dv == spec_lines(input@),
            suite_parse(input@) == if stopped {
                (time, mem, inputs.deep_view(), answers.deep_view())
            } else {
                suite_parse_from(dv, i as int, (time, mem, inputs.deep_view(), answers.deep_view()))
            },
        decreases n - i + if stopped { 0int } else { 1int },
    {
        let parts = split_tokens(lines[i].as_str());
        proof {
            assert(lines.deep_view()[i as int] == lines@[i as int]@);
            assert(parts.deep_view() == spec_tokens(dv[i as int]));
        }
        if parts.len() != 2 {
            i = i + 1;
            continue;
        }
        let count = match parse_usize(parts[1].as_str()) {
            Some(c) => c,
            None => {
                i = i + 1;
                continue;
            },
        };
        if count > n - (i + 1) {
            stopped = true;
            continue;
        }
        let joined = join_lines(&lines, i + 1, i + 1 + count);
        let ghost st0 = (time, mem, inputs.deep_view(), answers.deep_view());
        if crate::runnercfg::str_eq(parts[0].as_str(), "limit") {
            let toks = split_tokens(joined.as_str());
            let ghost tdv = toks.deep_view();
            if toks.len() % 2 == 0 {
                let ghost t0 = time;
                let ghost m0 = mem;
                let mut j: usize = 0;
                while j < toks.len() && j + 1 < toks.len()
                    invariant
                        j <= toks@.len(),
                        tdv == toks.deep_view(),
                        j % 2 == 0,
                        apply_limit_pairs(tdv, 0, t0, m0) == apply_limit_pairs(
                            tdv,
                            j as int,
                            time,
                            mem,
                        ),
                    decreases toks@.len() - j,
                {
                    proof {
                        assert(tdv[j as int] == toks@[j as int]@);
                        assert(tdv[j + 1] == toks@[j + 1]@);
                    }
                    if crate::runnercfg::str_eq(toks[j].as_str(), "time") {
                        if let Some(ms) = parse_u64(toks[j + 1].as_str()) {
                            time = Some(ms);
                        }
                    } else if crate::runnercfg::str_eq(toks[j].as_str(), "memory") {
                        if let Some(kib) = parse_u64(toks[j + 1].as_str()) {
                            if kib <= u32::MAX as u64 {
                                mem = Some(kib as u32);
                            }
                        }
                    }
                    j = j + 2;
                }
                proof {
                    assert(apply_limit_pairs(tdv, j as int, time, mem) == (time, mem));
                }
            }
            proof {
                assert(parts.deep_view()[0] == spec_tokens(dv[i as int])[0]);
            }
        } else if crate::runnercfg::str_eq(parts[0].as_str(), "input") {
            let ghost before = inputs.deep_view();
            inputs.push(joined);
            proof {
                assert(inputs.deep_view() =~= before.push(spec_join_nl(
                    dv.subrange(i + 1, i + 1 + count),
                )));
            }
        } else if crate::runnercfg::str_eq(parts[0].as_str(), "answer") {
            let ghost before = answers.deep_view();
            answers.push(joined);
            proof {
                assert(answers.deep_view() =~= before.push(spec_join_nl(
                    dv.subrange(i + 1, i + 1 + count),
                )));
            }
        }
        i = i + 1 + count;
    }

    // pair the collected inputs and answers up
    let ghost st = suite_parse(input@);
    proof {
        if !stopped {
            assert(suite_parse_from(dv, i as int, (time, mem, inputs.deep_view(),
                answers.deep_view())) == (time, mem, inputs.deep_view(), answers.deep_view()));
        }
    }
    let n_cases = if inputs.len() <= answers.len() {
        inputs.len()
    } else {
        answers.len()
    };
    let mut cases: Vec<TestCase> = Vec::new();
    let mut k: usize = 0;
    while k < n_cases
        invariant
            k <= n_cases,
            n_cases <= inputs@.len(),
            n_cases <= answers@.len(),
            cases@.len() == k,
            forall|q: int|
                0 <= q < k ==> (#[trigger] cases@[q]).input@ == inputs.deep_view()[q]
                    && cases@[q].answer@ == answers.deep_view()[q] && cases@[q].id == 0,
        decreases n_cases - k,
    {
        cases.push(
            TestCase { input: inputs[k].clone(), answer: answers[k].clone(), id: 0 },
        );
        k = k + 1;
    }

    let limit = if time.is_some() || mem.is_some() {
        Some(TestLimit { memory: mem, time })
    } else {
        None
    };
    TestSuite { limit, cases }
}


/// Folds a suite a plugin produced into the collected cases and
/// limits: its cases are appended, and each limit it sets replaces the
/// current one.
pub fn update_by_advanced(
    suite: Option<TestSuite>,
    test_cases: &mut Vec<TestCase>,
    test_limit: &mut TestLimit,
)
    ensures
        match suite {
            None => *final(test_cases) == *old(test_cases) && *final(test_limit) == *old(
                test_limit,
            ),
            Some(s) => {
                &&& final(test_cases)@ == old(test_cases)@ + s.cases@
                &&& final(test_limit).time == (match s.limit {
                    Some(l) => if l.time is Some {
                        l.time
                    } else {
                        old(test_limit).time
                    },
                    None => old(test_limit).time,
                })
                &&& final(test_limit).memory == (match s.limit {
                    Some(l) => if l.memory is Some {
                        l.memory
                    } else {
                        old(test_limit).memory
                    },
                    None => old(test_limit).memory,
                })
            },
        },
{
    if let Some(suite) = suite {
        let mut incoming = suite.cases;
        test_cases.append(&mut incoming);
        if let Some(limit) = suite.limit {
            if let Some(time) = limit.time {
                test_limit.time = Some(time);
            }
            if let Some(memory) = limit.memory {
                test_limit.memory = Some(memory);
            }
        }
    }
}


/// The older plugin entry point: same folding as `update_by_advanced`,
/// kept for plugins that still speak the first protocol.
pub fn update_by_advance(
    config: Option<TestSuite>,
    test_cases: &mut Vec<TestCase>,
    test_limit: &mut TestLimit,
)
    ensures
        match config {
            None => *final(test_cases) == *old(test_cases) && *final(test_limit) == *old(
                test_limit,
            ),
            Some(s) => {
                &&& final(test_cases)@ == old(test_cases)@ + s.cases@
                &&& final(test_limit).time == (match s.limit {
                    Some(l) => if l.time is Some {
                        l.time
                    } else {
                        old(test_limit).time
                    },
                    None => old(test_limit).time,
                })
                &&& final(test_limit).memory == (match s.limit {
                    Some(l) => if l.memory is Some {
                        l.memory
                    } else {
                        old(test_limit).memory
                    },
                    None => old(test_limit).memory,
                })
            },
        },
{
    update_by_advanced(config, test_cases, test_limit);
}

} // verus!
