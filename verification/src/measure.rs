//! Outcome types of the measuring runner: per-test verdicts, their
//! severity ordering, resource limits and the running session summary.
//!
//! This mirrors the judge's verdict types, but a verdict here also
//! carries the expected answer, and a wrong answer carries the raw
//! program output instead of a rendered difference.

use vstd::prelude::*;

verus! {

/// Resource limits for one test run; `None` means unlimited.
pub struct Limitation {
    pub max_memory: Option<usize>,
    /// Milliseconds.
    pub max_time: Option<u64>,
}

impl Limitation {
    pub fn max_memory(&mut self, max_memory: Option<usize>) -> (r: &mut Self)
        ensures
            *r == (Limitation { max_memory, max_time: old(self).max_time }),
            *final(self) == *final(r),
    {
        self.max_memory = max_memory;
        self
    }

    pub fn max_time(&mut self, max_time: Option<u64>) -> (r: &mut Self)
        ensures
            *r == (Limitation { max_memory: old(self).max_memory, max_time }),
            *final(self) == *final(r),
    {
        self.max_time = max_time;
        self
    }
}

impl Default for Limitation {
    /// 1 GiB of memory (in KiB) and two seconds.
    fn default() -> (r: Self)
        ensures
            r.max_memory == Some(1048576usize),
            r.max_time == Some(2000u64),
    {
        Self { max_memory: Some(1024 * 1024), max_time: Some(2000) }
    }
}

/// Status of one judged test case.
#[derive(Debug)]
pub enum JudgeStatus {
    /// Accepted.
    AC,
    /// Runtime error, with the captured diagnostic.
    RE(String),
    /// Wrong answer, with the raw program output.
    WA(String),
    /// Time limit exceeded, with the elapsed milliseconds.
    TLE(u64),
    /// Memory limit exceeded, with the used KiB.
    MLE(usize),
}

/// How bad a status is; greater is worse.
pub open spec fn severity_spec(s: &JudgeStatus) -> u8 {
    match s {
        JudgeStatus::RE(_) => 4u8,
        JudgeStatus::WA(_) => 3u8,
        JudgeStatus::TLE(_) => 2u8,
        JudgeStatus::MLE(_) => 1u8,
        JudgeStatus::AC => 0u8,
    }
}

/// Severity ordering: higher class wins; within time or memory
/// overruns, the larger overrun is worse.
pub open spec fn severe_than_spec(a: &JudgeStatus, b: &JudgeStatus) -> bool {
    if severity_spec(a) != severity_spec(b) {
        severity_spec(a) > severity_spec(b)
    } else {
        match (a, b) {
            (JudgeStatus::TLE(ta), JudgeStatus::TLE(tb)) => *ta > *tb,
            (JudgeStatus::MLE(ma), JudgeStatus::MLE(mb)) => *ma > *mb,
            _ => false,
        }
    }
}

impl JudgeStatus {
    pub fn is_accept(&self) -> (r: bool)
        ensures
            r == (self is AC),
    {
        matches!(self, Self::AC)
    }

    pub fn to_str_short(&self) -> (r: &str)
        ensures
            self is RE ==> r@ == "運行時錯誤 RE"@,
            self is WA ==> r@ == "答案錯誤 WA"@,
            self is TLE ==> r@ == "超時錯誤 TLE"@,
            self is MLE ==> r@ == "記憶體超限 MLE"@,
            self is AC ==> r@ == "答案正確 AC"@,
    {
        match self {
            Self::RE(_) => "運行時錯誤 RE",
            Self::WA(_) => "答案錯誤 WA",
            Self::TLE(_) => "超時錯誤 TLE",
            Self::MLE(_) => "記憶體超限 MLE",
            Self::AC => "答案正確 AC",
        }
    }

    pub fn severity(&self) -> (r: u8)
        ensures
            r == severity_spec(self),
    {
        match self {
            Self::RE(_) => 4,
            Self::WA(_) => 3,
            Self::TLE(_) => 2,
            Self::MLE(_) => 1,
            Self::AC => 0,
        }
    }

    pub fn is_severe_than(&self, other: &Self) -> (r: bool)
        ensures
            r == severe_than_spec(self, other),
    {
        let severity_self = self.severity();
        let severity_other = other.severity();

        if severity_self != severity_other {
            return severity_self > severity_other;
        }

        match (self, other) {
            (Self::TLE(self_time), Self::TLE(other_time)) => self_time > other_time,
            (Self::MLE(self_mem), Self::MLE(other_mem)) => self_mem > other_mem,
            _ => false,
        }
    }
}

/// Verdict for one test case: its status and the measured cost.
#[derive(Debug)]
pub struct JudgeVerdict {
    pub status: JudgeStatus,
    pub input: String,
    pub answer: String,
    /// Milliseconds, if measured.
    pub duration: Option<u64>,
    /// KiB, if measured.
    pub memory: Option<usize>,
}

impl JudgeVerdict {
    /// A fresh verdict starts as a runtime error until judged.
    pub fn new(input: String, answer: String) -> (r: Self)
        ensures
            r.status is RE,
            r.status->RE_0@ == "Failed"@,
            r.input == input,
            r.answer == answer,
            r.duration is None,
            r.memory is None,
    {
        Self {
            status: JudgeStatus::RE(String::from_str("Failed")),
            input,
            answer,
            duration: None,
            memory: None,
        }
    }

    pub fn is_accept(&self) -> (r: bool)
        ensures
            r == (self.status is AC),
    {
        self.status.is_accept()
    }

    pub fn status(&mut self, status: JudgeStatus)
        ensures
            *final(self) == (JudgeVerdict { status, ..*old(self) }),
    {
        self.status = status;
    }

    pub fn duration(&mut self, duration: Option<u64>)
        ensures
            *final(self) == (JudgeVerdict { duration, ..*old(self) }),
    {
        self.duration = duration;
    }

    pub fn memory(&mut self, memory: Option<usize>)
        ensures
            *final(self) == (JudgeVerdict { memory, ..*old(self) }),
    {
        self.memory = memory;
    }
}

/// Compilation failures, split into environment faults and actual
/// compile errors.
#[derive(Debug)]
pub enum CompileError {
    /// System error: the toolchain itself failed.
    SE(String),
    /// Compilation error in the submitted source.
    CE(String),
}

/// Running totals over the verdicts of one session.
pub struct SummaryInfo {
    pub success_rounds: usize,
    pub current_rounds: usize,
    /// Milliseconds.
    pub total_time: u128,
    /// KiB.
    pub total_memory: usize,
    /// The worst status seen so far under the severity ordering.
    pub worse_status: JudgeStatus,
}

impl SummaryInfo {
    /// At most every round succeeded.
    pub open spec fn wf(&self) -> bool {
        self.success_rounds <= self.current_rounds
    }

    /// Accumulates one verdict into the totals and keeps the worst
    /// non-accepted status.
    pub fn update(&mut self, verdict: JudgeVerdict)
        requires
            old(self).wf(),
            old(self).current_rounds < usize::MAX,
            old(self).total_time + (match verdict.duration {
                Some(d) => d as int,
                None => 0int,
            }) <= u128::MAX,
            old(self).total_memory + (match verdict.memory {
                Some(m) => m as int,
                None => 0int,
            }) <= usize::MAX,
        ensures
            final(self).current_rounds == old(self).current_rounds + 1,
            final(self).total_time == old(self).total_time + (match verdict.duration {
                Some(d) => d as int,
                None => 0int,
            }),
            final(self).total_memory == old(self).total_memory + (match verdict.memory {
                Some(m) => m as int,
                None => 0int,
            }),
            final(self).success_rounds == old(self).success_rounds + (if verdict.status is AC {
                1int
            } else {
                0int
            }),
            final(self).wf(),
            final(self).worse_status == (if !(verdict.status is AC) && severe_than_spec(
                &verdict.status,
                &old(self).worse_status,
            ) {
                verdict.status
            } else {
                old(self).worse_status
            }),
    {
        self.current_rounds += 1;
        if let Some(duration) = verdict.duration {
            self.total_time += duration as u128;
        }
        if let Some(memory) = verdict.memory {
            self.total_memory += memory;
        }
        if verdict.is_accept() {
            self.success_rounds = self.success_rounds + 1;
        } else if verdict.status.is_severe_than(&self.worse_status) {
            self.worse_status = verdict.status;
        }
    }

    /// Percentage of accepted rounds.
    pub fn score(&self) -> (r: usize)
        requires
            self.current_rounds > 0,
            self.success_rounds * 100 <= usize::MAX,
        ensures
            r as int == self.success_rounds * 100 / (self.current_rounds as int),
    {
        self.success_rounds * 100 / self.current_rounds
    }
}

impl Default for SummaryInfo {
    fn default() -> (r: Self)
        ensures
            r.success_rounds == 0,
            r.current_rounds == 0,
            r.total_time == 0,
            r.total_memory == 0,
            r.worse_status is AC,
    {
        Self {
            success_rounds: 0,
            current_rounds: 0,
            total_time: 0,
            total_memory: 0,
            worse_status: JudgeStatus::AC,
        }
    }
}

} // verus!
