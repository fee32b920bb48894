//! Small text helpers of the command-line tools: centring labels,
//! truncating with an ellipsis, normalizing YAML file names, and the
//! outcomes of probing a path for file creation.

use crate::chartype::{is_whitespace_char, unicode_whitespace};
use num_format::ToFormattedString;
use vstd::prelude::*;
use vstd::string::StringSliceAdditionalSpecFns;

verus! {

/// `p` repeated `n` times.
pub open spec fn repeat_seq(p: Seq<char>, n: nat) -> Seq<char>
    decreases n,
{
    if n == 0 {
        Seq::empty()
    } else {
        repeat_seq(p, (n - 1) as nat) + p
    }
}

/// `placeholder` repeated `n` times.
pub fn repeat_str(placeholder: &str, n: usize) -> (r: String)
    ensures
        r@ == repeat_seq(placeholder@, n as nat),
{
    let mut out = String::new();
    let mut i: usize = 0;
    while i < n
        invariant
            i <= n,
            out@ == repeat_seq(placeholder@, i as nat),
        decreases n - i,
    {
        out.append(placeholder);
        i = i + 1;
    }
    out
}

/// Centres `text` in `total_length` byte columns by repeating the
/// placeholder on both sides with one space next to the text; text at
/// least as long as the field is returned unchanged.
pub fn center_text(text: &str, total_length: usize, placeholder: &str) -> (r: String)
    ensures
        text.spec_bytes().len() >= total_length ==> r@ == text@,
        text.spec_bytes().len() < total_length ==> ({
            let pad = (total_length - text.spec_bytes().len() as int) / 2;
            r@ == repeat_seq(placeholder@, pad as nat) + seq![' '] + text@ + seq![' ']
                + repeat_seq(
                placeholder@,
                (total_length - text.spec_bytes().len() - pad) as nat,
            )
        }),
{
    let text_length = text.as_bytes().len();
    if text_length >= total_length {
        return String::from_str(text);
    }

    let padding_length = (total_length - text_length) / 2;
    let left_padding = repeat_str(placeholder, padding_length);
    let right_padding = repeat_str(placeholder, total_length - text_length - padding_length);

    let mut out = left_padding;
    out.append(" ");
    out.append(text);
    out.append(" ");
    out.append(right_padding.as_str());
    proof {
        reveal_strlit(" ");
        assert((" "@) =~= seq![' ']);
        let pad = (total_length - text.spec_bytes().len() as int) / 2;
        assert(out@ =~= repeat_seq(placeholder@, pad as nat) + seq![' '] + text@ + seq![' ']
            + repeat_seq(placeholder@, (total_length - text.spec_bytes().len() - pad) as nat));
    }
    out
}

/// The first `n` characters, with an ellipsis appended when anything
/// was cut off.
pub fn with_ellipsis(input: &str, n: usize) -> (r: String)
    ensures
        input@.len() <= n ==> r@ == input@,
        input@.len() > n ==> r@ == input@.take(n as int) + "..."@,
{
    let len = input.unicode_len();
    if len <= n {
        proof {
            assert(input@.take(input@.len() as int) =~= input@);
        }
        String::from_str(input.substring_char(0, len))
    } else {
        let mut out = String::from_str(input.substring_char(0, n));
        out.append("...");
        out
    }
}

/// Every character of `s` is white space (true of the empty string).
pub open spec fn all_whitespace(s: Seq<char>) -> bool {
    forall|i: int| 0 <= i < s.len() ==> unicode_whitespace(#[trigger] s[i])
}

/// `s` ends with `suffix`.
pub open spec fn ends_with_seq(s: Seq<char>, suffix: Seq<char>) -> bool {
    s.len() >= suffix.len() && s.subrange(s.len() - suffix.len(), s.len() as int) == suffix
}

/// Normalizes a configuration file name: blank input stays empty, a
/// name already ending in `.yaml` or `.yml` is kept, anything else gets
/// `.yaml` appended.
pub fn with_yaml(input: &str) -> (r: String)
    ensures
        all_whitespace(input@) ==> r@ == Seq::<char>::empty(),
        !all_whitespace(input@) && (ends_with_seq(input@, ".yaml"@) || ends_with_seq(
            input@,
            ".yml"@,
        )) ==> r@ == input@,
        !all_whitespace(input@) && !ends_with_seq(input@, ".yaml"@) && !ends_with_seq(
            input@,
            ".yml"@,
        ) ==> r@ == input@ + ".yaml"@,
{
    let n = input.unicode_len();

    let mut all_ws = true;
    let mut i: usize = 0;
    while i < n && all_ws
        invariant
            i <= n,
            n == input@.len(),
            all_ws ==> forall|k: int| 0 <= k < i ==> unicode_whitespace(#[trigger] input@[k]),
            !all_ws ==> i < n && !unicode_whitespace(input@[i as int]),
        decreases n - i + if all_ws { 1int } else { 0int },
    {
        if is_whitespace_char(input.get_char(i)) {
            i = i + 1;
        } else {
            all_ws = false;
        }
    }

    if all_ws {
        return String::new();
    }

    let ends_yaml = if n >= 5 {
        crate::runnercfg::str_eq(input.substring_char(n - 5, n), ".yaml")
    } else {
        false
    };
    let ends_yml = if n >= 4 {
        crate::runnercfg::str_eq(input.substring_char(n - 4, n), ".yml")
    } else {
        false
    };
    proof {
        reveal_strlit(".yaml");
        reveal_strlit(".yml");
    }
    if ends_yaml || ends_yml {
        String::from_str(input)
    } else {
        let mut out = String::from_str(input);
        out.append(".yaml");
        out
    }
}

/// What probing a target path for creation found.
#[derive(Debug)]
pub enum FileStatus {
    /// Nothing in the way: the file can be created.
    NotFound,
    /// The parent directory does not exist.
    ParentNotExists,
    /// Creation failed outright.
    Failed,
    /// A file already sits there.
    Exists,
    /// A directory sits there.
    IsDir,
}

impl FileStatus {
    pub fn to_str(&self) -> (r: &str)
        ensures
            self is NotFound ==> r@ == "檔案不存在"@,
            self is Exists ==> r@ == "檔案已存在"@,
            self is ParentNotExists ==> r@ == "目標檔案的資料夾不存在"@,
            self is IsDir ==> r@ == "目標位置為資料夾"@,
            self is Failed ==> r@ == "檔案不合法"@,
    {
        match self {
            FileStatus::NotFound => "檔案不存在",
            FileStatus::Exists => "檔案已存在",
            FileStatus::ParentNotExists => "目標檔案的資料夾不存在",
            FileStatus::IsDir => "目標位置為資料夾",
            FileStatus::Failed => "檔案不合法",
        }
    }
}

/// A menu entry for creating a code file next to a test-suite file.
pub enum CodeOption {
    Cancel,
    File { path: String, file_name: String },
}


/// The ASCII digit for a value below ten.
pub open spec fn digit_char(d: int) -> char {
    ((48 + d) as u32) as char
}

/// The decimal digits of a non-negative number, most significant
/// first.
pub open spec fn decimal_digits(n: int) -> Seq<char>
    decreases n,
{
    if n < 0 {
        Seq::empty()
    } else if n < 10 {
        seq![digit_char(n)]
    } else {
        decimal_digits(n / 10).push(digit_char(n % 10))
    }
}

/// Digits grouped in threes from the right, separated by commas.
pub open spec fn group_digits(ds: Seq<char>) -> Seq<char>
    decreases ds.len(),
{
    if ds.len() <= 3 {
        ds
    } else {
        group_digits(ds.take(ds.len() - 3)) + seq![','] + ds.skip(ds.len() - 3)
    }
}

/// A number written with thousands separators.
pub open spec fn grouped_decimal(n: int) -> Seq<char> {
    group_digits(decimal_digits(n))
}

/// Relies on `num_format::ToFormattedString::to_formatted_string` with
/// the `en` locale: the decimal digits grouped in threes by commas.
#[verifier::external_body]
fn format_grouped_u128(n: u128) -> (r: String)
    ensures
        r@ == grouped_decimal(n as int),
{
    n.to_formatted_string(&num_format::Locale::en)
}

/// A number that can render itself with thousands separators.
pub trait PrettyNumber {
    /// The value being rendered.
    spec fn spec_value(&self) -> int;

    fn prettify(&self) -> (r: String)
        ensures
            r@ == grouped_decimal(self.spec_value()),
    ;
}

impl PrettyNumber for usize {
    open spec fn spec_value(&self) -> int {
        *self as int
    }

    fn prettify(&self) -> (r: String) {
        format_grouped_u128(*self as u128)
    }
}

impl PrettyNumber for u64 {
    open spec fn spec_value(&self) -> int {
        *self as int
    }

    fn prettify(&self) -> (r: String) {
        format_grouped_u128(*self as u128)
    }
}

impl PrettyNumber for u128 {
    open spec fn spec_value(&self) -> int {
        *self as int
    }

    fn prettify(&self) -> (r: String) {
        format_grouped_u128(*self)
    }
}

} // verus!
