//! Checks of the development environment.

use vstd::prelude::*;

use crate::text;

verus! {

/// What is checked, in this order.
#[derive(Debug, Copy, Clone, PartialEq, Eq, Structural)]
pub enum ToolCheckStep {
    RustToolchain,
    RustVersion,
    RustTarget,
    ProtobufCompiler,
    ProbeRs,
    EspFlash,
}

/// Oldest version of Rust that will do.
pub const MIN_RUST_MAJOR: u32 = 1;

pub const MIN_RUST_MINOR: u32 = 88;

pub const MIN_RUST_PATCH: u32 = 0;

impl ToolCheckStep {
    /// The tool that a step belongs to.
    pub open spec fn tool_name(self) -> Seq<char> {
        match self {
            ToolCheckStep::ProtobufCompiler => "Protobuf compiler"@,
            ToolCheckStep::ProbeRs => "probe-rs"@,
            ToolCheckStep::EspFlash => "ESP flash tool"@,
            _ => "Rust toolchain"@,
        }
    }

    pub fn tool(&self) -> (s: &'static str)
        ensures
            s@ == self.tool_name(),
    {
        match self {
            ToolCheckStep::ProtobufCompiler => "Protobuf compiler",
            ToolCheckStep::ProbeRs => "probe-rs",
            ToolCheckStep::EspFlash => "ESP flash tool",
            _ => "Rust toolchain",
        }
    }

    /// The command whose output is looked at.
    pub open spec fn command_line(self) -> Seq<char> {
        match self {
            ToolCheckStep::RustToolchain => "rustup toolchain list"@,
            ToolCheckStep::RustVersion => "rustc --version"@,
            ToolCheckStep::RustTarget => "rustup target list --installed"@,
            ToolCheckStep::ProtobufCompiler => "protoc --version"@,
            ToolCheckStep::ProbeRs => "probe-rs --version"@,
            ToolCheckStep::EspFlash => "espflash --version"@,
        }
    }

    pub fn command(&self) -> (s: &'static str)
        ensures
            s@ == self.command_line(),
    {
        match self {
            ToolCheckStep::RustToolchain => "rustup toolchain list",
            ToolCheckStep::RustVersion => "rustc --version",
            ToolCheckStep::RustTarget => "rustup target list --installed",
            ToolCheckStep::ProtobufCompiler => "protoc --version",
            ToolCheckStep::ProbeRs => "probe-rs --version",
            ToolCheckStep::EspFlash => "espflash --version",
        }
    }

    /// Whether the output of the command is as it should be.
    pub open spec fn accepts(self, output: Seq<char>) -> bool {
        match self {
            ToolCheckStep::RustToolchain => text::occurs(output, "stable"@),
            ToolCheckStep::RustVersion => is_recent_rust(output),
            ToolCheckStep::RustTarget => text::occurs(output, "riscv32imc-unknown-none-elf"@),
            _ => true,
        }
    }

    /// Whether a step passed: the command ran, and its output is as it should be.
    pub fn check(&self, success: bool, output: &str) -> (r: bool)
        ensures
            r == (success && self.accepts(output@)),
    {
        success && match self {
            ToolCheckStep::RustToolchain => text::contains_text(output, "stable"),
            ToolCheckStep::RustVersion => check_rust_version(output),
            ToolCheckStep::RustTarget => text::contains_text(output, "riscv32imc-unknown-none-elf"),
            _ => true,
        }
    }
}

/// What is checked.
pub fn steps() -> (r: [ToolCheckStep; 6])
    ensures
        r@ == seq![
            ToolCheckStep::RustToolchain,
            ToolCheckStep::RustVersion,
            ToolCheckStep::RustTarget,
            ToolCheckStep::ProtobufCompiler,
            ToolCheckStep::ProbeRs,
            ToolCheckStep::EspFlash,
        ],
{
    let r = [
        ToolCheckStep::RustToolchain,
        ToolCheckStep::RustVersion,
        ToolCheckStep::RustTarget,
        ToolCheckStep::ProtobufCompiler,
        ToolCheckStep::ProbeRs,
        ToolCheckStep::EspFlash,
    ];
    assert(r@ =~= seq![
        ToolCheckStep::RustToolchain,
        ToolCheckStep::RustVersion,
        ToolCheckStep::RustTarget,
        ToolCheckStep::ProtobufCompiler,
        ToolCheckStep::ProbeRs,
        ToolCheckStep::EspFlash,
    ]);
    r
}

/// A part of a version: what is no number counts as zero.
pub open spec fn part_of(s: Seq<char>) -> int {
    match text::parsed(s, u32::MAX as int) {
        Some(n) => n,
        None => 0,
    }
}

/// Whether a version is not older than another one.
pub open spec fn is_at_least(
    major: int,
    minor: int,
    patch: int,
    min_major: int,
    min_minor: int,
    min_patch: int,
) -> bool {
    major > min_major || (major == min_major && (minor > min_minor || (minor == min_minor && patch
        >= min_patch)))
}

/// Whether the second word of an output is the version of a Rust compiler that will do.
pub open spec fn is_recent_rust(output: Seq<char>) -> bool {
    match text::word(output, 1, 0) {
        Some(version) => {
            let parts = text::split(version, '.');
            parts.len() == 3 && is_at_least(
                part_of(parts[0]),
                part_of(parts[1]),
                part_of(parts[2]),
                MIN_RUST_MAJOR as int,
                MIN_RUST_MINOR as int,
                MIN_RUST_PATCH as int,
            )
        },
        None => false,
    }
}

fn parse_part(s: &str) -> (n: u32)
    ensures
        n == part_of(s@),
{
    match text::parse_number(s, u32::MAX as u64) {
        Some(n) => n as u32,
        None => 0,
    }
}

/// Whether the output of `rustc --version` names a version that will do.
pub fn check_rust_version(output: &str) -> (r: bool)
    ensures
        r == is_recent_rust(output@),
{
    let version = match text::nth_word(output, 1) {
        Some(version) => version,
        None => {
            return false;
        },
    };
    let parts = text::split_text(version.as_str(), '.');
    let ghost texts = text::split(version@, '.');
    assert(texts.len() == parts@.len());
    if parts.len() != 3 {
        return false;
    }
    proof {
        assert(texts[0] == parts@[0]@ && texts[1] == parts@[1]@ && texts[2] == parts@[2]@);
    }
    let major: u32 = parse_part(parts[0].as_str());
    let minor: u32 = parse_part(parts[1].as_str());
    let patch: u32 = parse_part(parts[2].as_str());
    major > MIN_RUST_MAJOR || (major == MIN_RUST_MAJOR && (minor > MIN_RUST_MINOR || (minor
        == MIN_RUST_MINOR && patch >= MIN_RUST_PATCH)))
}

/// A version that will do stays one as it grows.
pub proof fn lemma_newer_version_will_do(
    major: int,
    minor: int,
    patch: int,
    newer_major: int,
    newer_minor: int,
    newer_patch: int,
    min_major: int,
    min_minor: int,
    min_patch: int,
)
    requires
        is_at_least(newer_major, newer_minor, newer_patch, major, minor, patch),
        is_at_least(major, minor, patch, min_major, min_minor, min_patch),
    ensures
        is_at_least(newer_major, newer_minor, newer_patch, min_major, min_minor, min_patch),
{
}

/// How a step went.
#[derive(Debug, Copy, Clone, PartialEq, Eq, Structural)]
pub struct StepResult {
    pub is_critical: bool,
    pub passed: bool,
}

/// How many steps failed, of those that are critical or of those that are not.
pub open spec fn failures(results: Seq<StepResult>, critical: bool) -> nat
    decreases results.len(),
{
    if results.len() == 0 {
        0
    } else if !results.last().passed && results.last().is_critical == critical {
        failures(results.drop_last(), critical) + 1
    } else {
        failures(results.drop_last(), critical)
    }
}

/// How the checks went.
#[derive(Debug, Copy, Clone, PartialEq, Eq, Structural)]
pub enum Diagnosis {
    /// So many critical checks failed.
    CriticalFailures(usize),
    /// So many checks failed, none of which is critical.
    NonCriticalFailures(usize),
    AllPassed,
}

fn count_failures(results: &Vec<StepResult>, critical: bool) -> (n: usize)
    ensures
        n == failures(results@, critical),
{
    let mut n: usize = 0;
    let mut i: usize = 0;
    assert(results@.take(0) =~= Seq::empty());
    while i < results.len()
        invariant
            n <= i <= results@.len(),
            n == failures(results@.take(i as int), critical),
        decreases results@.len() - i,
    {
        assert(results@.take(i + 1).drop_last() =~= results@.take(i as int));
        if !results[i].passed && results[i].is_critical == critical {
            n = n + 1;
        }
        i = i + 1;
    }
    assert(results@.take(i as int) =~= results@);
    n
}

/// Says how the checks went.
pub fn diagnose(results: &Vec<StepResult>) -> (d: Diagnosis)
    ensures
        d == (if failures(results@, true) > 0 {
            Diagnosis::CriticalFailures(failures(results@, true) as usize)
        } else if failures(results@, false) > 0 {
            Diagnosis::NonCriticalFailures(failures(results@, false) as usize)
        } else {
            Diagnosis::AllPassed
        }),
{
    let critical_failures: usize = count_failures(results, true);
    let non_critical_failures: usize = count_failures(results, false);
    if critical_failures > 0 {
        Diagnosis::CriticalFailures(critical_failures)
    } else if non_critical_failures > 0 {
        Diagnosis::NonCriticalFailures(non_critical_failures)
    } else {
        Diagnosis::AllPassed
    }
}

/// All checks have passed exactly if every step has.
pub proof fn lemma_all_passed(results: Seq<StepResult>)
    ensures
        (failures(results, true) == 0 && failures(results, false) == 0) <==> (forall|i: int|
            0 <= i < results.len() ==> (#[trigger] results[i]).passed),
    decreases results.len(),
{
    if results.len() > 0 {
        let before = results.drop_last();
        lemma_all_passed(before);
        assert(results.last() == results[results.len() - 1]);
        if forall|i: int| 0 <= i < results.len() ==> (#[trigger] results[i]).passed {
            assert forall|i: int| 0 <= i < before.len() implies (#[trigger] before[i]).passed by {
                assert(before[i] == results[i]);
            }
        }
        if failures(results, true) == 0 && failures(results, false) == 0 {
            assert forall|i: int| 0 <= i < results.len() implies (#[trigger] results[i]).passed by {
                if i < before.len() {
                    assert(before[i] == results[i]);
                }
            }
        }
    }
}

/// Versions are ordered by their first part, then by their second and then by their third: as the
/// numbers that they make with the first part as the highest digit.
pub proof fn lemma_version_order(
    major: u32,
    minor: u32,
    patch: u32,
    min_major: u32,
    min_minor: u32,
    min_patch: u32,
)
    ensures
        is_at_least(
            major as int,
            minor as int,
            patch as int,
            min_major as int,
            min_minor as int,
            min_patch as int,
        ) <==> major * 0x1_0000_0000_0000_0000 + minor * 0x1_0000_0000 + patch >= min_major
            * 0x1_0000_0000_0000_0000 + min_minor * 0x1_0000_0000 + min_patch,
{
}

/// Of what the compiler says of itself, the second word counts. It names a version that will do
/// exactly if that is version 1.88 or a later one, in three parts.
pub proof fn lemma_recent_rust(
    name: Seq<char>,
    a: Seq<char>,
    b: Seq<char>,
    c: Seq<char>,
    rest: Seq<char>,
)
    requires
        name.len() > 0,
        forall|i: int| 0 <= i < name.len() ==> !text::is_white(#[trigger] name[i]),
        forall|i: int| 0 <= i < a.len() ==> text::is_digit(#[trigger] a[i]),
        forall|i: int| 0 <= i < b.len() ==> text::is_digit(#[trigger] b[i]),
        forall|i: int| 0 <= i < c.len() ==> text::is_digit(#[trigger] c[i]),
        a.len() > 0 && text::decimal(a) <= u32::MAX,
        b.len() > 0 && text::decimal(b) <= u32::MAX,
        c.len() > 0 && text::decimal(c) <= u32::MAX,
        rest.len() > 0 ==> text::is_white(rest[0]),
    ensures
        is_recent_rust(name + seq![' '] + (a + seq!['.'] + (b + seq!['.'] + c)) + rest) <==>
            text::decimal(a) > 1 || (text::decimal(a) == 1 && text::decimal(b) >= 88),
{
    let version = a + seq!['.'] + (b + seq!['.'] + c);
    let output = name + seq![' '] + version + rest;
    let begin = (name.len() + 1) as nat;
    let end = (begin + version.len()) as nat;
    assert forall|i: int| 0 <= i < name.len() implies !text::is_white(#[trigger] output[i]) by {
        assert(output[i] == name[i]);
    }
    assert(output[name.len() as int] == ' ');
    text::lemma_words(output, 0, 0, name.len(), 0);
    assert forall|i: int| 0 <= i < version.len() implies !text::is_white(#[trigger] version[i]) by {
        if i < a.len() {
            assert(text::is_digit(a[i]));
        } else if a.len() < i < a.len() + 1 + b.len() {
            assert(text::is_digit(b[i - a.len() - 1]));
        } else if i > a.len() + 1 + b.len() {
            assert(text::is_digit(c[i - a.len() - b.len() - 2]));
        }
    }
    assert forall|i: int| begin <= i < end implies !text::is_white(#[trigger] output[i]) by {
        assert(output[i] == version[i - begin]);
    }
    if end < output.len() {
        assert(output[end as int] == rest[0]);
    }
    text::lemma_words(output, name.len(), begin, end, 0);
    assert(output.subrange(begin as int, end as int) =~= version);
    lemma_no_point(a);
    lemma_no_point(b);
    lemma_no_point(c);
    text::lemma_split_at_first(c, Seq::empty(), '.');
    text::lemma_split_at_first(b, c, '.');
    text::lemma_split_at_first(a, b + seq!['.'] + c, '.');
    assert(text::split(version, '.') =~= seq![a, b, c]);
    lemma_digits_count(a);
    lemma_digits_count(b);
    lemma_digits_count(c);
}

proof fn lemma_no_point(s: Seq<char>)
    requires
        forall|i: int| 0 <= i < s.len() ==> text::is_digit(#[trigger] s[i]),
    ensures
        !s.contains('.'),
{
    if s.contains('.') {
        assert(text::is_digit(s[s.index_of('.')]));
    }
}

proof fn lemma_digits_count(s: Seq<char>)
    requires
        s.len() > 0,
        forall|i: int| 0 <= i < s.len() ==> text::is_digit(#[trigger] s[i]),
        text::decimal(s) <= u32::MAX,
    ensures
        part_of(s) == text::decimal(s),
        text::decimal(s) >= 0,
{
    assert(text::is_digit(s[0]));
    assert(text::without_plus(s) == s);
    lemma_decimal_is_positive(s);
}

proof fn lemma_decimal_is_positive(s: Seq<char>)
    requires
        forall|i: int| 0 <= i < s.len() ==> text::is_digit(#[trigger] s[i]),
    ensures
        text::decimal(s) >= 0,
    decreases s.len(),
{
    if s.len() > 0 {
        assert(text::is_digit(s[s.len() - 1]));
        lemma_decimal_is_positive(s.drop_last());
    }
}

/// Each step that failed counts once, among those that are critical or among those that are not, as
/// it is.
pub proof fn lemma_failures_count(results: Seq<StepResult>, next: StepResult, critical: bool)
    ensures
        failures(Seq::empty(), critical) == 0,
        failures(results.push(next), critical) - failures(results, critical) == (if next.passed {
            0int
        } else if next.is_critical {
            if critical {
                1
            } else {
                0
            }
        } else {
            if critical {
                0
            } else {
                1
            }
        }),
{
    assert(results.push(next).drop_last() =~= results);
}

/// Of the toolchains and targets that are installed the stable toolchain and the target of the
/// device are needed. Of the other tools it is enough that they run.
pub proof fn lemma_what_is_needed(output: Seq<char>)
    ensures
        ToolCheckStep::RustToolchain.accepts(output) <==> text::occurs(output, "stable"@),
        ToolCheckStep::RustTarget.accepts(output) <==> text::occurs(
            output,
            "riscv32imc-unknown-none-elf"@,
        ),
        ToolCheckStep::RustVersion.accepts(output) <==> is_recent_rust(output),
        ToolCheckStep::ProtobufCompiler.accepts(output),
        ToolCheckStep::ProbeRs.accepts(output),
        ToolCheckStep::EspFlash.accepts(output),
{
}

/// A part of a version that is a number counts as that, and one that is none counts as zero.
pub proof fn lemma_part_of_version(s: Seq<char>)
    ensures
        text::parsed(s, u32::MAX as int) matches Some(n) ==> part_of(s) == n,
        text::parsed(s, u32::MAX as int) is None ==> part_of(s) == 0,
{
}

} // verus!
