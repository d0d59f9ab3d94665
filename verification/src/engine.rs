//! The environment verification engine: for a fixed catalog of tools it
//! judges each probe's captured output against a minimum-version policy,
//! and adds the kernel, PTY, alias, compiler and core-count checks.
//!
//! The engine is pure: the probes' outcomes come in as an `Environment`
//! value, and the pass/fail verdicts with their report lines come out as a
//! `VerificationReport`.  Only the Coreutils check is fatal; every other
//! failure is advisory.

use crate::text::contains_ci;
use crate::text::contains_case_insensitive;
use crate::text::contains_seq;
use crate::text::contains_str;
use crate::text::append_padded;
use crate::text::pad_right;
use crate::text::trimmed;
use crate::text::trim_ascii;
use crate::text::run_end;
use crate::text::CharClass;
use crate::text::scan_run;
use crate::version::clamped;
use crate::version::observed_version;
use crate::version::extract_observed_version;
use crate::version::spec_version_le;
use crate::version::version_le;
use vstd::prelude::*;

verus! {

/// One tool the policy requires: its display name, the command probed for
/// it, and the minimum acceptable version.
pub struct VersionRequirement {
    pub name: String,
    pub command: String,
    pub min_version: String,
}

/// What invoking one probe produced: whether the command could be launched
/// at all, and the standard output it printed if so.
pub struct ProbeOutcome {
    pub launched: bool,
    pub stdout: String,
}

/// One reported check: its verdict and its report line.
#[derive(Debug)]
pub struct CheckResult {
    pub ok: bool,
    pub message: String,
}

/// The display name of catalog entry `i`.
pub open spec fn cat_name(i: int) -> Seq<char> {
    if i == 0 { "Coreutils"@ }
    else if i == 1 { "Bash"@ }
    else if i == 2 { "Binutils"@ }
    else if i == 3 { "Bison"@ }
    else if i == 4 { "Diffutils"@ }
    else if i == 5 { "Findutils"@ }
    else if i == 6 { "Gawk"@ }
    else if i == 7 { "GCC"@ }
    else if i == 8 { "GCC (C++)"@ }
    else if i == 9 { "Grep"@ }
    else if i == 10 { "Gzip"@ }
    else if i == 11 { "M4"@ }
    else if i == 12 { "Make"@ }
    else if i == 13 { "Patch"@ }
    else if i == 14 { "Perl"@ }
    else if i == 15 { "Python"@ }
    else if i == 16 { "Sed"@ }
    else if i == 17 { "Tar"@ }
    else if i == 18 { "Texinfo"@ }
    else { "Xz"@ }
}

/// The probe command of catalog entry `i`.
pub open spec fn cat_cmd(i: int) -> Seq<char> {
    if i == 0 { "sort"@ }
    else if i == 1 { "bash"@ }
    else if i == 2 { "ld"@ }
    else if i == 3 { "bison"@ }
    else if i == 4 { "diff"@ }
    else if i == 5 { "find"@ }
    else if i == 6 { "gawk"@ }
    else if i == 7 { "gcc"@ }
    else if i == 8 { "g++"@ }
    else if i == 9 { "grep"@ }
    else if i == 10 { "gzip"@ }
    else if i == 11 { "m4"@ }
    else if i == 12 { "make"@ }
    else if i == 13 { "patch"@ }
    else if i == 14 { "perl"@ }
    else if i == 15 { "python3"@ }
    else if i == 16 { "sed"@ }
    else if i == 17 { "tar"@ }
    else if i == 18 { "texi2any"@ }
    else { "xz"@ }
}

/// The minimum version of catalog entry `i`.
pub open spec fn cat_min(i: int) -> Seq<char> {
    if i == 0 { "8.1"@ }
    else if i == 1 { "3.2"@ }
    else if i == 2 { "2.13.1"@ }
    else if i == 3 { "2.7"@ }
    else if i == 4 { "2.8.1"@ }
    else if i == 5 { "4.2.31"@ }
    else if i == 6 { "4.0.1"@ }
    else if i == 7 { "5.2"@ }
    else if i == 8 { "5.2"@ }
    else if i == 9 { "2.5.1a"@ }
    else if i == 10 { "1.3.12"@ }
    else if i == 11 { "1.4.10"@ }
    else if i == 12 { "4.0"@ }
    else if i == 13 { "2.5.4"@ }
    else if i == 14 { "5.8.8"@ }
    else if i == 15 { "3.4"@ }
    else if i == 16 { "4.1.5"@ }
    else if i == 17 { "1.22"@ }
    else if i == 18 { "5.0"@ }
    else { "5.0.0"@ }
}

/// The number of entries in the tool catalog.
pub open spec fn cat_len() -> int {
    20
}

/// Whether `s` is the tool catalog: the fixed ordered list of required
/// tools with their probe commands and minimum versions.
pub open spec fn catalog_ok(s: Seq<VersionRequirement>) -> bool {
    s.len() == cat_len() && forall|i: int|
        0 <= i < cat_len() ==> (#[trigger] s[i]).name@ == cat_name(i) && s[i].command@ == cat_cmd(i)
            && s[i].min_version@ == cat_min(i)
}

fn req(name: &str, command: &str, min_version: &str) -> (r: VersionRequirement)
    ensures
        r.name@ == name@,
        r.command@ == command@,
        r.min_version@ == min_version@,
{
    VersionRequirement {
        name: name.to_owned(),
        command: command.to_owned(),
        min_version: min_version.to_owned(),
    }
}

/// The fixed catalog of required tools, in the order they are checked.
pub fn version_catalog() -> (r: Vec<VersionRequirement>)
    ensures
        catalog_ok(r@),
{
    let mut v: Vec<VersionRequirement> = Vec::new();
    v.push(req("Coreutils", "sort", "8.1"));
    v.push(req("Bash", "bash", "3.2"));
    v.push(req("Binutils", "ld", "2.13.1"));
    v.push(req("Bison", "bison", "2.7"));
    v.push(req("Diffutils", "diff", "2.8.1"));
    v.push(req("Findutils", "find", "4.2.31"));
    v.push(req("Gawk", "gawk", "4.0.1"));
    v.push(req("GCC", "gcc", "5.2"));
    v.push(req("GCC (C++)", "g++", "5.2"));
    v.push(req("Grep", "grep", "2.5.1a"));
    v.push(req("Gzip", "gzip", "1.3.12"));
    v.push(req("M4", "m4", "1.4.10"));
    v.push(req("Make", "make", "4.0"));
    v.push(req("Patch", "patch", "2.5.4"));
    v.push(req("Perl", "perl", "5.8.8"));
    v.push(req("Python", "python3", "3.4"));
    v.push(req("Sed", "sed", "4.1.5"));
    v.push(req("Tar", "tar", "1.22"));
    v.push(req("Texinfo", "texi2any", "5.0"));
    v.push(req("Xz", "xz", "5.0.0"));
    v
}

/// Whether a tool's version check passes: the probe could be launched and
/// the version its output reports is at least the minimum.
pub open spec fn ver_check_ok_spec(launched: bool, out: Seq<char>, min: Seq<char>) -> bool {
    launched && spec_version_le(min, observed_version(out))
}

/// The report line of a tool's version check.
pub open spec fn ver_check_msg_spec(
    name: Seq<char>,
    cmd: Seq<char>,
    min: Seq<char>,
    launched: bool,
    out: Seq<char>,
) -> Seq<char> {
    if !launched {
        "ERROR: Cannot find "@ + cmd + " ("@ + name + ")"@
    } else if spec_version_le(min, observed_version(out)) {
        "OK:    "@ + pad_right(name, 9) + " "@ + pad_right(observed_version(out), 6) + " >= "@
            + min
    } else {
        "ERROR: "@ + pad_right(name, 9) + " is TOO OLD ("@ + min + " or later required)"@
    }
}

/// Judges one tool's version probe: fails when the probe could not be
/// launched, otherwise extracts the reported version and compares it
/// against the minimum.
pub fn ver_check(name: &str, cmd: &str, min_version: &str, probe: &ProbeOutcome) -> (r:
    CheckResult)
    ensures
        r.ok == ver_check_ok_spec(probe.launched, probe.stdout@, min_version@),
        r.message@ == ver_check_msg_spec(name@, cmd@, min_version@, probe.launched, probe.stdout@),
{
    if !probe.launched {
        let mut m = String::new();
        m.append("ERROR: Cannot find ");
        m.append(cmd);
        m.append(" (");
        m.append(name);
        m.append(")");
        proof {
            assert(m@ =~= "ERROR: Cannot find "@ + cmd@ + " ("@ + name@ + ")"@);
        }
        return CheckResult { ok: false, message: m };
    }
    let version = extract_observed_version(probe.stdout.as_str());
    if version_le(min_version, version.as_str()) {
        let mut m = String::new();
        m.append("OK:    ");
        append_padded(&mut m, name, 9);
        m.append(" ");
        append_padded(&mut m, version.as_str(), 6);
        m.append(" >= ");
        m.append(min_version);
        proof {
            assert(m@ =~= "OK:    "@ + pad_right(name@, 9) + " "@ + pad_right(
                observed_version(probe.stdout@),
                6,
            ) + " >= "@ + min_version@);
        }
        CheckResult { ok: true, message: m }
    } else {
        let mut m = String::new();
        m.append("ERROR: ");
        append_padded(&mut m, name, 9);
        m.append(" is TOO OLD (");
        m.append(min_version);
        m.append(" or later required)");
        proof {
            assert(m@ =~= "ERROR: "@ + pad_right(name@, 9) + " is TOO OLD ("@ + min_version@
                + " or later required)"@);
        }
        CheckResult { ok: false, message: m }
    }
}

/// The kernel release truncated to its first two dot-separated fields.
pub open spec fn kernel_version_of(out: Seq<char>) -> Seq<char> {
    let e1 = clamped(run_end(out, 0, CharClass::NonDot), 0, out.len() as int);
    if e1 >= out.len() {
        out
    } else {
        let e2 = clamped(run_end(out, e1 + 1, CharClass::NonDot), e1 + 1, out.len() as int);
        out.subrange(0, e2)
    }
}

/// Truncates a kernel release string to major.minor.
pub fn kernel_version(out: &str) -> (r: String)
    ensures
        r@ == kernel_version_of(out@),
{
    let n = out.unicode_len();
    let e1 = scan_run(out, 0, CharClass::NonDot);
    if e1 >= n {
        proof {
            assert(out@.subrange(0, n as int) =~= out@);
        }
        out.substring_char(0, n).to_owned()
    } else {
        let e2 = scan_run(out, e1 + 1, CharClass::NonDot);
        out.substring_char(0, e2).to_owned()
    }
}

/// The report line of the kernel check.
pub open spec fn kernel_msg_spec(out: Seq<char>, min: Seq<char>) -> Seq<char> {
    let v = kernel_version_of(out);
    if spec_version_le(min, v) {
        "OK:    Linux Kernel "@ + v + " >= "@ + min
    } else {
        "ERROR: Linux Kernel ("@ + v + ") is TOO OLD ("@ + min + " or later required)"@
    }
}

/// Judges the kernel release against the minimum version, on the first two
/// dot-separated fields.
pub fn ver_kernel(kernel_out: &str, min_version: &str) -> (r: CheckResult)
    ensures
        r.ok == spec_version_le(min_version@, kernel_version_of(kernel_out@)),
        r.message@ == kernel_msg_spec(kernel_out@, min_version@),
{
    let v = kernel_version(kernel_out);
    if version_le(min_version, v.as_str()) {
        let mut m = String::new();
        m.append("OK:    Linux Kernel ");
        m.append(v.as_str());
        m.append(" >= ");
        m.append(min_version);
        proof {
            assert(m@ =~= "OK:    Linux Kernel "@ + kernel_version_of(kernel_out@) + " >= "@
                + min_version@);
        }
        CheckResult { ok: true, message: m }
    } else {
        let mut m = String::new();
        m.append("ERROR: Linux Kernel (");
        m.append(v.as_str());
        m.append(") is TOO OLD (");
        m.append(min_version);
        m.append(" or later required)");
        proof {
            assert(m@ =~= "ERROR: Linux Kernel ("@ + kernel_version_of(kernel_out@)
                + ") is TOO OLD ("@ + min_version@ + " or later required)"@);
        }
        CheckResult { ok: false, message: m }
    }
}

/// The report line of an alias check.
pub open spec fn alias_msg_spec(cmd: Seq<char>, expected: Seq<char>, out: Seq<char>) -> Seq<
    char,
> {
    if contains_ci(out, expected) {
        "OK:    "@ + pad_right(cmd, 4) + " is "@ + expected
    } else {
        "ERROR: "@ + pad_right(cmd, 4) + " is NOT "@ + expected
    }
}

/// Judges whether a command's self-reported identity contains the expected
/// name, ignoring ASCII case.
pub fn alias_check(cmd: &str, expected: &str, out: &str) -> (r: CheckResult)
    ensures
        r.ok == contains_ci(out@, expected@),
        r.message@ == alias_msg_spec(cmd@, expected@, out@),
{
    if contains_case_insensitive(out, expected) {
        let mut m = String::new();
        m.append("OK:    ");
        append_padded(&mut m, cmd, 4);
        m.append(" is ");
        m.append(expected);
        proof {
            assert(m@ =~= "OK:    "@ + pad_right(cmd@, 4) + " is "@ + expected@);
        }
        CheckResult { ok: true, message: m }
    } else {
        let mut m = String::new();
        m.append("ERROR: ");
        append_padded(&mut m, cmd, 4);
        m.append(" is NOT ");
        m.append(expected);
        proof {
            assert(m@ =~= "ERROR: "@ + pad_right(cmd@, 4) + " is NOT "@ + expected@);
        }
        CheckResult { ok: false, message: m }
    }
}

/// Whether the mount listing and the multiplexer device node show UNIX 98
/// PTY support.
pub open spec fn pty_ok_spec(mount_out: Seq<char>, ptmx_exists: bool) -> bool {
    contains_seq(mount_out, "devpts on /dev/pts"@) && ptmx_exists
}

/// The report line of the PTY check.
pub open spec fn pty_msg_spec(mount_out: Seq<char>, ptmx_exists: bool) -> Seq<char> {
    if pty_ok_spec(mount_out, ptmx_exists) {
        "OK:    Linux Kernel supports UNIX 98 PTY"@
    } else {
        "ERROR: Linux Kernel does NOT support UNIX 98 PTY"@
    }
}

/// Judges PTY support from the mount listing and the presence of the
/// control-terminal multiplexer node.
pub fn pty_check(mount_out: &str, ptmx_exists: bool) -> (r: CheckResult)
    ensures
        r.ok == pty_ok_spec(mount_out@, ptmx_exists),
        r.message@ == pty_msg_spec(mount_out@, ptmx_exists),
{
    if contains_str(mount_out, "devpts on /dev/pts") && ptmx_exists {
        CheckResult { ok: true, message: "OK:    Linux Kernel supports UNIX 98 PTY".to_owned() }
    } else {
        CheckResult {
            ok: false,
            message: "ERROR: Linux Kernel does NOT support UNIX 98 PTY".to_owned(),
        }
    }
}

/// The report line of the compiler check.
pub open spec fn compiler_msg_spec(success: bool) -> Seq<char> {
    if success {
        "OK:    g++ works"@
    } else {
        "ERROR: g++ does NOT work"@
    }
}

/// Judges the compiler check from the compile's exit status alone.
pub fn compiler_report(success: bool) -> (r: CheckResult)
    ensures
        r.ok == success,
        r.message@ == compiler_msg_spec(success),
{
    if success {
        CheckResult { ok: true, message: "OK:    g++ works".to_owned() }
    } else {
        CheckResult { ok: false, message: "ERROR: g++ does NOT work".to_owned() }
    }
}

/// Whether the core-count probe produced a usable answer.
pub open spec fn cores_ok_spec(out: Seq<char>) -> bool {
    trimmed(out).len() > 0
}

/// The report line of the core-count check.
pub open spec fn cores_msg_spec(out: Seq<char>) -> Seq<char> {
    if cores_ok_spec(out) {
        "OK: nproc reports "@ + trimmed(out) + " logical cores are available"@
    } else {
        "ERROR: nproc is not available or it produces empty output"@
    }
}

/// Judges the core-count probe: reports the trimmed count when there is
/// one.
pub fn cores_check(out: &str) -> (r: CheckResult)
    ensures
        r.ok == cores_ok_spec(out@),
        r.message@ == cores_msg_spec(out@),
{
    let t = trim_ascii(out);
    if t.unicode_len() > 0 {
        let mut m = String::new();
        m.append("OK: nproc reports ");
        m.append(t.as_str());
        m.append(" logical cores are available");
        proof {
            assert(m@ =~= "OK: nproc reports "@ + trimmed(out@)
                + " logical cores are available"@);
        }
        CheckResult { ok: true, message: m }
    } else {
        CheckResult {
            ok: false,
            message: "ERROR: nproc is not available or it produces empty output".to_owned(),
        }
    }
}

/// Everything the probes observed, handed to the engine as one value.
///
/// `tool_probes` is aligned with the catalog.  `kernel_out`, the three
/// alias outputs and `compiler_ok` presuppose that those probes ran (the
/// caller treats a failure to launch them as its own failure, as the
/// runner does); `mount_out` and `nproc_out` are absent when those
/// commands could not be run, in which case their checks are skipped.
pub struct Environment {
    pub tool_probes: Vec<ProbeOutcome>,
    pub kernel_out: String,
    pub mount_out: Option<String>,
    pub ptmx_exists: bool,
    pub awk_out: String,
    pub yacc_out: String,
    pub sh_out: String,
    pub compiler_ok: bool,
    pub nproc_out: Option<String>,
}

/// The engine's verdicts, phase by phase.
///
/// When the Coreutils check fails, `tool_results` holds that single
/// result, `fatal` holds the abort message, and every later phase is
/// absent: nothing after the fatal check runs.
#[derive(Debug)]
pub struct VerificationReport {
    pub tool_results: Vec<CheckResult>,
    pub kernel: Option<CheckResult>,
    pub pty: Option<CheckResult>,
    pub aliases: Vec<CheckResult>,
    pub compiler: Option<CheckResult>,
    pub cores: Option<CheckResult>,
    pub fatal: Option<String>,
}

/// The mathematical content of an `Environment`.
#[verifier::ext_equal]
pub ghost struct EnvView {
    pub tool_probes: Seq<(bool, Seq<char>)>,
    pub kernel_out: Seq<char>,
    pub mount_out: Option<Seq<char>>,
    pub ptmx_exists: bool,
    pub awk_out: Seq<char>,
    pub yacc_out: Seq<char>,
    pub sh_out: Seq<char>,
    pub compiler_ok: bool,
    pub nproc_out: Option<Seq<char>>,
}

pub open spec fn env_view(e: &Environment) -> EnvView {
    EnvView {
        tool_probes: e.tool_probes@.map_values(|p: ProbeOutcome| (p.launched, p.stdout@)),
        kernel_out: e.kernel_out@,
        mount_out: match e.mount_out {
            Some(m) => Some(m@),
            None => None,
        },
        ptmx_exists: e.ptmx_exists,
        awk_out: e.awk_out@,
        yacc_out: e.yacc_out@,
        sh_out: e.sh_out@,
        compiler_ok: e.compiler_ok,
        nproc_out: match e.nproc_out {
            Some(m) => Some(m@),
            None => None,
        },
    }
}

/// The mathematical content of a `VerificationReport`.
#[verifier::ext_equal]
pub ghost struct ReportView {
    pub tool_results: Seq<(bool, Seq<char>)>,
    pub kernel: Option<(bool, Seq<char>)>,
    pub pty: Option<(bool, Seq<char>)>,
    pub aliases: Seq<(bool, Seq<char>)>,
    pub compiler: Option<(bool, Seq<char>)>,
    pub cores: Option<(bool, Seq<char>)>,
    pub fatal: Option<Seq<char>>,
}

pub open spec fn check_view(c: CheckResult) -> (bool, Seq<char>) {
    (c.ok, c.message@)
}

pub open spec fn report_view(r: &VerificationReport) -> ReportView {
    ReportView {
        tool_results: r.tool_results@.map_values(|c: CheckResult| check_view(c)),
        kernel: match r.kernel {
            Some(c) => Some(check_view(c)),
            None => None,
        },
        pty: match r.pty {
            Some(c) => Some(check_view(c)),
            None => None,
        },
        aliases: r.aliases@.map_values(|c: CheckResult| check_view(c)),
        compiler: match r.compiler {
            Some(c) => Some(check_view(c)),
            None => None,
        },
        cores: match r.cores {
            Some(c) => Some(check_view(c)),
            None => None,
        },
        fatal: match r.fatal {
            Some(m) => Some(m@),
            None => None,
        },
    }
}

/// The verdict and report line of catalog tool `i` on probe `p`.
pub open spec fn tool_check_spec(p: (bool, Seq<char>), i: int) -> (bool, Seq<char>) {
    (
        ver_check_ok_spec(p.0, p.1, cat_min(i)),
        ver_check_msg_spec(cat_name(i), cat_cmd(i), cat_min(i), p.0, p.1),
    )
}

/// The minimum kernel version the policy asks for.
pub open spec fn kernel_min_spec() -> Seq<char> {
    "4.19"@
}

/// What the verification report must say of the given environment.
///
/// The report is pinned completely: only the Coreutils verdict decides
/// whether the run aborts, and on an abort nothing after that check is
/// reported.
pub open spec fn report_matches(ev: EnvView, rv: ReportView) -> bool {
    let r0 = tool_check_spec(ev.tool_probes[0], 0);
    &&& (rv.fatal is Some <==> !r0.0)
    &&& (!r0.0 ==> {
        &&& rv.fatal == Some("Coreutils too old, stop"@)
        &&& rv.tool_results =~= seq![r0]
        &&& rv.kernel is None
        &&& rv.pty is None
        &&& rv.aliases =~= Seq::<(bool, Seq<char>)>::empty()
        &&& rv.compiler is None
        &&& rv.cores is None
    })
    &&& (r0.0 ==> {
        &&& rv.fatal is None
        &&& rv.tool_results.len() == cat_len()
        &&& (forall|i: int|
            0 <= i < cat_len() ==> #[trigger] rv.tool_results[i] == tool_check_spec(
                ev.tool_probes[i],
                i,
            ))
        &&& rv.kernel == Some(
            (
                spec_version_le(kernel_min_spec(), kernel_version_of(ev.kernel_out)),
                kernel_msg_spec(ev.kernel_out, kernel_min_spec()),
            ),
        )
        &&& (match ev.mount_out {
            Some(m) => rv.pty == Some((pty_ok_spec(m, ev.ptmx_exists), pty_msg_spec(m, ev.ptmx_exists))),
            None => rv.pty is None,
        })
        &&& rv.aliases =~= seq![
            (contains_ci(ev.awk_out, "GNU"@), alias_msg_spec("awk"@, "GNU"@, ev.awk_out)),
            (contains_ci(ev.yacc_out, "Bison"@), alias_msg_spec("yacc"@, "Bison"@, ev.yacc_out)),
            (contains_ci(ev.sh_out, "Bash"@), alias_msg_spec("sh"@, "Bash"@, ev.sh_out)),
        ]
        &&& rv.compiler == Some((ev.compiler_ok, compiler_msg_spec(ev.compiler_ok)))
        &&& (match ev.nproc_out {
            Some(m) => rv.cores == Some((cores_ok_spec(m), cores_msg_spec(m))),
            None => rv.cores is None,
        })
    })
}

/// Runs every check of the staged policy over the probes' outcomes: the
/// twenty catalog tools in order, then the kernel, PTY, alias, compiler
/// and core-count checks.  A failing Coreutils check is fatal and stops
/// the run before any other check; every other failure is advisory.
pub fn check_all_versions_stage_2(env: &Environment) -> (r: VerificationReport)
    requires
        env.tool_probes@.len() == cat_len(),
    ensures
        report_matches(env_view(env), report_view(&r)),
{
    let catalog = version_catalog();
    let ghost ev = env_view(env);
    let r0 = ver_check(
        catalog[0].name.as_str(),
        catalog[0].command.as_str(),
        catalog[0].min_version.as_str(),
        &env.tool_probes[0],
    );
    proof {
        assert(ev.tool_probes[0] == (env.tool_probes@[0].launched, env.tool_probes@[0].stdout@));
        assert(check_view(r0) == tool_check_spec(ev.tool_probes[0], 0));
    }
    if !r0.ok {
        let mut tool_results: Vec<CheckResult> = Vec::new();
        tool_results.push(r0);
        let report = VerificationReport {
            tool_results,
            kernel: None,
            pty: None,
            aliases: Vec::new(),
            compiler: None,
            cores: None,
            fatal: Some("Coreutils too old, stop".to_owned()),
        };
        proof {
            assert(report_view(&report).tool_results =~= seq![
                tool_check_spec(ev.tool_probes[0], 0),
            ]);
            assert(report_view(&report).aliases =~= Seq::<(bool, Seq<char>)>::empty());
        }
        return report;
    }
    let mut tool_results: Vec<CheckResult> = Vec::new();
    tool_results.push(r0);
    let mut i: usize = 1;
    while i < 20
        invariant
            1 <= i <= 20,
            env.tool_probes@.len() == cat_len(),
            catalog_ok(catalog@),
            ev == env_view(env),
            tool_results@.len() == i,
            forall|k: int|
                0 <= k < i ==> check_view(#[trigger] tool_results@[k]) == tool_check_spec(
                    ev.tool_probes[k],
                    k,
                ),
        decreases 20 - i,
    {
        let c = ver_check(
            catalog[i].name.as_str(),
            catalog[i].command.as_str(),
            catalog[i].min_version.as_str(),
            &env.tool_probes[i],
        );
        proof {
            assert(ev.tool_probes[i as int] == (
                env.tool_probes@[i as int].launched,
                env.tool_probes@[i as int].stdout@,
            ));
        }
        tool_results.push(c);
        i = i + 1;
    }
    let kernel = ver_kernel(env.kernel_out.as_str(), "4.19");
    let pty = match &env.mount_out {
        Some(m) => Some(pty_check(m.as_str(), env.ptmx_exists)),
        None => None,
    };
    let mut aliases: Vec<CheckResult> = Vec::new();
    aliases.push(alias_check("awk", "GNU", env.awk_out.as_str()));
    aliases.push(alias_check("yacc", "Bison", env.yacc_out.as_str()));
    aliases.push(alias_check("sh", "Bash", env.sh_out.as_str()));
    let compiler = compiler_report(env.compiler_ok);
    let cores = match &env.nproc_out {
        Some(m) => Some(cores_check(m.as_str())),
        None => None,
    };
    let report = VerificationReport {
        tool_results,
        kernel: Some(kernel),
        pty,
        aliases,
        compiler: Some(compiler),
        cores,
        fatal: None,
    };
    proof {
        let rv = report_view(&report);
        assert forall|k: int|
            0 <= k < cat_len() implies #[trigger] rv.tool_results[k] == tool_check_spec(
            ev.tool_probes[k],
            k,
        ) by {
            assert(rv.tool_results[k] == check_view(report.tool_results@[k]));
        }
        assert(rv.aliases =~= seq![
            (contains_ci(ev.awk_out, "GNU"@), alias_msg_spec("awk"@, "GNU"@, ev.awk_out)),
            (contains_ci(ev.yacc_out, "Bison"@), alias_msg_spec("yacc"@, "Bison"@, ev.yacc_out)),
            (contains_ci(ev.sh_out, "Bash"@), alias_msg_spec("sh"@, "Bash"@, ev.sh_out)),
        ]);
    }
    report
}

/// The report is a function of the environment alone: any two reports the
/// contract admits for environments with the same content agree in every
/// verdict and every report line.  Running the engine twice in a row
/// against an unchanged environment therefore reports the same results.
pub proof fn lemma_verification_deterministic(
    e1: EnvView,
    e2: EnvView,
    v1: ReportView,
    v2: ReportView,
)
    requires
        e1 == e2,
        report_matches(e1, v1),
        report_matches(e2, v2),
    ensures
        v1 == v2,
{
    let r0 = tool_check_spec(e1.tool_probes[0], 0);
    if !r0.0 {
        assert(v1 =~= v2);
    } else {
        assert(v1.tool_results =~= v2.tool_results);
        assert(v1 =~= v2);
    }
}

} // verus!
