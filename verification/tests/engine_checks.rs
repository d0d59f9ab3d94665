use malfs::engine::Environment;
use malfs::engine::ProbeOutcome;
use malfs::engine::alias_check;
use malfs::engine::check_all_versions_stage_2;
use malfs::engine::compiler_report;
use malfs::engine::cores_check;
use malfs::engine::pty_check;
use malfs::engine::ver_check;
use malfs::engine::ver_kernel;
use malfs::engine::version_catalog;

fn probe(out: &str) -> ProbeOutcome {
    ProbeOutcome { launched: true, stdout: out.to_string() }
}

fn missing() -> ProbeOutcome {
    ProbeOutcome { launched: false, stdout: String::new() }
}

fn healthy_env() -> Environment {
    let outputs = [
        "sort (GNU coreutils) 8.32",
        "GNU bash, version 5.1.16",
        "GNU ld (GNU Binutils) 2.38",
        "bison (GNU Bison) 3.8.2",
        "diff (GNU diffutils) 3.8",
        "find (GNU findutils) 4.8.0",
        "GNU Awk 5.1.0",
        "gcc (GCC) 11.3.0",
        "g++ (GCC) 11.3.0",
        "grep (GNU grep) 3.7",
        "gzip 1.10",
        "m4 (GNU M4) 1.4.18",
        "GNU Make 4.3",
        "GNU patch 2.7.6",
        "This is perl 5 version 34, subversion 0 (v5.34.0)",
        "Python 3.10.6",
        "sed (GNU sed) 4.8",
        "tar (GNU tar) 1.34",
        "texi2any (GNU texinfo) 6.8",
        "xz (XZ Utils) 5.2.5",
    ];
    Environment {
        tool_probes: outputs.iter().map(|o| probe(o)).collect(),
        kernel_out: "6.1.0-generic\n".to_string(),
        mount_out: Some("devpts on /dev/pts type devpts (rw,nosuid)".to_string()),
        ptmx_exists: true,
        awk_out: "GNU Awk 5.1.0".to_string(),
        yacc_out: "bison (GNU Bison) 3.8.2".to_string(),
        sh_out: "GNU bash, version 5.1.16".to_string(),
        compiler_ok: true,
        nproc_out: Some("8\n".to_string()),
    }
}

#[test]
fn catalog_is_the_fixed_policy() {
    let cat = version_catalog();
    assert_eq!(cat.len(), 20);
    assert_eq!(cat[0].name, "Coreutils");
    assert_eq!(cat[0].command, "sort");
    assert_eq!(cat[0].min_version, "8.1");
    assert_eq!(cat[9].name, "Grep");
    assert_eq!(cat[9].min_version, "2.5.1a");
    assert_eq!(cat[19].name, "Xz");
    assert_eq!(cat[19].min_version, "5.0.0");
}

#[test]
fn ver_check_pass_line() {
    let r = ver_check("Coreutils", "sort", "8.1", &probe("sort (GNU coreutils) 8.32"));
    assert!(r.ok);
    assert_eq!(r.message, "OK:    Coreutils 8.32   >= 8.1");
}

#[test]
fn ver_check_too_old_line() {
    let r = ver_check("Bash", "bash", "3.2", &probe("GNU bash, version 2.0"));
    assert!(!r.ok);
    assert_eq!(r.message, "ERROR: Bash      is TOO OLD (3.2 or later required)");
}

#[test]
fn ver_check_cannot_launch_line() {
    let r = ver_check("Bash", "bash", "3.2", &missing());
    assert!(!r.ok);
    assert_eq!(r.message, "ERROR: Cannot find bash (Bash)");
}

#[test]
fn ver_check_no_version_token_fails() {
    let r = ver_check("Make", "make", "4.0", &probe("no digits at all"));
    assert!(!r.ok);
}

#[test]
fn kernel_check_lines() {
    let ok = ver_kernel("6.18.44-fc\n", "4.19");
    assert!(ok.ok);
    assert_eq!(ok.message, "OK:    Linux Kernel 6.18 >= 4.19");
    let old = ver_kernel("3.2.1\n", "4.19");
    assert!(!old.ok);
    assert_eq!(old.message, "ERROR: Linux Kernel (3.2) is TOO OLD (4.19 or later required)");
}

#[test]
fn alias_check_lines() {
    let ok = alias_check("awk", "GNU", "gnu Awk 5.1.0");
    assert!(ok.ok);
    assert_eq!(ok.message, "OK:    awk  is GNU");
    let bad = alias_check("yacc", "Bison", "byacc 20210109");
    assert!(!bad.ok);
    assert_eq!(bad.message, "ERROR: yacc is NOT Bison");
}

#[test]
fn pty_check_lines() {
    let ok = pty_check("devpts on /dev/pts type devpts (rw)", true);
    assert!(ok.ok);
    assert_eq!(ok.message, "OK:    Linux Kernel supports UNIX 98 PTY");
    let no_node = pty_check("devpts on /dev/pts type devpts (rw)", false);
    assert!(!no_node.ok);
    let no_mount = pty_check("proc on /proc type proc (rw)", true);
    assert!(!no_mount.ok);
    assert_eq!(no_mount.message, "ERROR: Linux Kernel does NOT support UNIX 98 PTY");
}

#[test]
fn compiler_report_lines() {
    assert_eq!(compiler_report(true).message, "OK:    g++ works");
    assert!(compiler_report(true).ok);
    let bad = compiler_report(false);
    assert!(!bad.ok);
    assert_eq!(bad.message, "ERROR: g++ does NOT work");
}

#[test]
fn cores_check_lines() {
    let ok = cores_check("8\n");
    assert!(ok.ok);
    assert_eq!(ok.message, "OK: nproc reports 8 logical cores are available");
    let bad = cores_check(" \n");
    assert!(!bad.ok);
    assert_eq!(bad.message, "ERROR: nproc is not available or it produces empty output");
}

#[test]
fn full_run_reports_every_check() {
    let env = healthy_env();
    let report = check_all_versions_stage_2(&env);
    assert!(report.fatal.is_none());
    assert_eq!(report.tool_results.len(), 20);
    for r in &report.tool_results {
        assert!(r.ok, "unexpected failure: {}", r.message);
    }
    assert!(report.kernel.unwrap().ok);
    assert!(report.pty.unwrap().ok);
    assert_eq!(report.aliases.len(), 3);
    assert!(report.aliases.iter().all(|a| a.ok));
    assert!(report.compiler.unwrap().ok);
    assert!(report.cores.unwrap().ok);
}

#[test]
fn coreutils_missing_aborts_before_any_other_check() {
    let mut env = healthy_env();
    env.tool_probes[0] = missing();
    let report = check_all_versions_stage_2(&env);
    assert_eq!(report.fatal.as_deref(), Some("Coreutils too old, stop"));
    assert_eq!(report.tool_results.len(), 1);
    assert!(!report.tool_results[0].ok);
    assert_eq!(report.tool_results[0].message, "ERROR: Cannot find sort (Coreutils)");
    assert!(report.kernel.is_none());
    assert!(report.pty.is_none());
    assert!(report.aliases.is_empty());
    assert!(report.compiler.is_none());
    assert!(report.cores.is_none());
}

#[test]
fn coreutils_too_old_aborts() {
    let mut env = healthy_env();
    env.tool_probes[0] = probe("sort (GNU coreutils) 7.0");
    let report = check_all_versions_stage_2(&env);
    assert_eq!(report.fatal.as_deref(), Some("Coreutils too old, stop"));
    assert_eq!(report.tool_results.len(), 1);
}

#[test]
fn advisory_failures_do_not_abort() {
    let mut env = healthy_env();
    env.tool_probes[1] = probe("GNU bash, version 2.0");
    env.compiler_ok = false;
    let report = check_all_versions_stage_2(&env);
    assert!(report.fatal.is_none());
    assert_eq!(report.tool_results.len(), 20);
    assert!(!report.tool_results[1].ok);
    assert!(!report.compiler.unwrap().ok);
}

#[test]
fn skipped_probes_are_skipped() {
    let mut env = healthy_env();
    env.mount_out = None;
    env.nproc_out = None;
    let report = check_all_versions_stage_2(&env);
    assert!(report.fatal.is_none());
    assert!(report.pty.is_none());
    assert!(report.cores.is_none());
}

#[test]
fn verification_is_idempotent() {
    // Two runs against an unchanged environment report the same results.
    let env = healthy_env();
    let a = check_all_versions_stage_2(&env);
    let b = check_all_versions_stage_2(&env);
    assert_eq!(a.tool_results.len(), b.tool_results.len());
    for (x, y) in a.tool_results.iter().zip(b.tool_results.iter()) {
        assert_eq!(x.ok, y.ok);
        assert_eq!(x.message, y.message);
    }
    let ak = a.kernel.unwrap();
    let bk = b.kernel.unwrap();
    assert_eq!(ak.ok, bk.ok);
    assert_eq!(ak.message, bk.message);
    assert_eq!(a.fatal, b.fatal);
}
