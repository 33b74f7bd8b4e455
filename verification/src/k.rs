//! Running the K prover: its command line and how its output is read.
use vstd::prelude::*;

use crate::text::{trim_equals, trimmed};

verus! {

/// What a run of the K prover left behind.
#[derive(Debug)]
pub struct KResult {
    pub output_file_path: Option<String>,
    pub error_file_path: Option<String>,
    /// The exit code; `None` where the process ended without one (killed).
    pub status_code: Option<i32>,
    pub timed_out: bool,
    /// The verdict read from the output: `Some(true)` proved, `Some(false)`
    /// refuted, `None` where the output holds neither.
    pub proved: Option<bool>,
}

/// The record of a run: it timed out exactly when the process gave no exit
/// code.
pub fn k_result(
    output_file_path: String,
    error_file_path: String,
    status_code: Option<i32>,
    proved: Option<bool>,
) -> (r: KResult)
    ensures
        r.output_file_path == Some(output_file_path),
        r.error_file_path == Some(error_file_path),
        r.status_code == status_code,
        r.timed_out == (status_code is None),
        r.proved == proved,
{
    KResult {
        output_file_path: Some(output_file_path),
        error_file_path: Some(error_file_path),
        status_code,
        timed_out: status_code.is_none(),
        proved,
    }
}

/// The Java class path of a K distribution.
pub fn class_path(kpath: &str) -> (cp: String)
    ensures
        cp@ == kpath@ + "/target/release/k/lib/java/*"@,
{
    let mut cp = String::from_str(kpath);
    cp.append("/target/release/k/lib/java/*");
    cp
}

/// The arguments of the Java process that runs `kprove`.
pub open spec fn kprove_args_spec(
    cppath: Seq<char>,
    sempath: Seq<char>,
    smt_prelude: Seq<char>,
    specpath: Seq<char>,
) -> Seq<Seq<char>> {
    seq![
        "-Dfile.encoding=UTF-8"@,
        "-Djava.awt.headless=true"@,
        "-Xms10024m"@,
        "-Xmx10192m"@,
        "-Xss32m"@,
        "-XX:+TieredCompilation"@,
        "-ea"@,
        "-cp"@,
        cppath,
        "org.kframework.main.Main"@,
        "-kprove"@,
        "-v"@,
        "--debug"@,
        "-d"@,
        sempath,
        "-m"@,
        "VERIFICATION"@,
        "--z3-impl-timeout"@,
        "500"@,
        "--deterministic-functions"@,
        "--no-exc-wrap"@,
        "--cache-func-optimized"@,
        "--no-alpha-renaming"@,
        "--format-failures"@,
        "--boundary-cells"@,
        "k,pc"@,
        "--log-cells"@,
        "k,output,statusCode,localMem,pc,gas,wordStack,callData,accounts,memoryUsed,#pc,#result,#target"@,
        "--smt-prelude"@,
        smt_prelude,
        specpath,
    ]
}

fn push_str(v: &mut Vec<String>, s: &str)
    ensures
        final(v)@.map_values(|x: String| x@) == old(v)@.map_values(|x: String| x@).push(s@),
{
    v.push(String::from_str(s));
    proof {
        assert(final(v)@.map_values(|x: String| x@) =~= old(v)@.map_values(|x: String| x@).push(s@));
    }
}

/// The command line of the prover: JVM settings, the class path, the prover's
/// options, the semantics directory, the SMT prelude and the specification.
pub fn kprove_args(cppath: &str, sempath: &str, smt_prelude: &str, specpath: &str) -> (args: Vec<
    String,
>)
    ensures
        args@.map_values(|x: String| x@) == kprove_args_spec(cppath@, sempath@, smt_prelude@, specpath@),
{
    let mut v: Vec<String> = Vec::new();
    push_str(&mut v, "-Dfile.encoding=UTF-8");
    push_str(&mut v, "-Djava.awt.headless=true");
    push_str(&mut v, "-Xms10024m");
    push_str(&mut v, "-Xmx10192m");
    push_str(&mut v, "-Xss32m");
    push_str(&mut v, "-XX:+TieredCompilation");
    push_str(&mut v, "-ea");
    push_str(&mut v, "-cp");
    push_str(&mut v, cppath);
    push_str(&mut v, "org.kframework.main.Main");
    push_str(&mut v, "-kprove");
    push_str(&mut v, "-v");
    push_str(&mut v, "--debug");
    push_str(&mut v, "-d");
    push_str(&mut v, sempath);
    push_str(&mut v, "-m");
    push_str(&mut v, "VERIFICATION");
    push_str(&mut v, "--z3-impl-timeout");
    push_str(&mut v, "500");
    push_str(&mut v, "--deterministic-functions");
    push_str(&mut v, "--no-exc-wrap");
    push_str(&mut v, "--cache-func-optimized");
    push_str(&mut v, "--no-alpha-renaming");
    push_str(&mut v, "--format-failures");
    push_str(&mut v, "--boundary-cells");
    push_str(&mut v, "k,pc");
    push_str(&mut v, "--log-cells");
    push_str(
        &mut v,
        "k,output,statusCode,localMem,pc,gas,wordStack,callData,accounts,memoryUsed,#pc,#result,#target",
    );
    push_str(&mut v, "--smt-prelude");
    push_str(&mut v, smt_prelude);
    push_str(&mut v, specpath);
    proof {
        assert(v@.map_values(|x: String| x@) =~= kprove_args_spec(
            cppath@,
            sempath@,
            smt_prelude@,
            specpath@,
        ));
    }
    v
}

/// The verdict in the prover's output: the last line that reads `#True` or
/// `false`, once trimmed, decides; `None` where there is no such line.
pub open spec fn proof_verdict(lines: Seq<Seq<char>>) -> Option<bool>
    decreases lines.len(),
{
    if lines.len() == 0 {
        None
    } else if trimmed(lines.last()) == "#True"@ {
        Some(true)
    } else if trimmed(lines.last()) == "false"@ {
        Some(false)
    } else {
        proof_verdict(lines.drop_last())
    }
}

/// The verdict of a run, read from the lines of its output.
pub fn proved_from_output(lines: &Vec<String>) -> (r: Option<bool>)
    ensures
        r == proof_verdict(lines@.map_values(|l: String| l@)),
{
    let ghost all = lines@.map_values(|l: String| l@);
    let mut proved: Option<bool> = None;
    let mut i: usize = 0;
    while i < lines.len()
        invariant
            i <= lines@.len(),
            all == lines@.map_values(|l: String| l@),
            proved == proof_verdict(all.subrange(0, i as int)),
        decreases lines@.len() - i,
    {
        proof {
            assert(all.subrange(0, i + 1).drop_last() =~= all.subrange(0, i as int));
            assert(all.subrange(0, i + 1).last() == lines@[i as int]@);
        }
        if trim_equals(lines[i].as_str(), "#True") {
            proved = Some(true);
        } else if trim_equals(lines[i].as_str(), "false") {
            proved = Some(false);
        }
        i = i + 1;
    }
    proof {
        assert(all.subrange(0, lines@.len() as int) =~= all);
    }
    proved
}

/// Only a line that trims to exactly `#True` or `false` counts: one more line
/// sets the verdict when it trims to one of those words and leaves the
/// verdict as it was otherwise.
pub proof fn lemma_verdict_of_next_line(lines: Seq<Seq<char>>, l: Seq<char>)
    ensures
        proof_verdict(lines.push(l)) == if trimmed(l) == "#True"@ {
            Some(true)
        } else if trimmed(l) == "false"@ {
            Some(false)
        } else {
            proof_verdict(lines)
        },
{
    assert(lines.push(l).drop_last() =~= lines);
}

/// An output with no line that trims to `#True` or `false` gives no verdict.
pub proof fn lemma_no_verdict_without_marker(lines: Seq<Seq<char>>)
    requires
        forall|i: int|
            0 <= i < lines.len() ==> trimmed(#[trigger] lines[i]) != "#True"@ && trimmed(lines[i])
                != "false"@,
    ensures
        proof_verdict(lines) is None,
    decreases lines.len(),
{
    if lines.len() > 0 {
        let d = lines.drop_last();
        assert(lines =~= d.push(lines.last()));
        assert forall|i: int| 0 <= i < d.len() implies trimmed(#[trigger] d[i]) != "#True"@
            && trimmed(d[i]) != "false"@ by {
            assert(d[i] == lines[i]);
        }
        lemma_no_verdict_without_marker(d);
        assert(trimmed(lines[lines.len() - 1]) != "#True"@);
        lemma_verdict_of_next_line(d, lines.last());
    }
}

/// The verdict is `Some(true)` or `Some(false)` exactly when some line trims to
/// `#True` or `false`, and then it is the word of the last such line.
pub proof fn lemma_verdict_is_last_marker(lines: Seq<Seq<char>>, i: int)
    requires
        0 <= i < lines.len(),
        trimmed(lines[i]) == "#True"@ || trimmed(lines[i]) == "false"@,
        forall|k: int|
            i < k < lines.len() ==> trimmed(#[trigger] lines[k]) != "#True"@ && trimmed(lines[k])
                != "false"@,
    ensures
        proof_verdict(lines) == Some(trimmed(lines[i]) == "#True"@),
    decreases lines.len(),
{
    let d = lines.drop_last();
    assert(lines =~= d.push(lines.last()));
    lemma_verdict_of_next_line(d, lines.last());
    if i < lines.len() - 1 {
        assert forall|k: int| i < k < d.len() implies trimmed(#[trigger] d[k]) != "#True"@
            && trimmed(d[k]) != "false"@ by {
            assert(d[k] == lines[k]);
        }
        assert(d[i] == lines[i]);
        lemma_verdict_is_last_marker(d, i);
        assert(trimmed(lines[lines.len() - 1]) != "#True"@);
    } else {
        reveal_strlit("#True");
        reveal_strlit("false");
        if trimmed(lines[i]) == "false"@ {
            assert("false"@ != "#True"@) by {
                assert("false"@[0] != "#True"@[0]);
            }
        }
    }
}

/// `flag` stands at `i` of `a` and is followed by `value`.
pub open spec fn option_at(a: Seq<Seq<char>>, i: int, flag: Seq<char>, value: Seq<char>) -> bool {
    0 <= i && i + 1 < a.len() && a[i] == flag && a[i + 1] == value
}

/// The prover's command line: the JVM settings come first; the class path
/// follows `-cp`; then the K main class, told to run `-kprove` (the prover)
/// on the specification, which comes last; the semantics directory follows
/// `-d`, the module is `VERIFICATION`, Z3 gets 500 ms per query, the cells
/// to split on and to log are named, and the SMT prelude follows
/// `--smt-prelude`. Nothing else is passed.
pub proof fn lemma_kprove_command(
    cppath: Seq<char>,
    sempath: Seq<char>,
    smt_prelude: Seq<char>,
    specpath: Seq<char>,
)
    ensures
        ({
            let a = kprove_args_spec(cppath, sempath, smt_prelude, specpath);
            &&& a.len() == 31
            &&& a.subrange(0, 7) =~= seq![
                "-Dfile.encoding=UTF-8"@,
                "-Djava.awt.headless=true"@,
                "-Xms10024m"@,
                "-Xmx10192m"@,
                "-Xss32m"@,
                "-XX:+TieredCompilation"@,
                "-ea"@,
            ]
            &&& option_at(a, 7, "-cp"@, cppath)
            &&& option_at(a, 9, "org.kframework.main.Main"@, "-kprove"@)
            &&& a.subrange(11, 13) =~= seq!["-v"@, "--debug"@]
            &&& option_at(a, 13, "-d"@, sempath)
            &&& option_at(a, 15, "-m"@, "VERIFICATION"@)
            &&& option_at(a, 17, "--z3-impl-timeout"@, "500"@)
            &&& a.subrange(19, 24) =~= seq![
                "--deterministic-functions"@,
                "--no-exc-wrap"@,
                "--cache-func-optimized"@,
                "--no-alpha-renaming"@,
                "--format-failures"@,
            ]
            &&& option_at(a, 24, "--boundary-cells"@, "k,pc"@)
            &&& option_at(
                a,
                26,
                "--log-cells"@,
                "k,output,statusCode,localMem,pc,gas,wordStack,callData,accounts,memoryUsed,#pc,#result,#target"@,
            )
            &&& option_at(a, 28, "--smt-prelude"@, smt_prelude)
            &&& a.last() == specpath
        }),
{
}

} // verus!
