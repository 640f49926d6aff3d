//! The environment probe's decision core.
//!
//! Which tools a project needs is read off the manifest text: a tool is
//! wanted when one of its detection patterns occurs in some script. The
//! table of known tools is supplied by the caller, and actually running
//! version checks, reading environment variables and spawning updates is
//! the surrounding binary's work; this module only decides what to check
//! and sums up the results.

use vstd::prelude::*;

verus! {

use crate::manifest::RobinConfig;
use crate::manifest::ScriptBody;
use crate::manifest::BodyV;
use crate::manifest::EntryV;
use crate::strutil::contains_seq;
use crate::strutil::str_contains;
use crate::strutil::str_eq;

/// One known tool: its display name, the command and argument that probe
/// its version, and the script substrings that reveal its use.
pub struct ToolSpec {
    pub name: String,
    pub command: String,
    pub version_arg: String,
    pub patterns: Vec<String>,
}

/// A rule of the update table: which detected tool it serves, the command
/// that must exist for the update to be attempted, the update invocation,
/// and the label reported on success.
pub struct UpdateRule {
    pub tool_name: String,
    pub probe_command: String,
    pub update_command: String,
    pub update_args: Vec<String>,
    pub label: String,
}

/// The pattern occurs in the script body's text: in the single command,
/// or in some command of the sequence.
pub open spec fn body_has_pattern(b: BodyV, pat: Seq<char>) -> bool {
    match b {
        BodyV::Single(s) => contains_seq(s, pat),
        BodyV::Sequence(cmds) => exists|k: int|
            0 <= k < cmds.len() && #[trigger] contains_seq(cmds[k], pat),
    }
}

/// The pattern occurs in some script of the manifest.
pub open spec fn manifest_has_pattern(entries: Seq<EntryV>, pat: Seq<char>) -> bool {
    exists|k: int|
        0 <= k < entries.len() && body_has_pattern((#[trigger] entries[k]).body, pat)
}

/// Some detection pattern of the tool occurs in the manifest.
pub open spec fn tool_needed(entries: Seq<EntryV>, patterns: Seq<Seq<char>>) -> bool {
    exists|k: int|
        0 <= k < patterns.len() && manifest_has_pattern(entries, #[trigger] patterns[k])
}

/// Whether the pattern occurs in the script body's text.
pub fn check_script_contains(script: &ScriptBody, pattern: &str) -> (r: bool)
    ensures
        r == body_has_pattern(script@, pattern@),
{
    match script {
        ScriptBody::Single(cmd) => str_contains(cmd.as_str(), pattern),
        ScriptBody::Sequence(cmds) => {
            let ghost cmdsv = cmds.deep_view();
            let n = cmds.len();
            let mut k: usize = 0;
            while k < n
                invariant
                    0 <= k <= n,
                    n == cmds@.len(),
                    cmdsv == cmds.deep_view(),
                    script@ == BodyV::Sequence(cmdsv),
                    cmdsv.len() == n,
                    forall|m: int| 0 <= m < n ==> cmdsv[m] == cmds@[m]@,
                    forall|m: int| 0 <= m < k ==> !contains_seq(#[trigger] cmdsv[m], pattern@),
                decreases n - k,
            {
                if str_contains(cmds[k].as_str(), pattern) {
                    proof {
                        assert(contains_seq(cmdsv[k as int], pattern@));
                        assert((k as int) < cmdsv.len());
                        assert(exists|m: int|
                            0 <= m < cmdsv.len() && #[trigger] contains_seq(cmdsv[m], pattern@));
                        assert(script@ is Sequence && script@->Sequence_0 == cmdsv);
                    }
                    return true;
                }
                k = k + 1;
            }
            false
        },
    }
}

/// Whether the pattern occurs in some script of the manifest.
pub fn manifest_contains_pattern(config: &RobinConfig, pattern: &str) -> (r: bool)
    ensures
        r == manifest_has_pattern(config.entries(), pattern@),
{
    let n = config.scripts.len();
    let mut k: usize = 0;
    while k < n
        invariant
            0 <= k <= n,
            n == config.scripts@.len(),
            config.entries().len() == n,
            forall|m: int| 0 <= m < n ==> config.entries()[m] == config.scripts@[m]@,
            forall|m: int|
                0 <= m < k ==> !body_has_pattern((#[trigger] config.entries()[m]).body, pattern@),
        decreases n - k,
    {
        if check_script_contains(&config.scripts[k].body, pattern) {
            proof {
                assert(body_has_pattern((config.entries()[k as int]).body, pattern@));
            }
            return true;
        }
        k = k + 1;
    }
    false
}

/// The tools the manifest calls for, as indices into the supplied table,
/// in table order: exactly those whose some pattern occurs in some script.
pub fn detect_required_tools(config: &RobinConfig, tools: &[ToolSpec]) -> (r: Vec<usize>)
    ensures
        forall|m1: int, m2: int| 0 <= m1 < m2 < r@.len() ==> r@[m1] < r@[m2],
        forall|m: int|
            0 <= m < r@.len() ==> (#[trigger] r@[m]) < tools@.len() && tool_needed(
                config.entries(),
                tools@[r@[m] as int].patterns.deep_view(),
            ),
        forall|t: int|
            0 <= t < tools@.len() && tool_needed(
                config.entries(),
                (#[trigger] tools@[t]).patterns.deep_view(),
            ) ==> exists|m: int| 0 <= m < r@.len() && r@[m] == t,
{
    let n = tools.len();
    let mut out: Vec<usize> = Vec::new();
    let mut t: usize = 0;
    while t < n
        invariant
            0 <= t <= n,
            n == tools@.len(),
            forall|m1: int, m2: int| 0 <= m1 < m2 < out@.len() ==> out@[m1] < out@[m2],
            forall|m: int|
                0 <= m < out@.len() ==> (#[trigger] out@[m]) < t && tool_needed(
                    config.entries(),
                    tools@[out@[m] as int].patterns.deep_view(),
                ),
            forall|u: int|
                0 <= u < t && tool_needed(
                    config.entries(),
                    (#[trigger] tools@[u]).patterns.deep_view(),
                ) ==> exists|m: int| 0 <= m < out@.len() && out@[m] == u,
        decreases n - t,
    {
        let pats = &tools[t].patterns;
        let ghost patsv = pats.deep_view();
        let pn = pats.len();
        let mut found = false;
        let mut k: usize = 0;
        while k < pn
            invariant
                0 <= k <= pn,
                pn == pats@.len(),
                patsv == pats.deep_view(),
                patsv.len() == pn,
                forall|m: int| 0 <= m < pn ==> patsv[m] == pats@[m]@,
                found ==> tool_needed(config.entries(), patsv),
                !found ==> forall|m: int|
                    0 <= m < k ==> !manifest_has_pattern(config.entries(), #[trigger] patsv[m]),
            decreases pn - k,
        {
            if manifest_contains_pattern(config, pats[k].as_str()) {
                found = true;
                proof {
                    assert(manifest_has_pattern(config.entries(), patsv[k as int]));
                }
                k = pn;
            } else {
                k = k + 1;
            }
        }
        let ghost preout = out@;
        if found {
            out.push(t);
        }
        proof {
            assert(patsv == tools@[t as int].patterns.deep_view());
            if !found {
                assert(!tool_needed(config.entries(), tools@[t as int].patterns.deep_view()));
            }
            assert forall|u: int|
                0 <= u < t + 1 && tool_needed(
                    config.entries(),
                    (#[trigger] tools@[u]).patterns.deep_view(),
                ) implies exists|m: int| 0 <= m < out@.len() && out@[m] == u by {
                if u == t {
                    assert(out@[out@.len() - 1] == t);
                } else {
                    let m0 = choose|m: int| 0 <= m < preout.len() && preout[m] == u;
                    assert(out@[m0] == u);
                }
            }
        }
        t = t + 1;
    }
    out
}

/// Whether some detected tool (by index) bears the given display name.
pub fn detected_has_name(detected: &Vec<usize>, tools: &[ToolSpec], name: &str) -> (r: bool)
    requires
        forall|m: int| 0 <= m < detected@.len() ==> (#[trigger] detected@[m]) < tools@.len(),
    ensures
        r == exists|m: int|
            0 <= m < detected@.len() && (#[trigger] tools@[detected@[m] as int]).name@ == name@,
{
    let n = detected.len();
    let mut m: usize = 0;
    while m < n
        invariant
            0 <= m <= n,
            n == detected@.len(),
            forall|u: int| 0 <= u < n ==> (#[trigger] detected@[u]) < tools@.len(),
            forall|u: int|
                0 <= u < m ==> (#[trigger] tools@[detected@[u] as int]).name@ != name@,
        decreases n - m,
    {
        if str_eq(tools[detected[m]].name.as_str(), name) {
            return true;
        }
        m = m + 1;
    }
    false
}

/// The update rules that apply: indices of rules whose tool name is among
/// the detected tools' names, in table order.
pub fn plan_updates(detected_names: &Vec<String>, rules: &[UpdateRule]) -> (r: Vec<usize>)
    ensures
        forall|m1: int, m2: int| 0 <= m1 < m2 < r@.len() ==> r@[m1] < r@[m2],
        forall|m: int|
            0 <= m < r@.len() ==> (#[trigger] r@[m]) < rules@.len() && crate::includes::paths_contain(
                detected_names@,
                rules@[r@[m] as int].tool_name@,
            ),
        forall|u: int|
            0 <= u < rules@.len() && crate::includes::paths_contain(
                detected_names@,
                (#[trigger] rules@[u]).tool_name@,
            ) ==> exists|m: int| 0 <= m < r@.len() && r@[m] == u,
{
    let n = rules.len();
    let mut out: Vec<usize> = Vec::new();
    let mut u: usize = 0;
    while u < n
        invariant
            0 <= u <= n,
            n == rules@.len(),
            forall|m1: int, m2: int| 0 <= m1 < m2 < out@.len() ==> out@[m1] < out@[m2],
            forall|m: int|
                0 <= m < out@.len() ==> (#[trigger] out@[m]) < u
                    && crate::includes::paths_contain(
                    detected_names@,
                    rules@[out@[m] as int].tool_name@,
                ),
            forall|w: int|
                0 <= w < u && crate::includes::paths_contain(
                    detected_names@,
                    (#[trigger] rules@[w]).tool_name@,
                ) ==> exists|m: int| 0 <= m < out@.len() && out@[m] == w,
        decreases n - u,
    {
        let mut hit = false;
        let dn = detected_names.len();
        let mut d: usize = 0;
        while d < dn
            invariant
                0 <= d <= dn,
                dn == detected_names@.len(),
                0 <= u < n,
                n == rules@.len(),
                hit ==> crate::includes::paths_contain(detected_names@, rules@[u as int].tool_name@),
                !hit ==> forall|w: int|
                    0 <= w < d ==> (#[trigger] detected_names@[w])@ != rules@[u as int].tool_name@,
            decreases dn - d,
        {
            if str_eq(detected_names[d].as_str(), rules[u].tool_name.as_str()) {
                hit = true;
                d = dn;
            } else {
                d = d + 1;
            }
        }
        let ghost preout = out@;
        if hit {
            out.push(u);
        }
        proof {
            if !hit {
                assert(!crate::includes::paths_contain(
                    detected_names@,
                    rules@[u as int].tool_name@,
                ));
            }
            assert forall|w: int|
                0 <= w < u + 1 && crate::includes::paths_contain(
                    detected_names@,
                    (#[trigger] rules@[w]).tool_name@,
                ) implies exists|m: int| 0 <= m < out@.len() && out@[m] == w by {
                if w == u {
                    assert(out@[out@.len() - 1] == u);
                } else {
                    let m0 = choose|m: int| 0 <= m < preout.len() && preout[m] == w;
                    assert(out@[m0] == w);
                }
            }
        }
        u = u + 1;
    }
    out
}

/// How many of the results are true.
pub open spec fn count_true(s: Seq<bool>) -> int
    decreases s.len(),
{
    if s.len() == 0 {
        0
    } else {
        count_true(s.drop_last()) + if s.last() {
            1int
        } else {
            0int
        }
    }
}

/// Sum up check results: whether all passed, how many were found, how
/// many are missing.
pub fn summarize_checks(results: &Vec<bool>) -> (r: (bool, usize, usize))
    ensures
        r.1 == count_true(results@),
        r.1 + r.2 == results@.len(),
        r.0 == (r.2 == 0),
{
    let n = results.len();
    let mut found: usize = 0;
    let mut i: usize = 0;
    while i < n
        invariant
            0 <= i <= n,
            n == results@.len(),
            found == count_true(results@.take(i as int)),
            found <= i,
        decreases n - i,
    {
        proof {
            assert(results@.take(i + 1).drop_last() =~= results@.take(i as int));
            assert(results@.take(i + 1).last() == results@[i as int]);
        }
        if results[i] {
            found = found + 1;
        }
        i = i + 1;
    }
    proof {
        assert(results@.take(n as int) =~= results@);
        lemma_count_true_bound(results@);
    }
    (found == n, found, n - found)
}

/// The labels of the attempts that succeeded, in order.
pub open spec fn successful_labels(labels: Seq<Seq<char>>, results: Seq<bool>, i: int) -> Seq<
    Seq<char>,
>
    decreases labels.len() - i,
{
    if i < 0 || i >= labels.len() || i >= results.len() {
        Seq::empty()
    } else {
        let rest = successful_labels(labels, results, i + 1);
        if results[i] {
            seq![labels[i]] + rest
        } else {
            rest
        }
    }
}

/// Sum up update results: whether every attempted update succeeded, and
/// the labels of those that did, in order.
pub fn summarize_updates(labels: &Vec<String>, results: &Vec<bool>) -> (r: (bool, Vec<String>))
    requires
        labels@.len() == results@.len(),
    ensures
        r.0 == (count_true(results@) == results@.len()),
        r.1.deep_view() == successful_labels(labels.deep_view(), results@, 0),
{
    let ghost lv = labels.deep_view();
    let n = results.len();
    let mut done: Vec<String> = Vec::new();
    let mut all_ok = true;
    let mut i: usize = 0;
    while i < n
        invariant
            0 <= i <= n,
            n == results@.len(),
            n == labels@.len(),
            lv == labels.deep_view(),
            lv.len() == n,
            forall|k: int| 0 <= k < n ==> lv[k] == labels@[k]@,
            all_ok == (count_true(results@.take(i as int)) == i),
            successful_labels(lv, results@, 0) == done.deep_view() + successful_labels(
                lv,
                results@,
                i as int,
            ),
        decreases n - i,
    {
        let ghost pre = done.deep_view();
        proof {
            assert(results@.take(i + 1).drop_last() =~= results@.take(i as int));
            assert(results@.take(i + 1).last() == results@[i as int]);
            lemma_count_true_bound(results@.take(i as int));
        }
        if results[i] {
            done.push(labels[i].clone());
            proof {
                assert(done.deep_view() =~= pre.push(lv[i as int]));
                let rest = successful_labels(lv, results@, i + 1);
                assert(pre + (seq![lv[i as int]] + rest) =~= pre.push(lv[i as int]) + rest);
            }
        } else {
            all_ok = false;
        }
        i = i + 1;
    }
    proof {
        assert(results@.take(n as int) =~= results@);
        assert(successful_labels(lv, results@, n as int) =~= Seq::<Seq<char>>::empty());
        assert(done.deep_view() + Seq::<Seq<char>>::empty() =~= done.deep_view());
    }
    (all_ok, done)
}

proof fn lemma_count_true_bound(s: Seq<bool>)
    ensures
        0 <= count_true(s) <= s.len(),
    decreases s.len(),
{
    if s.len() > 0 {
        lemma_count_true_bound(s.drop_last());
    }
}

} // verus!
