//! Validity of a variable: which filesystem probes decide it, and the verdict from
//! their answers.

use vstd::prelude::*;

use crate::resolver::{expand, expanded, RefMap};
use crate::text::{
    chars_of, contains_char, ends_with, ends_with_chars, equals_str, split_chars, split_on,
    string_of, trim_bounds, trimmed,
};

verus! {

/// What decides whether a variable is valid.
#[derive(Debug)]
pub enum ValidationPlan {
    /// Each path is probed for an existing directory; valid when there are none, or
    /// when at least half of them are.
    Directories(Vec<String>),
    /// The path is probed for existing with readable metadata; valid when it does.
    Existing(String),
    /// Valid without any probe.
    Always,
}

/// The paths that a `PATH` value names: each piece between `;` trimmed, blank ones
/// left out, then expanded through `m`.
pub open spec fn path_targets(pieces: Seq<Seq<char>>, m: Map<Seq<char>, Seq<char>>) -> Seq<
    Seq<char>,
>
    decreases pieces.len(),
{
    if pieces.len() == 0 {
        seq![]
    } else {
        let prev = path_targets(pieces.drop_last(), m);
        let t = trimmed(pieces.last());
        if t.len() == 0 {
            prev
        } else {
            prev.push(expanded(t, m))
        }
    }
}

/// Whether a variable other than `PATH` is checked as a path: its name ends with
/// `_HOME`, `_DIR` or `_PATH`, or its value holds `\` or `/`.
pub open spec fn names_a_path(name: Seq<char>, value: Seq<char>) -> bool {
    ||| ends_with(name, "_HOME"@)
    ||| ends_with(name, "_DIR"@)
    ||| ends_with(name, "_PATH"@)
    ||| value.contains('\\')
    ||| value.contains('/')
}

/// The plan for the variable `name` holding `value`, references resolved through `m`.
pub open spec fn planned(plan: ValidationPlan, name: Seq<char>, value: Seq<char>, m: Map<
    Seq<char>,
    Seq<char>,
>) -> bool {
    if name == "PATH"@ {
        plan matches ValidationPlan::Directories(p) && p@.len() == path_targets(
            split_on(value, ';'),
            m,
        ).len() && forall|k: int|
            0 <= k < p@.len() ==> (#[trigger] p@[k])@ == path_targets(split_on(value, ';'), m)[k]
    } else if names_a_path(name, value) {
        plan matches ValidationPlan::Existing(p) && p@ == expanded(value, m)
    } else {
        plan is Always
    }
}

/// How many answers the probes of `plan` give.
pub open spec fn probe_count(plan: ValidationPlan) -> nat {
    match plan {
        ValidationPlan::Directories(p) => p@.len(),
        ValidationPlan::Existing(_) => 1,
        ValidationPlan::Always => 0,
    }
}

/// How many of the answers are yes.
pub open spec fn count_true(found: Seq<bool>) -> nat
    decreases found.len(),
{
    if found.len() == 0 {
        0
    } else {
        count_true(found.drop_last()) + if found.last() {
            1nat
        } else {
            0nat
        }
    }
}

/// The verdict of `plan` on the probes' answers, one per path in order.
pub open spec fn verdict(plan: ValidationPlan, found: Seq<bool>) -> bool {
    match plan {
        ValidationPlan::Directories(p) => p@.len() == 0 || 2 * count_true(found) >= p@.len(),
        ValidationPlan::Existing(_) => found[0],
        ValidationPlan::Always => true,
    }
}

/// The paths named by a `PATH` value, expanded through `refs`.
fn plan_directories(value: &str, refs: &RefMap) -> (r: Vec<String>)
    requires
        refs.wf(),
    ensures
        r.len() == path_targets(split_on(value@, ';'), refs@).len(),
        forall|k: int|
            0 <= k < r.len() ==> (#[trigger] r[k])@ == path_targets(split_on(value@, ';'), refs@)[k],
{
    let v = chars_of(value);
    let pieces = split_chars(&v, ';');
    let ghost all = split_on(v@, ';');
    let mut r: Vec<String> = Vec::new();
    let mut k: usize = 0;
    while k < pieces.len()
        invariant
            refs.wf(),
            k <= pieces.len(),
            pieces.len() == all.len(),
            forall|t: int| 0 <= t < pieces.len() ==> (#[trigger] pieces[t])@ == all[t],
            r.len() == path_targets(all.subrange(0, k as int), refs@).len(),
            forall|t: int|
                0 <= t < r.len() ==> (#[trigger] r[t])@ == path_targets(
                    all.subrange(0, k as int),
                    refs@,
                )[t],
        decreases pieces.len() - k,
    {
        assert(all.subrange(0, k + 1).drop_last() =~= all.subrange(0, k as int));
        let c = chars_of(pieces[k].as_str());
        let (a, b) = trim_bounds(&c);
        if a < b {
            let t = string_of(&c, a, b);
            r.push(expand(t.as_str(), refs));
        }
        k += 1;
    }
    assert(all.subrange(0, pieces.len() as int) =~= all);
    r
}

/// Whether `v` ends with the characters of `lit`.
fn ends_with_literal(v: &Vec<char>, lit: &str) -> (r: bool)
    ensures
        r == ends_with(v@, lit@),
{
    ends_with_chars(v, &chars_of(lit))
}

/// The plan that decides the validity of the variable `name` holding `value`:
/// `PATH` (exactly) probes each of its pieces for a directory; a name ending in
/// `_HOME`, `_DIR` or `_PATH`, or a value with `\` or `/`, probes the expanded
/// value; any other variable is valid without a probe.
pub fn plan_validation(name: &str, value: &str, refs: &RefMap) -> (r: ValidationPlan)
    requires
        refs.wf(),
    ensures
        planned(r, name@, value@, refs@),
{
    let n = chars_of(name);
    if equals_str(&n, "PATH") {
        return ValidationPlan::Directories(plan_directories(value, refs));
    }
    let v = chars_of(value);
    if ends_with_literal(&n, "_HOME") || ends_with_literal(&n, "_DIR") || ends_with_literal(
        &n,
        "_PATH",
    ) || contains_char(&v, '\\') || contains_char(&v, '/') {
        ValidationPlan::Existing(expand(value, refs))
    } else {
        ValidationPlan::Always
    }
}

/// The verdict of `plan` on the probes' answers, one per path in order: for
/// directories, valid when there are none or when at least half were found.
pub fn judge(plan: &ValidationPlan, found: &Vec<bool>) -> (r: bool)
    requires
        found.len() == probe_count(*plan),
    ensures
        r == verdict(*plan, found@),
{
    match plan {
        ValidationPlan::Directories(p) => {
            let total = found.len();
            let mut valid: usize = 0;
            let mut k: usize = 0;
            while k < total
                invariant
                    total == found.len(),
                    k <= total,
                    valid == count_true(found@.subrange(0, k as int)),
                    valid <= k,
                decreases total - k,
            {
                assert(found@.subrange(0, k + 1).drop_last() =~= found@.subrange(0, k as int));
                if found[k] {
                    valid += 1;
                }
                k += 1;
            }
            assert(found@.subrange(0, total as int) =~= found@);
            total == 0 || valid >= total - valid
        },
        ValidationPlan::Existing(_) => found[0],
        ValidationPlan::Always => true,
    }
}

/// A `PATH` value without a non-blank piece is valid, whatever the probes say.
pub proof fn lemma_blank_path_valid(
    plan: ValidationPlan,
    value: Seq<char>,
    m: Map<Seq<char>, Seq<char>>,
    found: Seq<bool>,
)
    requires
        planned(plan, "PATH"@, value, m),
        path_targets(split_on(value, ';'), m).len() == 0,
    ensures
        verdict(plan, found),
{
}

/// A `PATH` value of which exactly half of the directories exist is valid.
pub proof fn lemma_half_found_path_valid(
    plan: ValidationPlan,
    value: Seq<char>,
    m: Map<Seq<char>, Seq<char>>,
    found: Seq<bool>,
)
    requires
        planned(plan, "PATH"@, value, m),
        found.len() == probe_count(plan),
        2 * count_true(found) == probe_count(plan),
    ensures
        verdict(plan, found),
{
}

} // verus!
