//! Judging a parsed blueprint, layer by layer.
use crate::blueprint::{
    findings_view, tasks_view, Blueprint, Finding, TaskItem, TaskSpec, ValidationResult,
    ValidationStatus,
};
use crate::text::{chars_of, decimal, push_decimal, push_str, string_of};
use vstd::prelude::*;

verus! {

pub open spec fn finding(layer: int, name: Seq<char>, status: ValidationStatus, message: Seq<char>) -> Finding {
    Finding { layer, layer_name: name, status, message }
}

/// The finding for one of the first three layers.
pub open spec fn layer_finding(
    layer: int,
    present: bool,
    name: Seq<char>,
    good: Seq<char>,
    missing: Seq<char>,
) -> Finding {
    if present {
        finding(layer, name, ValidationStatus::Good, good)
    } else {
        finding(layer, name, ValidationStatus::Missing, missing)
    }
}

/// The summary finding for the task queue, from the sizes of its queues.
pub open spec fn queue_finding(in_progress: nat, next_up: nat, done: nat, icebox: nat) -> Finding {
    if in_progress + next_up > 0 {
        finding(
            4,
            "Task Queue"@,
            ValidationStatus::Good,
            decimal(in_progress + next_up) + " active tasks"@,
        )
    } else if done > 0 || icebox > 0 {
        finding(
            4,
            "Task Queue"@,
            ValidationStatus::Warning,
            "No active tasks - move something to IN PROGRESS or NEXT UP"@,
        )
    } else {
        finding(
            4,
            "Task Queue"@,
            ValidationStatus::Missing,
            "No tasks defined - add tasks to guide implementation"@,
        )
    }
}

pub open spec fn quality(message: Seq<char>) -> Finding {
    finding(4, "Task Quality"@, ValidationStatus::Warning, message)
}

/// Advisories for one in-progress task: missing context, missing files.
pub open spec fn in_progress_advice(t: TaskSpec) -> Seq<Finding> {
    (if t.context is None {
        seq![quality("IN PROGRESS task '"@ + t.text + "' missing Context"@)]
    } else {
        seq![]
    }) + (if t.files is None {
        seq![quality("IN PROGRESS task '"@ + t.text + "' missing Files"@)]
    } else {
        seq![]
    })
}

/// Advisory for one next-up task: missing approach.
pub open spec fn next_up_advice(t: TaskSpec) -> Seq<Finding> {
    if t.approach is None {
        seq![quality("NEXT UP task '"@ + t.text + "' missing Approach"@)]
    } else {
        seq![]
    }
}

pub open spec fn all_in_progress_advice(ts: Seq<TaskSpec>) -> Seq<Finding>
    decreases ts.len(),
{
    if ts.len() == 0 {
        seq![]
    } else {
        all_in_progress_advice(ts.drop_last()) + in_progress_advice(ts.last())
    }
}

pub open spec fn all_next_up_advice(ts: Seq<TaskSpec>) -> Seq<Finding>
    decreases ts.len(),
{
    if ts.len() == 0 {
        seq![]
    } else {
        all_next_up_advice(ts.drop_last()) + next_up_advice(ts.last())
    }
}

/// The four mandatory findings, one per layer, in layer order.
pub open spec fn mandatory(bp: &Blueprint) -> Seq<Finding> {
    seq![
        layer_finding(
            1,
            bp.has_intent,
            "Intent Map"@,
            "Has meaningful content"@,
            "Missing or incomplete - fill in PROJECT, ACTORS, CORE FLOWS, HARD PARTS"@,
        ),
        layer_finding(
            2,
            bp.has_contracts,
            "Interface Contracts"@,
            "Has interface definitions"@,
            "Missing or incomplete - define your data shapes, capabilities, and boundaries"@,
        ),
        layer_finding(
            3,
            bp.has_skeleton,
            "File Skeleton"@,
            "Has file structure defined"@,
            "Missing or incomplete - map your interfaces to files on disk"@,
        ),
        queue_finding(
            bp.tasks.in_progress@.len(),
            bp.tasks.next_up@.len(),
            bp.tasks.done@.len(),
            bp.tasks.icebox@.len(),
        ),
    ]
}

/// Everything the validator reports for `bp`, in order.
pub open spec fn findings_of(bp: &Blueprint) -> Seq<Finding> {
    mandatory(bp) + all_in_progress_advice(tasks_view(bp.tasks.in_progress@))
        + all_next_up_advice(tasks_view(bp.tasks.next_up@))
}

proof fn lemma_in_progress_advice_warns(ts: Seq<TaskSpec>)
    ensures
        forall|i: int|
            0 <= i < all_in_progress_advice(ts).len() ==> (#[trigger] all_in_progress_advice(ts)[i])
                == quality(all_in_progress_advice(ts)[i].message),
    decreases ts.len(),
{
    if ts.len() > 0 {
        lemma_in_progress_advice_warns(ts.drop_last());
    }
}

proof fn lemma_next_up_advice_warns(ts: Seq<TaskSpec>)
    ensures
        forall|i: int|
            0 <= i < all_next_up_advice(ts).len() ==> (#[trigger] all_next_up_advice(ts)[i])
                == quality(all_next_up_advice(ts)[i].message),
    decreases ts.len(),
{
    if ts.len() > 0 {
        lemma_next_up_advice_warns(ts.drop_last());
    }
}

/// The report opens with exactly one finding for each of layers 1 to 4, in
/// order; every finding after them is a layer-4 warning, so only those four
/// can be Missing.
pub proof fn lemma_report_shape(bp: &Blueprint)
    ensures
        findings_of(bp).len() >= 4,
        forall|i: int| 0 <= i < 4 ==> (#[trigger] findings_of(bp)[i]).layer == i + 1,
        forall|i: int|
            4 <= i < findings_of(bp).len() ==> (#[trigger] findings_of(bp)[i]).layer == 4
                && findings_of(bp)[i].status == ValidationStatus::Warning,
{
    let a = all_in_progress_advice(tasks_view(bp.tasks.in_progress@));
    let b = all_next_up_advice(tasks_view(bp.tasks.next_up@));
    lemma_in_progress_advice_warns(tasks_view(bp.tasks.in_progress@));
    lemma_next_up_advice_warns(tasks_view(bp.tasks.next_up@));
    let f = findings_of(bp);
    assert forall|i: int| 4 <= i < f.len() implies (#[trigger] f[i]).layer == 4 && f[i].status
        == ValidationStatus::Warning by {
        if i < 4 + a.len() {
            assert(f[i] == a[i - 4]);
        } else {
            assert(f[i] == b[i - 4 - a.len()]);
        }
    }
}

fn result(layer: u8, name: &str, status: ValidationStatus, message: String) -> (r: ValidationResult)
    ensures
        r@ == finding(layer as int, name@, status, message@),
{
    ValidationResult { layer, layer_name: name.to_owned(), status, message }
}

fn layer_result(layer: u8, present: bool, name: &str, good: &str, missing: &str) -> (r: ValidationResult)
    ensures
        r@ == layer_finding(layer as int, present, name@, good@, missing@),
{
    if present {
        result(layer, name, ValidationStatus::Good, good.to_owned())
    } else {
        result(layer, name, ValidationStatus::Missing, missing.to_owned())
    }
}

fn task_message(before: &str, t: &TaskItem, after: &str) -> (r: String)
    ensures
        r@ == before@ + t.text@ + after@,
{
    let mut v: Vec<char> = Vec::new();
    push_str(&mut v, before);
    let tc = chars_of(t.text.as_str());
    let mut k: usize = 0;
    while k < tc.len()
        invariant
            k <= tc@.len(),
            v@ == before@ + tc@.subrange(0, k as int),
        decreases tc@.len() - k,
    {
        v.push(tc[k]);
        assert(tc@.subrange(0, k + 1) =~= tc@.subrange(0, k as int).push(tc@[k as int]));
        k = k + 1;
    }
    assert(tc@.subrange(0, tc@.len() as int) =~= t.text@);
    push_str(&mut v, after);
    string_of(&v)
}

/// Judges each layer and the quality of the active tasks.
pub fn validate(bp: &Blueprint) -> (r: Vec<ValidationResult>)
    requires
        bp.tasks.in_progress@.len() + bp.tasks.next_up@.len() <= usize::MAX,
    ensures
        findings_view(r@) == findings_of(bp),
{
    let mut results: Vec<ValidationResult> = Vec::new();
    results.push(
        layer_result(
            1,
            bp.has_intent,
            "Intent Map",
            "Has meaningful content",
            "Missing or incomplete - fill in PROJECT, ACTORS, CORE FLOWS, HARD PARTS",
        ),
    );
    results.push(
        layer_result(
            2,
            bp.has_contracts,
            "Interface Contracts",
            "Has interface definitions",
            "Missing or incomplete - define your data shapes, capabilities, and boundaries",
        ),
    );
    results.push(
        layer_result(
            3,
            bp.has_skeleton,
            "File Skeleton",
            "Has file structure defined",
            "Missing or incomplete - map your interfaces to files on disk",
        ),
    );
    let active = bp.tasks.in_progress.len() + bp.tasks.next_up.len();
    let summary = if active > 0 {
        let mut m: Vec<char> = Vec::new();
        push_decimal(&mut m, active);
        push_str(&mut m, " active tasks");
        result(4, "Task Queue", ValidationStatus::Good, string_of(&m))
    } else if bp.tasks.done.len() > 0 || bp.tasks.icebox.len() > 0 {
        result(
            4,
            "Task Queue",
            ValidationStatus::Warning,
            "No active tasks - move something to IN PROGRESS or NEXT UP".to_owned(),
        )
    } else {
        result(
            4,
            "Task Queue",
            ValidationStatus::Missing,
            "No tasks defined - add tasks to guide implementation".to_owned(),
        )
    };
    results.push(summary);
    assert(findings_view(results@) =~= mandatory(bp));
    let ghost ip = tasks_view(bp.tasks.in_progress@);
    let mut i: usize = 0;
    while i < bp.tasks.in_progress.len()
        invariant
            i <= bp.tasks.in_progress@.len(),
            ip == tasks_view(bp.tasks.in_progress@),
            findings_view(results@) == mandatory(bp) + all_in_progress_advice(
                ip.subrange(0, i as int),
            ),
        decreases bp.tasks.in_progress@.len() - i,
    {
        let t = &bp.tasks.in_progress[i];
        let ghost before = findings_view(results@);
        if t.context.is_none() {
            results.push(
                result(
                    4,
                    "Task Quality",
                    ValidationStatus::Warning,
                    task_message("IN PROGRESS task '", t, "' missing Context"),
                ),
            );
        }
        let ghost mid = findings_view(results@);
        if t.files.is_none() {
            results.push(
                result(
                    4,
                    "Task Quality",
                    ValidationStatus::Warning,
                    task_message("IN PROGRESS task '", t, "' missing Files"),
                ),
            );
        }
        proof {
            assert(ip.subrange(0, i + 1).drop_last() =~= ip.subrange(0, i as int));
            assert(ip.subrange(0, i + 1).last() == t@);
            assert(findings_view(results@) =~= before + in_progress_advice(t@));
        }
        i = i + 1;
    }
    assert(ip.subrange(0, i as int) =~= ip);
    let ghost nu = tasks_view(bp.tasks.next_up@);
    let ghost base = findings_view(results@);
    let mut i: usize = 0;
    while i < bp.tasks.next_up.len()
        invariant
            i <= bp.tasks.next_up@.len(),
            nu == tasks_view(bp.tasks.next_up@),
            findings_view(results@) == base + all_next_up_advice(nu.subrange(0, i as int)),
        decreases bp.tasks.next_up@.len() - i,
    {
        let t = &bp.tasks.next_up[i];
        let ghost before = findings_view(results@);
        if t.approach.is_none() {
            results.push(
                result(
                    4,
                    "Task Quality",
                    ValidationStatus::Warning,
                    task_message("NEXT UP task '", t, "' missing Approach"),
                ),
            );
        }
        proof {
            assert(nu.subrange(0, i + 1).drop_last() =~= nu.subrange(0, i as int));
            assert(nu.subrange(0, i + 1).last() == t@);
            assert(findings_view(results@) =~= before + next_up_advice(t@));
        }
        i = i + 1;
    }
    assert(nu.subrange(0, i as int) =~= nu);
    assert(findings_view(results@) =~= findings_of(bp));
    results
}

} // verus!
