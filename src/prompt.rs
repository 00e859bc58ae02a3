//! Assistant-ready prompts built from a blueprint.
use crate::blueprint::{Blueprint, TaskItem, TaskSpec};
use crate::text::{chars_of, decimal, push_decimal, push_range, push_str, string_of};
use vstd::prelude::*;

verus! {

pub const GENERAL_INTRO: &'static str = "You are implementing code for this project. Follow these rules:\n\n<blueprint>\n";

pub const TASK_INTRO: &'static str = "You are implementing a specific task for this project.\n\n<blueprint>\n";

pub const BLUEPRINT_CLOSE: &'static str = "\n</blueprint>\n\n";

pub const GENERAL_RULES: &'static str = "<rules>\n1. Read the Blueprint above carefully before writing any code.\n2. Follow the interface contracts exactly — types, method signatures, rules.\n3. Place files according to the File Skeleton. Do not invent new directories.\n4. If you need a new type, tell me — I'll add it to Layer 2 first.\n5. If you need to change an interface, STOP and explain why before changing it.\n6. When you finish a task, tell me:\n   - What files you created/modified\n   - Any new types or interfaces you introduced\n   - What should be updated in the Blueprint\n7. Work on ONE task from the Task Queue at a time.\n</rules>\n";

pub const TASK_RULES: &'static str = "<rules>\n1. Read the Blueprint and understand the full context.\n2. Focus ONLY on the current task specified above.\n3. Follow the interface contracts from Layer 2 exactly.\n4. Place files according to Layer 3 (File Skeleton).\n5. If you need to change an interface, STOP and explain why.\n6. When done, report:\n   - What files you created/modified\n   - Any new types or interfaces\n   - What to update in the Blueprint\n</rules>\n";

/// The whole-project prompt: the blueprint wrapped in tags, then the rules.
pub open spec fn general_prompt(raw: Seq<char>) -> Seq<char> {
    GENERAL_INTRO@ + raw + BLUEPRINT_CLOSE@ + GENERAL_RULES@
}

/// A labelled paragraph, present only where the field is set.
pub open spec fn field_block(label: Seq<char>, v: Option<Seq<char>>) -> Seq<char> {
    match v {
        Some(x) => label + x + "\n\n"@,
        None => seq![],
    }
}

/// The prompt for active task number `n`.
pub open spec fn task_prompt(raw: Seq<char>, n: nat, t: TaskSpec) -> Seq<char> {
    TASK_INTRO@ + raw + BLUEPRINT_CLOSE@ + "<current_task>\nTask #"@ + decimal(n) + ": "@ + t.text
        + "\n\n"@ + field_block("Context: "@, t.context) + field_block("Files: "@, t.files)
        + field_block("Approach: "@, t.approach) + "</current_task>\n\n"@ + TASK_RULES@
}

fn push_string(out: &mut Vec<char>, s: &String)
    ensures
        final(out)@ == old(out)@ + s@,
{
    let cs = chars_of(s.as_str());
    push_range(out, &cs, 0, cs.len());
    assert(cs@.subrange(0, cs@.len() as int) =~= s@);
}

fn push_field(out: &mut Vec<char>, label: &str, v: &Option<String>)
    ensures
        final(out)@ == old(out)@ + field_block(label@, crate::blueprint::opt_view(*v)),
{
    match v {
        Some(x) => {
            push_str(out, label);
            push_string(out, x);
            push_str(out, "\n\n");
            assert(final(out)@ =~= old(out)@ + (label@ + x@ + "\n\n"@));
        },
        None => {
            assert(old(out)@ + seq![] =~= old(out)@);
        },
    }
}

/// The prompt for the whole project.
pub fn generate(bp: &Blueprint) -> (r: String)
    ensures
        r@ == general_prompt(bp.raw@),
{
    let mut out: Vec<char> = Vec::new();
    push_str(&mut out, GENERAL_INTRO);
    push_string(&mut out, &bp.raw);
    push_str(&mut out, BLUEPRINT_CLOSE);
    push_str(&mut out, GENERAL_RULES);
    assert(out@ =~= general_prompt(bp.raw@));
    string_of(&out)
}

/// The prompt for active task `task_num`, or none where no active task has
/// that number.
pub fn generate_for_task(bp: &Blueprint, task_num: usize) -> (r: Option<String>)
    requires
        bp.tasks.active().len() < usize::MAX,
    ensures
        r is Some <==> 1 <= task_num <= bp.tasks.active().len(),
        r matches Some(s) ==> s@ == task_prompt(
            bp.raw@,
            task_num as nat,
            bp.tasks.active()[task_num - 1]@,
        ),
{
    let active = bp.tasks.all_active_numbered();
    let mut k: usize = 0;
    let mut found = false;
    while k < active.len() && !found
        invariant
            active@.len() == bp.tasks.active().len(),
            forall|t: int|
                0 <= t < active@.len() ==> (#[trigger] active@[t]).0 == t + 1 && *active@[t].1
                    == bp.tasks.active()[t],
            k <= active@.len(),
            forall|t: int| 0 <= t < k ==> (#[trigger] active@[t]).0 != task_num,
            found ==> k < active@.len() && active@[k as int].0 == task_num,
        decreases active@.len() - k + (if found { 0int } else { 1 }),
    {
        if active[k].0 == task_num {
            found = true;
        } else {
            k = k + 1;
        }
    }
    if !found {
        assert(!(1 <= task_num <= bp.tasks.active().len())) by {
            if 1 <= task_num <= bp.tasks.active().len() {
                assert(active@[task_num - 1].0 == task_num);
            }
        }
        return None;
    }
    let task: &TaskItem = active[k].1;
    let mut out: Vec<char> = Vec::new();
    push_str(&mut out, TASK_INTRO);
    push_string(&mut out, &bp.raw);
    push_str(&mut out, BLUEPRINT_CLOSE);
    push_str(&mut out, "<current_task>\nTask #");
    push_decimal(&mut out, task_num);
    push_str(&mut out, ": ");
    push_string(&mut out, &task.text);
    push_str(&mut out, "\n\n");
    push_field(&mut out, "Context: ", &task.context);
    push_field(&mut out, "Files: ", &task.files);
    push_field(&mut out, "Approach: ", &task.approach);
    push_str(&mut out, "</current_task>\n\n");
    push_str(&mut out, TASK_RULES);
    assert(out@ =~= task_prompt(bp.raw@, task_num as nat, task@));
    Some(string_of(&out))
}

} // verus!
