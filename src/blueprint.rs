//! The document model: tasks, the four task queues, validation findings.
use std::path::PathBuf;
use vstd::prelude::*;

verus! {

/// `std::path::PathBuf`: the blueprint's file path, carried through unread.
#[verifier::external_type_specification]
#[verifier::external_body]
pub struct ExPathBuf(PathBuf);

/// A parsed blueprint, derived afresh from the raw text on every parse.
#[derive(Debug)]
pub struct Blueprint {
    pub raw: String,
    pub path: PathBuf,
    pub has_intent: bool,
    pub has_contracts: bool,
    pub has_skeleton: bool,
    pub tasks: TaskQueue,
    pub project_name: Option<String>,
}

/// One checkbox task with the metadata lines that follow it.
#[derive(Debug, Clone)]
pub struct TaskItem {
    pub text: String,
    pub status: TaskStatus,
    pub context: Option<String>,
    pub files: Option<String>,
    pub approach: Option<String>,
    /// 1-based line of the task within its section.
    pub line_number: usize,
}

/// The mathematical value of a `TaskItem`.
pub struct TaskSpec {
    pub text: Seq<char>,
    pub status: TaskStatus,
    pub context: Option<Seq<char>>,
    pub files: Option<Seq<char>>,
    pub approach: Option<Seq<char>>,
    pub line_number: int,
}

pub open spec fn opt_view(o: Option<String>) -> Option<Seq<char>> {
    match o {
        Some(s) => Some(s@),
        None => None,
    }
}

impl View for TaskItem {
    type V = TaskSpec;

    open spec fn view(&self) -> TaskSpec {
        TaskSpec {
            text: self.text@,
            status: self.status,
            context: opt_view(self.context),
            files: opt_view(self.files),
            approach: opt_view(self.approach),
            line_number: self.line_number as int,
        }
    }
}

pub open spec fn tasks_view(v: Seq<TaskItem>) -> Seq<TaskSpec> {
    v.map_values(|t: TaskItem| t@)
}

#[derive(Debug, Clone)]
pub struct TaskQueue {
    pub done: Vec<TaskItem>,
    pub in_progress: Vec<TaskItem>,
    pub next_up: Vec<TaskItem>,
    pub icebox: Vec<TaskItem>,
}

impl TaskQueue {
    /// The active tasks in numbering order: in progress, then next up, then icebox.
    pub open spec fn active(&self) -> Seq<TaskItem> {
        self.in_progress@ + self.next_up@ + self.icebox@
    }

    /// In progress, next up and icebox tasks, numbered from 1 in that order;
    /// done tasks get no number.
    pub fn all_active_numbered(&self) -> (r: Vec<(usize, &TaskItem)>)
        requires
            self.active().len() < usize::MAX,
        ensures
            r@.len() == self.active().len(),
            forall|k: int|
                0 <= k < r@.len() ==> (#[trigger] r@[k]).0 == k + 1 && *r@[k].1 == self.active()[k],
    {
        let mut result: Vec<(usize, &TaskItem)> = Vec::new();
        let mut num: usize = 1;
        let mut i: usize = 0;
        while i < self.in_progress.len()
            invariant
                self.active().len() < usize::MAX,
                i <= self.in_progress@.len(),
                result@.len() == i,
                num == i + 1,
                forall|k: int|
                    0 <= k < result@.len() ==> (#[trigger] result@[k]).0 == k + 1 && *result@[k].1
                        == self.active()[k],
            decreases self.in_progress@.len() - i,
        {
            assert(self.active()[i as int] == self.in_progress@[i as int]);
            result.push((num, &self.in_progress[i]));
            num = num + 1;
            i = i + 1;
        }
        let base1 = self.in_progress.len();
        i = 0;
        while i < self.next_up.len()
            invariant
                self.active().len() < usize::MAX,
                base1 == self.in_progress@.len(),
                i <= self.next_up@.len(),
                result@.len() == base1 + i,
                num == base1 + i + 1,
                forall|k: int|
                    0 <= k < result@.len() ==> (#[trigger] result@[k]).0 == k + 1 && *result@[k].1
                        == self.active()[k],
            decreases self.next_up@.len() - i,
        {
            assert(self.active()[base1 + i] == self.next_up@[i as int]);
            result.push((num, &self.next_up[i]));
            num = num + 1;
            i = i + 1;
        }
        let base2 = base1 + self.next_up.len();
        i = 0;
        while i < self.icebox.len()
            invariant
                self.active().len() < usize::MAX,
                base2 == self.in_progress@.len() + self.next_up@.len(),
                i <= self.icebox@.len(),
                result@.len() == base2 + i,
                num == base2 + i + 1,
                forall|k: int|
                    0 <= k < result@.len() ==> (#[trigger] result@[k]).0 == k + 1 && *result@[k].1
                        == self.active()[k],
            decreases self.icebox@.len() - i,
        {
            assert(self.active()[base2 + i] == self.icebox@[i as int]);
            result.push((num, &self.icebox[i]));
            num = num + 1;
            i = i + 1;
        }
        assert(result@.len() == self.active().len());
        result
    }
}

#[derive(Debug, Clone, Copy, PartialEq, Eq, Structural)]
pub enum TaskStatus {
    Done,
    InProgress,
    NextUp,
    Icebox,
}

impl TaskStatus {
    /// The one-character mark shown for the status.
    pub fn symbol(&self) -> (r: &'static str)
        ensures
            r@ == match *self {
                TaskStatus::Done => "✓"@,
                TaskStatus::InProgress => "→"@,
                TaskStatus::NextUp => "⋯"@,
                TaskStatus::Icebox => "❄"@,
            },
    {
        match self {
            TaskStatus::Done => "✓",
            TaskStatus::InProgress => "→",
            TaskStatus::NextUp => "⋯",
            TaskStatus::Icebox => "❄",
        }
    }
}

/// One finding of the validator.
#[derive(Debug, Clone)]
pub struct ValidationResult {
    pub layer: u8,
    pub layer_name: String,
    pub status: ValidationStatus,
    pub message: String,
}

/// The mathematical value of a `ValidationResult`.
pub struct Finding {
    pub layer: int,
    pub layer_name: Seq<char>,
    pub status: ValidationStatus,
    pub message: Seq<char>,
}

impl View for ValidationResult {
    type V = Finding;

    open spec fn view(&self) -> Finding {
        Finding {
            layer: self.layer as int,
            layer_name: self.layer_name@,
            status: self.status,
            message: self.message@,
        }
    }
}

pub open spec fn findings_view(v: Seq<ValidationResult>) -> Seq<Finding> {
    v.map_values(|f: ValidationResult| f@)
}

#[derive(Debug, Clone, Copy, PartialEq, Eq, Structural)]
pub enum ValidationStatus {
    Good,
    Warning,
    Missing,
}

impl ValidationStatus {
    /// The one-character mark shown for the status.
    pub fn symbol(&self) -> (r: &'static str)
        ensures
            r@ == match *self {
                ValidationStatus::Good => "✓"@,
                ValidationStatus::Warning => "⚠"@,
                ValidationStatus::Missing => "✗"@,
            },
    {
        match self {
            ValidationStatus::Good => "✓",
            ValidationStatus::Warning => "⚠",
            ValidationStatus::Missing => "✗",
        }
    }
}

} // verus!
