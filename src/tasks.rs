//! Editing the task queue in place: adding a task and moving one between
//! queues. Each edit computes the whole new text from the old one.
use crate::blueprint::{opt_view, TaskItem, TaskSpec, TaskStatus};
use crate::parser::{queue_of, tasks_in};
use crate::text::{
    chars_of, contains, contains_chars, join_all, join_lines, lines_of, lines_view, push_str,
    slice_chars, split_into_lines, starts_at, starts_with_at, string_of, trim_lo, trim_range,
    trimmed,
};
use vstd::prelude::*;

verus! {

/// Why an edit of the task queue could not be made.
#[derive(Debug, Clone, Copy, PartialEq, Eq, Structural)]
pub enum EditError {
    /// The text has no `### NEXT UP` heading.
    NextUpMissing,
    /// No active task has this number.
    TaskNotFound(usize),
    /// The task's checkbox line could not be found in the text.
    TaskLineMissing,
}

pub open spec fn result_view(r: Result<String, EditError>) -> Result<Seq<char>, EditError> {
    match r {
        Ok(s) => Ok(s@),
        Err(e) => Err(e),
    }
}

/// The line, trimmed, starts with `p`.
pub open spec fn starts_trimmed(l: Seq<char>, p: Seq<char>) -> bool {
    let t = trimmed(l, 0, l.len() as int);
    starts_at(l, t.0, t.1, p)
}

/// Index of the first line from `k` on that starts with `p` once trimmed, or
/// the number of lines.
pub open spec fn first_line_from(ls: Seq<Seq<char>>, p: Seq<char>, k: int) -> int
    decreases ls.len() - k,
{
    if k >= ls.len() {
        ls.len() as int
    } else if starts_trimmed(ls[k], p) {
        k
    } else {
        first_line_from(ls, p, k + 1)
    }
}

pub const NEXT_UP_HEADING: &'static str = "### NEXT UP";

pub const ENTRY_HEAD: &'static str = "\n- [ ] **";

pub const ENTRY_TAIL: &'static str = "**\n  - **Depends on:** \n  - **Files:** \n  - **Approach:** \n";

/// The block a new task is written as.
pub open spec fn entry_text(d: Seq<char>) -> Seq<char> {
    ENTRY_HEAD@ + d + ENTRY_TAIL@
}

/// The text after adding task `d`: its block goes before the first heading
/// that follows `### NEXT UP`, or at the end; lines are joined with `\n`.
/// None where the text has no `### NEXT UP` heading.
pub open spec fn added(s: Seq<char>, d: Seq<char>) -> Option<Seq<char>> {
    let ls = lines_of(s);
    let h = first_line_from(ls, NEXT_UP_HEADING@, 0);
    if h >= ls.len() {
        None
    } else {
        let k = first_line_from(ls, "#"@, h + 1);
        Some(
            join_lines(
                ls.subrange(0, k) + lines_of(entry_text(d)) + ls.subrange(k, ls.len() as int),
            ),
        )
    }
}

fn line_starts_trimmed(l: &Vec<char>, p: &str) -> (r: bool)
    ensures
        r == starts_trimmed(l@, p@),
{
    let t = trim_range(l, 0, l.len());
    starts_with_at(l, t.0, t.1, p)
}

fn find_line_from(ls: &Vec<Vec<char>>, p: &str, k: usize) -> (r: usize)
    requires
        k <= ls@.len(),
    ensures
        r == first_line_from(lines_view(ls@), p@, k as int),
        k <= r <= ls@.len(),
{
    let ghost v = lines_view(ls@);
    let mut i: usize = k;
    while i < ls.len()
        invariant
            k <= i <= ls@.len(),
            v == lines_view(ls@),
            first_line_from(v, p@, i as int) == first_line_from(v, p@, k as int),
        decreases ls@.len() - i,
    {
        assert(v[i as int] == ls@[i as int]@);
        if line_starts_trimmed(&ls[i], p) {
            return i;
        }
        i = i + 1;
    }
    i
}

/// Copies lines `a..b` of `src` to the end of `out`.
fn extend_lines(out: &mut Vec<Vec<char>>, src: &Vec<Vec<char>>, a: usize, b: usize)
    requires
        a <= b <= src@.len(),
    ensures
        lines_view(final(out)@) == lines_view(old(out)@) + lines_view(src@).subrange(
            a as int,
            b as int,
        ),
{
    let mut i: usize = a;
    while i < b
        invariant
            a <= i <= b <= src@.len(),
            lines_view(out@) == lines_view(old(out)@) + lines_view(src@).subrange(
                a as int,
                i as int,
            ),
        decreases b - i,
    {
        let l = slice_chars(&src[i], 0, src[i].len());
        assert(src@[i as int]@.subrange(0, src@[i as int]@.len() as int) =~= src@[i as int]@);
        let ghost before = out@;
        out.push(l);
        assert(lines_view(out@) =~= lines_view(before).push(l@));
        assert(lines_view(src@).subrange(a as int, i + 1) =~= lines_view(src@).subrange(
            a as int,
            i as int,
        ).push(lines_view(src@)[i as int]));
        i = i + 1;
    }
}

fn add_in(cs: &Vec<char>, d: &Vec<char>) -> (r: Option<Vec<char>>)
    ensures
        match r {
            Some(v) => added(cs@, d@) == Some(v@),
            None => added(cs@, d@) is None,
        },
{
    let ls = split_into_lines(cs);
    let h = find_line_from(&ls, NEXT_UP_HEADING, 0);
    if h >= ls.len() {
        return None;
    }
    let k = find_line_from(&ls, "#", h + 1);
    let mut entry: Vec<char> = Vec::new();
    push_str(&mut entry, ENTRY_HEAD);
    crate::text::push_range(&mut entry, d, 0, d.len());
    assert(d@.subrange(0, d@.len() as int) =~= d@);
    push_str(&mut entry, ENTRY_TAIL);
    assert(entry@ =~= entry_text(d@));
    let es = split_into_lines(&entry);
    let mut out: Vec<Vec<char>> = Vec::new();
    extend_lines(&mut out, &ls, 0, k);
    extend_lines(&mut out, &es, 0, es.len());
    extend_lines(&mut out, &ls, k, ls.len());
    assert(lines_view(es@).subrange(0, es@.len() as int) =~= lines_view(es@));
    assert(lines_view(out@) =~= lines_of(cs@).subrange(0, k as int) + lines_of(entry_text(d@))
        + lines_of(cs@).subrange(k as int, lines_of(cs@).len() as int)) by {
        assert(lines_view(Seq::<Vec<char>>::empty()) =~= Seq::<Seq<char>>::empty());
    }
    Some(join_all(&out))
}

/// The text after adding a task described by `description` to the end of
/// the `### NEXT UP` section, as an unchecked bold item with empty
/// "Depends on", "Files" and "Approach" lines.
pub fn add_task_text(content: &str, description: &str) -> (r: Result<String, EditError>)
    ensures
        match added(content@, description@) {
            Some(t) => result_view(r) == Ok::<Seq<char>, EditError>(t),
            None => r == Err::<String, EditError>(EditError::NextUpMissing),
        },
{
    let cs = chars_of(content);
    let d = chars_of(description);
    match add_in(&cs, &d) {
        Some(v) => Ok(string_of(&v)),
        None => Err(EditError::NextUpMissing),
    }
}


/// A checkbox line (after leading whitespace) holding `text` anywhere.
pub open spec fn is_task_match(l: Seq<char>, text: Seq<char>) -> bool {
    starts_at(l, trim_lo(l, 0, l.len() as int), l.len() as int, "- ["@) && contains(l, text)
}

/// End of the block that a matched task line heads, scanning from line `j`:
/// blank lines and `- ` lines belong to it; a checkbox line, a `###` line or
/// any other line ends it.
pub open spec fn block_end(ls: Seq<Seq<char>>, j: int) -> int
    decreases ls.len() - j,
{
    if j >= ls.len() {
        ls.len() as int
    } else {
        let l = ls[j];
        let m = trim_lo(l, 0, l.len() as int);
        if starts_at(l, m, l.len() as int, "- ["@) || starts_at(l, m, l.len() as int, "###"@) {
            j
        } else if m >= l.len() || starts_at(l, m, l.len() as int, "- "@) {
            block_end(ls, j + 1)
        } else {
            j
        }
    }
}

/// The next line to look at after a task line at `i`.
pub open spec fn resume_at(ls: Seq<Seq<char>>, i: int) -> int {
    let e = block_end(ls, i + 1);
    if i < e <= ls.len() {
        e
    } else {
        i + 1
    }
}

/// Lines from `i` on that remain once every task line holding `text` is
/// removed together with its block.
pub open spec fn kept_from(ls: Seq<Seq<char>>, text: Seq<char>, i: int) -> Seq<Seq<char>>
    decreases ls.len() - i,
{
    if i >= ls.len() || i < 0 {
        seq![]
    } else if is_task_match(ls[i], text) {
        kept_from(ls, text, resume_at(ls, i))
    } else {
        seq![ls[i]] + kept_from(ls, text, i + 1)
    }
}

/// Some task line holding `text` is met from line `i` on.
pub open spec fn found_from(ls: Seq<Seq<char>>, text: Seq<char>, i: int) -> bool
    decreases ls.len() - i,
{
    if i >= ls.len() || i < 0 {
        false
    } else if is_task_match(ls[i], text) {
        true
    } else {
        found_from(ls, text, i + 1)
    }
}

pub open spec fn or_empty(o: Option<Seq<char>>) -> Seq<char> {
    match o {
        Some(x) => x,
        None => seq![],
    }
}

/// How a task is written in the queue it moves to.
pub open spec fn rendered(t: TaskSpec, target: TaskStatus) -> Seq<char> {
    match target {
        TaskStatus::Done => "- [x] "@ + t.text,
        TaskStatus::InProgress => "- [ ] **"@ + t.text + "**\n  - **Context:** "@ + or_empty(
            t.context,
        ) + "\n  - **Blocked?** no\n  - **Files:** "@ + or_empty(t.files),
        TaskStatus::NextUp => "- [ ] **"@ + t.text + "**\n  - **Depends on:** "@ + or_empty(
            t.approach,
        ) + "\n  - **Files:** "@ + or_empty(t.files) + "\n  - **Approach:** "@,
        TaskStatus::Icebox => "- [ ] "@ + t.text,
    }
}

pub open spec fn heading_for(target: TaskStatus) -> Seq<char> {
    match target {
        TaskStatus::Done => "### DONE"@,
        TaskStatus::InProgress => "### IN PROGRESS"@,
        TaskStatus::NextUp => "### NEXT UP"@,
        TaskStatus::Icebox => "### ICEBOX"@,
    }
}

pub open spec fn is_blank(l: Seq<char>) -> bool {
    trim_lo(l, 0, l.len() as int) >= l.len()
}

/// Index of the first non-blank line from `k` on, or the number of lines.
pub open spec fn first_nonblank(ls: Seq<Seq<char>>, k: int) -> int
    decreases ls.len() - k,
{
    if k >= ls.len() {
        ls.len() as int
    } else if !is_blank(ls[k]) {
        k
    } else {
        first_nonblank(ls, k + 1)
    }
}

/// The lines with `block` and an empty line put after the first line that
/// starts with `heading` and the blank lines right after it; unchanged where
/// no line starts with `heading`.
pub open spec fn insert_block(ls: Seq<Seq<char>>, heading: Seq<char>, block: Seq<Seq<char>>) -> Seq<
    Seq<char>,
> {
    let h = first_line_from(ls, heading, 0);
    if h >= ls.len() {
        ls
    } else {
        let q = first_nonblank(ls, h + 1);
        ls.subrange(0, q) + block + seq![seq![]] + ls.subrange(q, ls.len() as int)
    }
}

/// The active tasks of `s` in numbering order.
pub open spec fn active_specs(s: Seq<char>) -> Seq<TaskSpec> {
    queue_of(s, "### IN PROGRESS"@, TaskStatus::InProgress) + queue_of(
        s,
        "### NEXT UP"@,
        TaskStatus::NextUp,
    ) + queue_of(s, "### ICEBOX"@, TaskStatus::Icebox)
}

/// The text after moving active task `num` to the queue `target`.
pub open spec fn moved(s: Seq<char>, num: int, target: TaskStatus) -> Result<
    Seq<char>,
    EditError,
> {
    let act = active_specs(s);
    if !(1 <= num <= act.len()) {
        Err(EditError::TaskNotFound(num as usize))
    } else {
        let t = act[num - 1];
        let ls = lines_of(s);
        if !found_from(ls, t.text, 0) {
            Err(EditError::TaskLineMissing)
        } else {
            Ok(
                join_lines(
                    insert_block(
                        kept_from(ls, t.text, 0),
                        heading_for(target),
                        lines_of(rendered(t, target)),
                    ),
                ),
            )
        }
    }
}

proof fn lemma_block_end_bounds(ls: Seq<Seq<char>>, j: int)
    ensures
        j <= ls.len() ==> j <= block_end(ls, j) <= ls.len(),
    decreases ls.len() - j,
{
    if j < ls.len() {
        lemma_block_end_bounds(ls, j + 1);
    }
}

fn is_task_match_exec(l: &Vec<char>, text: &Vec<char>) -> (r: bool)
    ensures
        r == is_task_match(l@, text@),
{
    let m = crate::text::skip_ws(l, 0, l.len());
    starts_with_at(l, m, l.len(), "- [") && contains_chars(l, text)
}

fn block_end_exec(ls: &Vec<Vec<char>>, j0: usize) -> (r: usize)
    requires
        j0 <= ls@.len(),
    ensures
        r == block_end(lines_view(ls@), j0 as int),
{
    let ghost v = lines_view(ls@);
    let mut j: usize = j0;
    while j < ls.len()
        invariant
            j0 <= j <= ls@.len(),
            v == lines_view(ls@),
            block_end(v, j as int) == block_end(v, j0 as int),
        decreases ls@.len() - j,
    {
        let l = &ls[j];
        assert(v[j as int] == l@);
        let m = crate::text::skip_ws(l, 0, l.len());
        if starts_with_at(l, m, l.len(), "- [") || starts_with_at(l, m, l.len(), "###") {
            return j;
        }
        if !(m >= l.len() || starts_with_at(l, m, l.len(), "- ")) {
            return j;
        }
        j = j + 1;
    }
    j
}

/// Removes every task line holding `text` with its block.
fn remove_task_lines(ls: &Vec<Vec<char>>, text: &Vec<char>) -> (r: (Vec<Vec<char>>, bool))
    ensures
        lines_view(r.0@) == kept_from(lines_view(ls@), text@, 0),
        r.1 == found_from(lines_view(ls@), text@, 0),
{
    let ghost v = lines_view(ls@);
    let mut out: Vec<Vec<char>> = Vec::new();
    let mut found = false;
    let mut i: usize = 0;
    while i < ls.len()
        invariant
            i <= ls@.len(),
            v == lines_view(ls@),
            lines_view(out@) + kept_from(v, text@, i as int) == kept_from(v, text@, 0),
            (found || found_from(v, text@, i as int)) == found_from(v, text@, 0),
        decreases ls@.len() - i,
    {
        assert(v[i as int] == ls@[i as int]@);
        if is_task_match_exec(&ls[i], text) {
            found = true;
            proof {
                lemma_block_end_bounds(v, i + 1);
            }
            let e = block_end_exec(ls, i + 1);
            i = if i < e {
                e
            } else {
                i + 1
            };
        } else {
            let l = slice_chars(&ls[i], 0, ls[i].len());
            assert(ls@[i as int]@.subrange(0, ls@[i as int]@.len() as int) =~= ls@[i as int]@);
            let ghost before = out@;
            out.push(l);
            assert(lines_view(out@) =~= lines_view(before).push(l@));
            assert(lines_view(out@) + kept_from(v, text@, i + 1) =~= lines_view(before) + (seq![
                v[i as int],
            ] + kept_from(v, text@, i + 1)));
            i = i + 1;
        }
    }
    assert(lines_view(out@) =~= lines_view(out@) + kept_from(v, text@, i as int));
    (out, found)
}

fn push_opt(out: &mut Vec<char>, o: &Option<String>)
    ensures
        final(out)@ == old(out)@ + or_empty(opt_view(*o)),
{
    match o {
        Some(x) => {
            let xc = chars_of(x.as_str());
            crate::text::push_range(out, &xc, 0, xc.len());
            assert(xc@.subrange(0, xc@.len() as int) =~= x@);
        },
        None => {
            assert(old(out)@ + seq![] =~= old(out)@);
        },
    }
}

fn render(t: &TaskItem, target: TaskStatus) -> (r: Vec<char>)
    ensures
        r@ == rendered(t@, target),
{
    let mut out: Vec<char> = Vec::new();
    let tc = chars_of(t.text.as_str());
    match target {
        TaskStatus::Done => {
            push_str(&mut out, "- [x] ");
            crate::text::push_range(&mut out, &tc, 0, tc.len());
        },
        TaskStatus::InProgress => {
            push_str(&mut out, "- [ ] **");
            crate::text::push_range(&mut out, &tc, 0, tc.len());
            push_str(&mut out, "**\n  - **Context:** ");
            push_opt(&mut out, &t.context);
            push_str(&mut out, "\n  - **Blocked?** no\n  - **Files:** ");
            push_opt(&mut out, &t.files);
        },
        TaskStatus::NextUp => {
            push_str(&mut out, "- [ ] **");
            crate::text::push_range(&mut out, &tc, 0, tc.len());
            push_str(&mut out, "**\n  - **Depends on:** ");
            push_opt(&mut out, &t.approach);
            push_str(&mut out, "\n  - **Files:** ");
            push_opt(&mut out, &t.files);
            push_str(&mut out, "\n  - **Approach:** ");
        },
        TaskStatus::Icebox => {
            push_str(&mut out, "- [ ] ");
            crate::text::push_range(&mut out, &tc, 0, tc.len());
        },
    }
    assert(tc@.subrange(0, tc@.len() as int) =~= t.text@);
    assert(out@ =~= rendered(t@, target));
    out
}

fn heading_exec(target: TaskStatus) -> (r: &'static str)
    ensures
        r@ == heading_for(target),
{
    match target {
        TaskStatus::Done => "### DONE",
        TaskStatus::InProgress => "### IN PROGRESS",
        TaskStatus::NextUp => "### NEXT UP",
        TaskStatus::Icebox => "### ICEBOX",
    }
}

fn first_nonblank_exec(ls: &Vec<Vec<char>>, k: usize) -> (r: usize)
    requires
        k <= ls@.len(),
    ensures
        r == first_nonblank(lines_view(ls@), k as int),
        k <= r <= ls@.len(),
{
    let ghost v = lines_view(ls@);
    let mut i: usize = k;
    while i < ls.len()
        invariant
            k <= i <= ls@.len(),
            v == lines_view(ls@),
            first_nonblank(v, i as int) == first_nonblank(v, k as int),
        decreases ls@.len() - i,
    {
        assert(v[i as int] == ls@[i as int]@);
        let m = crate::text::skip_ws(&ls[i], 0, ls[i].len());
        if m < ls[i].len() {
            return i;
        }
        i = i + 1;
    }
    i
}

fn insert_lines(ls: &Vec<Vec<char>>, heading: &str, block: &Vec<Vec<char>>) -> (r: Vec<Vec<char>>)
    ensures
        lines_view(r@) == insert_block(lines_view(ls@), heading@, lines_view(block@)),
{
    let h = find_line_from(ls, heading, 0);
    let mut out: Vec<Vec<char>> = Vec::new();
    if h >= ls.len() {
        extend_lines(&mut out, ls, 0, ls.len());
        assert(lines_view(out@) =~= lines_view(ls@));
        return out;
    }
    let q = first_nonblank_exec(ls, h + 1);
    extend_lines(&mut out, ls, 0, q);
    extend_lines(&mut out, block, 0, block.len());
    let ghost before = out@;
    let empty: Vec<char> = Vec::new();
    out.push(empty);
    assert(lines_view(out@) =~= lines_view(before).push(seq![]));
    extend_lines(&mut out, ls, q, ls.len());
    assert(lines_view(block@).subrange(0, block@.len() as int) =~= lines_view(block@));
    assert(lines_view(out@) =~= insert_block(lines_view(ls@), heading@, lines_view(block@))) by {
        assert(lines_view(Seq::<Vec<char>>::empty()) =~= Seq::<Seq<char>>::empty());
    }
    out
}

/// The text after moving active task `task_num` (numbered from 1 over in
/// progress, next up and icebox) to the queue `target`: every checkbox line
/// holding its text is removed with its block, and the task, written as
/// `target` writes it, goes after that queue's heading and the blank lines
/// right after it.
pub fn move_task_text(content: &str, task_num: usize, target: TaskStatus) -> (r: Result<
    String,
    EditError,
>)
    ensures
        result_view(r) == moved(content@, task_num as int, target),
{
    let cs = chars_of(content);
    let q = tasks_in(&cs);
    let a = q.in_progress.len();
    let b = q.next_up.len();
    let c = q.icebox.len();
    let ghost act = active_specs(cs@);
    assert(act =~= crate::blueprint::tasks_view(q.in_progress@) + crate::blueprint::tasks_view(
        q.next_up@,
    ) + crate::blueprint::tasks_view(q.icebox@));
    if task_num == 0 {
        return Err(EditError::TaskNotFound(task_num));
    }
    let k = task_num - 1;
    let t: &TaskItem = if k < a {
        assert(act[k as int] == q.in_progress@[k as int]@);
        &q.in_progress[k]
    } else if k - a < b {
        assert(act[k as int] == q.next_up@[k - a]@);
        &q.next_up[k - a]
    } else if k - a - b < c {
        assert(act[k as int] == q.icebox@[k - a - b]@);
        &q.icebox[k - a - b]
    } else {
        return Err(EditError::TaskNotFound(task_num));
    };
    assert(act[task_num - 1] == t@);
    let ls = split_into_lines(&cs);
    let tc = chars_of(t.text.as_str());
    let (kept, found) = remove_task_lines(&ls, &tc);
    if !found {
        return Err(EditError::TaskLineMissing);
    }
    let block_text = render(t, target);
    let block = split_into_lines(&block_text);
    let lines = insert_lines(&kept, heading_exec(target), &block);
    let joined = join_all(&lines);
    Ok(string_of(&joined))
}

} // verus!
