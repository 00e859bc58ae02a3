use nira::blueprint::{TaskStatus, ValidationStatus};
use nira::parser::{
    check_layer, extract_project_name, find_section, parse, parse_task_list, parse_tasks,
    section_has_content,
};
use nira::prompt::{generate, generate_for_task};
use nira::tasks::{add_task_text, move_task_text, EditError};
use nira::validator::validate;
use std::path::PathBuf;

const DOC: &str = "# Blueprint: Demo\n\n## Layer 1: Intent Map\n\n**PROJECT:** Demo tool\n\n## Layer 2: Interface Contracts\n\n- [name]: [what it does]\n\n## Layer 3: File Skeleton\n\nsrc/main.rs\n\n## Layer 4: Task Queue\n\n### DONE\n- [x] Set up repo\n\n### IN PROGRESS\n- [ ] **Write lexer**\n  - **Context:** tokens first\n  - **Files:** src/lex.rs\n\n### NEXT UP\n- [ ] **Write parser**\n  - **Depends on:** lexer\n  - **Approach:** recursive descent\n- [ ] Write docs\n\n### ICEBOX\n- [ ] Plugin system\n";

fn doc() -> nira::blueprint::Blueprint {
    parse(DOC, PathBuf::from("blueprint.md"))
}

#[test]
fn find_section_body_range() {
    let text = "# A\nintro\n## B\nbody\n### C\ndeep\n## D\nrest\n";
    let (s, e) = find_section(text, "## b").unwrap();
    assert_eq!(&text[s..e], "body\n### C\ndeep\n");
}

#[test]
fn find_section_ignores_case_and_runs_to_end() {
    let text = "## Layer 1: INTENT map\nline one\nline two";
    let (s, e) = find_section(text, "layer 1: intent MAP").unwrap();
    assert_eq!(&text[s..e], "line one\nline two");
}

#[test]
fn find_section_missing_heading() {
    assert_eq!(find_section("# A\ntext\n", "Layer 9"), None);
}

#[test]
fn find_section_skips_non_heading_mentions() {
    let text = "```\nsee ### NEXT UP below\n```\n### NEXT UP\n- [ ] a\n### ICEBOX\n";
    let (s, e) = find_section(text, "### NEXT UP").unwrap();
    assert_eq!(&text[s..e], "- [ ] a\n");
}

#[test]
fn find_section_offsets_are_bytes() {
    let text = "## Café ☕\nthé\n## Next\n";
    let (s, e) = find_section(text, "café").unwrap();
    assert_eq!(&text[s..e], "thé\n");
    assert_eq!(s, "## Café ☕\n".len());
}

#[test]
fn find_section_heading_at_end_without_newline() {
    let text = "intro\n## Last";
    let (s, e) = find_section(text, "last").unwrap();
    assert_eq!((s, e), (text.len(), text.len()));
}

#[test]
fn placeholder_only_section_has_no_content() {
    let sec = "\n<!-- fill this in -->\n| Name | Role |\n|------|------|\n| --- | --- |\n- [actor 1]\n[name] does [what it does]\nTODO\n";
    assert!(!section_has_content(sec));
    let more = format!("{}A tool that tracks plans.\n", sec);
    assert!(section_has_content(&more));
}

#[test]
fn placeholder_markers_ignore_case() {
    assert!(!section_has_content("todo: later\nReplace With Your Diagram\n"));
    assert!(section_has_content("Real words here\n"));
}

#[test]
fn empty_section_has_no_content() {
    assert!(!section_has_content(""));
    assert!(!section_has_content("\n\n   \n"));
}

#[test]
fn check_layer_needs_real_content() {
    assert!(check_layer(DOC, "Layer 1: Intent Map"));
    assert!(!check_layer(DOC, "Layer 2: Interface Contracts"));
    assert!(check_layer(DOC, "Layer 3: File Skeleton"));
    assert!(!check_layer(DOC, "Layer 7"));
}

#[test]
fn project_name_from_title() {
    assert_eq!(extract_project_name(DOC), Some("Demo".to_string()));
    assert_eq!(
        extract_project_name("intro\n#  BLUEPRINT:   My Tool  \n"),
        Some("My Tool".to_string())
    );
    assert_eq!(extract_project_name("# Blueprint:\n# Plan: X\n"), None);
}

#[test]
fn task_list_reads_metadata() {
    let sec = "- [ ] **Write parser**\n  - **Context:** grammar\n  - **Files:** src/p.rs\n  - **Depends on:** lexer\n\n- [x] Done thing\n";
    let tasks = parse_task_list(sec, TaskStatus::NextUp);
    assert_eq!(tasks.len(), 2);
    assert_eq!(tasks[0].text, "Write parser");
    assert_eq!(tasks[0].context.as_deref(), Some("grammar"));
    assert_eq!(tasks[0].files.as_deref(), Some("src/p.rs"));
    assert_eq!(tasks[0].approach.as_deref(), Some("Depends on: lexer"));
    assert_eq!(tasks[0].line_number, 1);
    assert_eq!(tasks[0].status, TaskStatus::NextUp);
    assert_eq!(tasks[1].text, "Done thing");
    assert_eq!(tasks[1].context, None);
    assert_eq!(tasks[1].line_number, 6);
}

#[test]
fn task_list_depends_on_does_not_overwrite_approach() {
    let sec = "- [ ] A\n  - **Approach:** first\n  - **Depends on:** later\n";
    let tasks = parse_task_list(sec, TaskStatus::NextUp);
    assert_eq!(tasks[0].approach.as_deref(), Some("first"));
    let sec2 = "- [ ] B\n  - **Depends on:** x\n  - **Approach:** y\n";
    let tasks2 = parse_task_list(sec2, TaskStatus::NextUp);
    assert_eq!(tasks2[0].approach.as_deref(), Some("y"));
}

#[test]
fn task_list_ignores_orphan_metadata_and_non_tasks() {
    let sec = "  - **Context:** orphan\nplain text\n- [ ]\n- [y] nope\n";
    assert!(parse_task_list(sec, TaskStatus::Icebox).is_empty());
    assert!(parse_task_list("", TaskStatus::Done).is_empty());
}

#[test]
fn task_list_metadata_stops_at_heading() {
    let sec = "- [ ] A\n#### Notes\n  - **Context:** not for A\n";
    let tasks = parse_task_list(sec, TaskStatus::NextUp);
    assert_eq!(tasks.len(), 1);
    assert_eq!(tasks[0].context, None);
}

#[test]
fn parse_builds_the_queues() {
    let bp = doc();
    assert!(bp.has_intent);
    assert!(!bp.has_contracts);
    assert!(bp.has_skeleton);
    assert_eq!(bp.project_name.as_deref(), Some("Demo"));
    assert_eq!(bp.raw, DOC);
    assert_eq!(bp.tasks.done.len(), 1);
    assert_eq!(bp.tasks.in_progress.len(), 1);
    assert_eq!(bp.tasks.next_up.len(), 2);
    assert_eq!(bp.tasks.icebox.len(), 1);
    assert_eq!(bp.tasks.next_up[0].approach.as_deref(), Some("recursive descent"));
    let q = parse_tasks(DOC);
    assert_eq!(q.next_up[1].text, "Write docs");
}

#[test]
fn active_numbering_skips_done() {
    let bp = doc();
    let active = bp.tasks.all_active_numbered();
    assert_eq!(active.len(), 4);
    let names: Vec<(usize, &str)> = active.iter().map(|(n, t)| (*n, t.text.as_str())).collect();
    assert_eq!(
        names,
        vec![(1, "Write lexer"), (2, "Write parser"), (3, "Write docs"), (4, "Plugin system")]
    );
}

#[test]
fn validate_reports_layers_and_advice() {
    let bp = doc();
    let r = validate(&bp);
    assert_eq!(r.len(), 5);
    assert_eq!(r[0].status, ValidationStatus::Good);
    assert_eq!(r[1].status, ValidationStatus::Missing);
    assert_eq!(r[1].message, "Missing or incomplete - define your data shapes, capabilities, and boundaries");
    assert_eq!(r[3].layer, 4);
    assert_eq!(r[3].message, "3 active tasks");
    assert_eq!(r[4].layer_name, "Task Quality");
    assert_eq!(r[4].message, "NEXT UP task 'Write docs' missing Approach");
}

#[test]
fn validate_all_placeholder_layers_missing() {
    let text = "# Blueprint: X\n## Layer 1: Intent Map\n[name]\n## Layer 2: Interface Contracts\n| a | b |\n## Layer 3: File Skeleton\n<!-- later -->\n## Layer 4: Task Queue\n### DONE\n### IN PROGRESS\n### NEXT UP\n### ICEBOX\n";
    let r = validate(&parse(text, PathBuf::from("b.md")));
    assert_eq!(r.len(), 4);
    assert!(r.iter().all(|f| f.status == ValidationStatus::Missing));
    assert_eq!(r[3].message, "No tasks defined - add tasks to guide implementation");
}

#[test]
fn validate_in_progress_without_context_or_files() {
    let text = "### IN PROGRESS\n- [ ] Bare task\n";
    let r = validate(&parse(text, PathBuf::from("b.md")));
    assert_eq!(r.len(), 6);
    assert_eq!(r[3].status, ValidationStatus::Good);
    assert_eq!(r[3].message, "1 active tasks");
    assert_eq!(r[4].status, ValidationStatus::Warning);
    assert_eq!(r[4].message, "IN PROGRESS task 'Bare task' missing Context");
    assert_eq!(r[5].status, ValidationStatus::Warning);
    assert_eq!(r[5].message, "IN PROGRESS task 'Bare task' missing Files");
}

#[test]
fn validate_only_done_is_warning() {
    let text = "### DONE\n- [x] old\n";
    let r = validate(&parse(text, PathBuf::from("b.md")));
    assert_eq!(r.len(), 4);
    assert_eq!(r[3].status, ValidationStatus::Warning);
}

#[test]
fn validate_counts_many_active_tasks() {
    let mut text = String::from("### NEXT UP\n");
    for i in 0..12 {
        text.push_str(&format!("- [ ] t{}\n  - **Approach:** a\n", i));
    }
    let r = validate(&parse(&text, PathBuf::from("b.md")));
    assert_eq!(r[3].message, "12 active tasks");
}

#[test]
fn add_round_trip_grows_next_up() {
    let before = parse_tasks(DOC).next_up.len();
    let out = add_task_text(DOC, "X").unwrap();
    let q = parse_tasks(&out);
    assert_eq!(q.next_up.len(), before + 1);
    let added = q.next_up.iter().find(|t| t.text == "X").unwrap();
    assert_eq!(added.context, None);
    assert_eq!(added.files.as_deref(), Some(""));
    assert_eq!(added.approach.as_deref(), Some(""));
    assert!(out.contains("- [ ] Write docs\n\n\n- [ ] **X**\n  - **Depends on:** \n  - **Files:** \n  - **Approach:** \n### ICEBOX"));
}

#[test]
fn add_without_next_up_fails() {
    assert_eq!(add_task_text("# Blueprint: X\n", "X"), Err(EditError::NextUpMissing));
}

#[test]
fn add_at_end_of_document() {
    let out = add_task_text("### NEXT UP\n- [ ] a", "b").unwrap();
    assert_eq!(out, "### NEXT UP\n- [ ] a\n\n- [ ] **b**\n  - **Depends on:** \n  - **Files:** \n  - **Approach:** ");
}

#[test]
fn move_next_up_to_icebox() {
    let text = "### NEXT UP\n- [ ] Write parser\n\n### ICEBOX\n";
    let out = move_task_text(text, 1, TaskStatus::Icebox).unwrap();
    let q = parse_tasks(&out);
    assert!(q.next_up.is_empty());
    assert_eq!(q.icebox.len(), 1);
    assert_eq!(q.icebox[0].text, "Write parser");
    assert_eq!(q.icebox[0].context, None);
    assert_eq!(q.icebox[0].files, None);
    assert_eq!(q.icebox[0].approach, None);
}

#[test]
fn move_to_in_progress_renders_metadata() {
    let out = move_task_text(DOC, 2, TaskStatus::InProgress).unwrap();
    assert!(out.contains("### IN PROGRESS\n- [ ] **Write parser**\n  - **Context:** \n  - **Blocked?** no\n  - **Files:** \n\n- [ ] **Write lexer**"));
    let q = parse_tasks(&out);
    assert_eq!(q.in_progress.len(), 2);
    assert_eq!(q.next_up.len(), 1);
}

#[test]
fn move_to_done_is_plain_checked() {
    let out = move_task_text(DOC, 1, TaskStatus::Done).unwrap();
    assert!(out.contains("### DONE\n- [x] Write lexer\n\n- [x] Set up repo"));
    assert_eq!(parse_tasks(&out).done.len(), 2);
}

#[test]
fn move_to_next_up_carries_approach() {
    let text = "### IN PROGRESS\n- [ ] T\n  - **Files:** f.rs\n### NEXT UP\n";
    let out = move_task_text(text, 1, TaskStatus::NextUp).unwrap();
    assert_eq!(out, "### IN PROGRESS\n### NEXT UP\n- [ ] **T**\n  - **Depends on:** \n  - **Files:** f.rs\n  - **Approach:** \n");
}

#[test]
fn move_unknown_number_fails() {
    assert_eq!(move_task_text(DOC, 0, TaskStatus::Done), Err(EditError::TaskNotFound(0)));
    assert_eq!(move_task_text(DOC, 5, TaskStatus::Done), Err(EditError::TaskNotFound(5)));
}

#[test]
fn task_line_edge_cases() {
    assert_eq!(parse_tasks("### NEXT UP\n  * [ ] odd\n").next_up.len(), 0);
    assert_eq!(parse_tasks("### ICEBOX\n-  [ ] x\n- [ ] **a**\n").icebox.len(), 1);
    assert_eq!(parse_tasks("### ICEBOX\n- [ ]   **a  b**\n").icebox[0].text, "a  b");
    assert_eq!(parse_tasks("### ICEBOX\n\t- [ ] a\u{a0}b\n").icebox[0].text, "a\u{a0}b");
    assert_eq!(parse_tasks("### ICEBOX\n- [ ] **x**y**\n").icebox[0].text, "x**y");
}

#[test]
fn move_without_target_heading_drops_task() {
    let out = move_task_text("### ICEBOX\n- [ ] **x\n", 1, TaskStatus::Done);
    assert_eq!(out, Ok("### ICEBOX".to_string()));
}

#[test]
fn move_ignores_non_checkbox_lines() {
    let text2 = "### ICEBOX\n* - [ ] beta\n";
    assert_eq!(move_task_text(text2, 1, TaskStatus::Done), Err(EditError::TaskNotFound(1)));
}

#[test]
fn general_prompt_wraps_blueprint() {
    let bp = doc();
    let p = generate(&bp);
    assert!(p.starts_with("You are implementing code for this project. Follow these rules:\n\n<blueprint>\n# Blueprint: Demo"));
    assert!(p.ends_with("7. Work on ONE task from the Task Queue at a time.\n</rules>\n"));
}

#[test]
fn task_prompt_names_the_task() {
    let bp = doc();
    let p = generate_for_task(&bp, 1).unwrap();
    assert!(p.contains("<current_task>\nTask #1: Write lexer\n\nContext: tokens first\n\nFiles: src/lex.rs\n\n</current_task>"));
    let p2 = generate_for_task(&bp, 2).unwrap();
    assert!(p2.contains("Task #2: Write parser\n\nApproach: recursive descent\n\n</current_task>"));
    assert_eq!(generate_for_task(&bp, 0), None);
    assert_eq!(generate_for_task(&bp, 5), None);
}

#[test]
fn status_symbols() {
    assert_eq!(TaskStatus::Icebox.symbol(), "❄");
    assert_eq!(ValidationStatus::Missing.symbol(), "✗");
}
