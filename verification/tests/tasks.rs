use std::collections::HashMap;
use todo_scan::context::{ContextInfo, ContextLine};
use todo_scan::model::{Priority, Tag, TodoItem};
use todo_scan::tasks::{action_verb, active_verb, build_active_form, build_description, build_subject, build_tasks, sort_by_priority};

fn make_item(tag: Tag, message: &str) -> TodoItem {
    TodoItem {
        file: "src/main.rs".to_string(),
        line: 10,
        tag,
        message: message.to_string(),
        author: None,
        issue_ref: None,
        priority: Priority::Normal,
        deadline: None,
    }
}


#[test]
fn test_action_verb_mapping() {
    assert_eq!(action_verb(&Tag::Bug), "Fix");
    assert_eq!(action_verb(&Tag::Fixme), "Fix");
    assert_eq!(action_verb(&Tag::Todo), "Implement");
    assert_eq!(action_verb(&Tag::Hack), "Refactor");
    assert_eq!(action_verb(&Tag::Xxx), "Address");
    assert_eq!(action_verb(&Tag::Note), "Review");
}


#[test]
fn test_active_verb_mapping() {
    assert_eq!(active_verb(&Tag::Bug), "Fixing");
    assert_eq!(active_verb(&Tag::Fixme), "Fixing");
    assert_eq!(active_verb(&Tag::Todo), "Implementing");
    assert_eq!(active_verb(&Tag::Hack), "Refactoring");
    assert_eq!(active_verb(&Tag::Xxx), "Addressing");
    assert_eq!(active_verb(&Tag::Note), "Reviewing");
}


#[test]
fn test_build_subject_with_message() {
    let item = make_item(Tag::Todo, "add user validation");
    assert_eq!(build_subject(&item), "Implement add user validation");
}


#[test]
fn test_build_subject_empty_message() {
    let item = make_item(Tag::Bug, "");
    assert_eq!(build_subject(&item), "Fix BUG at src/main.rs:10");
}


#[test]
fn test_build_active_form_with_message() {
    let item = make_item(Tag::Hack, "remove workaround");
    assert_eq!(build_active_form(&item), "Refactoring remove workaround");
}


#[test]
fn test_build_active_form_empty_message() {
    let item = make_item(Tag::Fixme, "");
    assert_eq!(build_active_form(&item), "Fixing FIXME at src/main.rs:10");
}


#[test]
fn test_build_description_basic() {
    let item = make_item(Tag::Todo, "implement feature");
    let desc = build_description(&item, None);
    assert!(desc.contains("**[TODO]** `src/main.rs:10`"));
    assert!(desc.contains("implement feature"));
    assert!(desc.contains("Priority: Normal"));
}


#[test]
fn test_build_description_with_author_and_issue() {
    let mut item = make_item(Tag::Bug, "critical crash");
    item.author = Some("alice".to_string());
    item.issue_ref = Some("#42".to_string());
    item.priority = Priority::Urgent;

    let desc = build_description(&item, None);
    assert!(desc.contains("Author: @alice"));
    assert!(desc.contains("Issue: #42"));
    assert!(desc.contains("Priority: Urgent (!!)"));
}


#[test]
fn test_build_description_with_context() {
    let item = make_item(Tag::Todo, "fix this");
    let ctx = ContextInfo {
        before: vec![ContextLine {
            line_number: 9,
            content: "let x = 1;".to_string(),
        }],
        after: vec![ContextLine {
            line_number: 11,
            content: "let y = 2;".to_string(),
        }],
    };

    let desc = build_description(&item, Some(&ctx));
    assert!(desc.contains("```"));
    assert!(desc.contains("let x = 1;"));
    assert!(desc.contains("let y = 2;"));
}


#[test]
fn test_build_tasks_metadata() {
    let mut item = make_item(Tag::Bug, "fix crash");
    item.author = Some("bob".to_string());
    item.issue_ref = Some("#99".to_string());

    let tasks = build_tasks(&[item], &HashMap::new());
    assert_eq!(tasks.len(), 1);

    let task = &tasks[0];
    assert_eq!(task.subject, "Fix fix crash");
    assert_eq!(task.metadata.todox_file, "src/main.rs");
    assert_eq!(task.metadata.todox_line, 10);
    assert_eq!(task.metadata.todox_tag, "BUG");
    assert_eq!(task.metadata.todox_priority, "normal");
    assert_eq!(task.metadata.todox_author, Some("bob".to_string()));
    assert_eq!(task.metadata.todox_issue_ref, Some("#99".to_string()));
}


#[test]
fn test_sort_by_priority_ordering() {
    let mut items = vec![
        {
            let mut i = make_item(Tag::Note, "low");
            i.priority = Priority::Normal;
            i
        },
        {
            let mut i = make_item(Tag::Bug, "critical");
            i.priority = Priority::Urgent;
            i
        },
        {
            let mut i = make_item(Tag::Todo, "medium");
            i.priority = Priority::High;
            i
        },
    ];

    sort_by_priority(&mut items);

    assert_eq!(items[0].priority, Priority::Urgent);
    assert_eq!(items[1].priority, Priority::High);
    assert_eq!(items[2].priority, Priority::Normal);
}


#[test]
fn test_sort_by_priority_same_priority_uses_tag_severity() {
    let mut items = vec![
        make_item(Tag::Note, "note item"),
        make_item(Tag::Bug, "bug item"),
        make_item(Tag::Todo, "todo item"),
    ];

    sort_by_priority(&mut items);

    assert_eq!(items[0].tag, Tag::Bug);
    assert_eq!(items[1].tag, Tag::Todo);
    assert_eq!(items[2].tag, Tag::Note);
}
