use task_tracker::codec::{load_tasks, tasks_from_json, tasks_to_json, StoreError};
use task_tracker::entities::{action_of, ActionKind, Config, Status, Task};
use task_tracker::handlers::{
    add_task, delete_tasks, edit_fields_missing, edit_task, render_task_line,
};
use task_tracker::numbers::parse_task_id;

fn mk(id: i32, description: &str, status: Status) -> Task {
    Task {
        id,
        description: description.to_string(),
        status,
    }
}

#[test]
fn round_trip_two_tasks() {
    let tasks = vec![
        mk(1, "buy milk", Status::HOLD),
        mk(2, "quote \" back \\ slash", Status::PROGRESS),
        mk(3, "tab\there", Status::DONE),
    ];
    let text = tasks_to_json(&tasks);
    let loaded = load_tasks(Some(text.as_str())).unwrap();
    assert_eq!(loaded.len(), 3);
    for k in 0..3 {
        assert_eq!(loaded[k].id, tasks[k].id);
        assert_eq!(loaded[k].description, tasks[k].description);
        assert_eq!(loaded[k].status, tasks[k].status);
    }
}

#[test]
fn round_trip_empty() {
    let tasks: Vec<Task> = Vec::new();
    let text = tasks_to_json(&tasks);
    assert_eq!(text, "[]");
    let loaded = load_tasks(Some(text.as_str())).unwrap();
    assert!(loaded.is_empty());
}

#[test]
fn round_trip_control_characters() {
    let tasks = vec![mk(9, "a\u{1}b\nc\rd", Status::HOLD)];
    let text = tasks_to_json(&tasks);
    let loaded = load_tasks(Some(text.as_str())).unwrap();
    assert_eq!(loaded.len(), 1);
    assert_eq!(loaded[0].description, "a\u{1}b\nc\rd");
}

#[test]
fn add_on_empty_store() {
    let mut tasks = load_tasks(None).unwrap();
    assert!(tasks.is_empty());
    let id = add_task(&mut tasks, "buy milk".to_string());
    assert_eq!(tasks.len(), 1);
    assert_eq!(tasks[0].description, "buy milk");
    assert_eq!(tasks[0].status, Status::HOLD);
    assert_eq!(tasks[0].id, id);
    assert!(1 <= id && id <= 999);
}

#[test]
fn delete_removes_matching_keeps_order() {
    let mut tasks = vec![
        mk(5, "a", Status::HOLD),
        mk(7, "b", Status::DONE),
        mk(5, "c", Status::PROGRESS),
        mk(9, "d", Status::HOLD),
    ];
    delete_tasks(&mut tasks, 5);
    assert_eq!(tasks.len(), 2);
    assert_eq!(tasks[0].id, 7);
    assert_eq!(tasks[0].description, "b");
    assert_eq!(tasks[1].id, 9);
    assert_eq!(tasks[1].description, "d");
}

#[test]
fn delete_without_match_changes_nothing() {
    let mut tasks = vec![mk(5, "a", Status::HOLD), mk(7, "b", Status::DONE)];
    delete_tasks(&mut tasks, 100);
    assert_eq!(tasks.len(), 2);
    assert_eq!(tasks[0].id, 5);
    assert_eq!(tasks[1].id, 7);
}

#[test]
fn edit_description_only_keeps_status() {
    let mut tasks = vec![mk(5, "a", Status::PROGRESS)];
    let outcome = edit_task(&mut tasks, 5, Some("new desc"), None);
    assert!(outcome.found);
    assert!(outcome.description_updated);
    assert!(!outcome.description_warning);
    assert!(!outcome.status_updated);
    assert!(outcome.status_error.is_none());
    assert_eq!(tasks[0].description, "new desc");
    assert_eq!(tasks[0].status, Status::PROGRESS);
}

#[test]
fn edit_empty_description_sets_status_only() {
    let mut tasks = vec![mk(5, "a", Status::HOLD)];
    let outcome = edit_task(&mut tasks, 5, Some(""), Some("PROGRESS"));
    assert!(outcome.found);
    assert!(!outcome.description_updated);
    assert!(outcome.description_warning);
    assert!(outcome.status_updated);
    assert_eq!(tasks[0].description, "a");
    assert_eq!(tasks[0].status, Status::PROGRESS);
}

#[test]
fn edit_bogus_status_changes_nothing() {
    let mut tasks = vec![mk(5, "a", Status::HOLD)];
    let outcome = edit_task(&mut tasks, 5, Some(""), Some("BOGUS"));
    assert!(outcome.found);
    assert!(!outcome.description_updated);
    assert!(!outcome.status_updated);
    let msg = outcome.status_error.unwrap();
    assert_eq!(
        msg,
        "Invalid status string: 'BOGUS'. Allowed: HOLD, PROGRESS, DONE"
    );
    assert_eq!(tasks[0].description, "a");
    assert_eq!(tasks[0].status, Status::HOLD);
}

#[test]
fn edit_missing_id_reports_not_found() {
    let mut tasks = vec![mk(5, "a", Status::HOLD)];
    let outcome = edit_task(&mut tasks, 6, Some("b"), None);
    assert!(!outcome.found);
    assert!(!outcome.description_updated);
    assert_eq!(tasks[0].description, "a");
}

#[test]
fn edit_touches_only_first_match() {
    let mut tasks = vec![mk(5, "a", Status::HOLD), mk(5, "z", Status::HOLD)];
    let outcome = edit_task(&mut tasks, 5, Some("b"), None);
    assert!(outcome.found);
    assert_eq!(tasks[0].description, "b");
    assert_eq!(tasks[1].description, "z");
}

#[test]
fn edit_scenario_persists_both_fields() {
    let text = "[{\"id\": 5, \"description\": \"a\", \"status\": \"HOLD\"}]";
    let mut tasks = load_tasks(Some(text)).unwrap();
    assert_eq!(tasks.len(), 1);
    let outcome = edit_task(&mut tasks, 5, Some("b"), Some("DONE"));
    assert!(outcome.found);
    let saved = tasks_to_json(&tasks);
    let reloaded = load_tasks(Some(saved.as_str())).unwrap();
    assert_eq!(reloaded.len(), 1);
    assert_eq!(reloaded[0].id, 5);
    assert_eq!(reloaded[0].description, "b");
    assert_eq!(reloaded[0].status, Status::DONE);
}

#[test]
fn status_parse_is_case_insensitive() {
    for text in ["hold", "Hold", "HOLD", "hOlD"] {
        match Status::from_str(text) {
            Ok(st) => assert_eq!(st, Status::HOLD),
            Err(_) => panic!("should parse"),
        }
    }
    assert_eq!(Status::from_str("progress").unwrap(), Status::PROGRESS);
    assert_eq!(Status::from_str("Done").unwrap(), Status::DONE);
    let err = Status::from_str("held").unwrap_err();
    assert_eq!(err, "Invalid status string: 'held'. Allowed: HOLD, PROGRESS, DONE");
}

#[test]
fn status_names() {
    assert_eq!(Status::HOLD.name(), "HOLD");
    assert_eq!(Status::PROGRESS.name(), "PROGRESS");
    assert_eq!(Status::DONE.name(), "DONE");
}

#[test]
fn load_missing_or_blank_store_is_empty() {
    assert!(load_tasks(None).unwrap().is_empty());
    assert!(load_tasks(Some("[]")).unwrap().is_empty());
    assert!(load_tasks(Some("   \n\t ")).unwrap().is_empty());
    assert!(load_tasks(Some("")).unwrap().is_empty());
}

#[test]
fn load_corrupt_store_fails() {
    let r = load_tasks(Some("[{\"id\": oops"));
    match r {
        Err(e) => {
            assert_eq!(e, StoreError::CorruptStore);
            assert_eq!(e.message(), "Failed to deserialize tasks");
        }
        Ok(_) => panic!("should fail"),
    }
    assert!(tasks_from_json("not json at all").is_err());
    assert!(load_tasks(Some("[] trailing")).is_err());
}

#[test]
fn load_accepts_compact_and_spread_json() {
    let compact = "[{\"id\":1,\"description\":\"a\",\"status\":\"DONE\"}]";
    let loaded = load_tasks(Some(compact)).unwrap();
    assert_eq!(loaded.len(), 1);
    assert_eq!(loaded[0].status, Status::DONE);
    let spread = "[ { \"id\" : -2 , \"description\" : \"b c\" , \"status\" : \"HOLD\" } ]";
    let loaded2 = load_tasks(Some(spread)).unwrap();
    assert_eq!(loaded2[0].id, -2);
    assert_eq!(loaded2[0].description, "b c");
}

#[test]
fn load_reads_named_escapes() {
    let text = "[{\"id\": 1, \"description\": \"a\\nb\\tc\\\\d\\\"e\", \"status\": \"HOLD\"}]";
    let loaded = load_tasks(Some(text)).unwrap();
    assert_eq!(loaded[0].description, "a\nb\tc\\d\"e");
}

#[test]
fn stored_status_name_is_case_sensitive() {
    let text = "[{\"id\": 1, \"description\": \"a\", \"status\": \"hold\"}]";
    assert!(load_tasks(Some(text)).is_err());
}

#[test]
fn saved_json_is_pretty_printed() {
    let tasks = vec![mk(5, "a", Status::HOLD)];
    let expected = "[\n  {\n    \"id\": 5,\n    \"description\": \"a\",\n    \"status\": \"HOLD\"\n  }\n]";
    assert_eq!(tasks_to_json(&tasks), expected);
}

#[test]
fn config_build_requires_an_action() {
    let r = Config::build(vec!["prog".to_string()]);
    assert_eq!(r.unwrap_err(), "No action in command");
}

#[test]
fn config_build_list_allows_missing_argument() {
    let c = Config::build(vec!["prog".to_string(), "list".to_string()]).unwrap();
    assert_eq!(c.action, "list");
    assert_eq!(c.first_arg, "");
    assert!(c.second_arg.is_none());
    assert!(c.third_arg.is_none());
}

#[test]
fn config_build_add_requires_description() {
    let r = Config::build(vec!["prog".to_string(), "Add".to_string()]);
    assert_eq!(r.unwrap_err(), "No description provided for 'add' action.");
}

#[test]
fn config_build_other_actions_require_argument() {
    let r = Config::build(vec!["prog".to_string(), "delete".to_string()]);
    assert_eq!(
        r.unwrap_err(),
        "Missing required argument (e.g., ID or description)."
    );
}

#[test]
fn config_build_collects_all_arguments() {
    let c = Config::build(vec![
        "prog".to_string(),
        "edit".to_string(),
        "5".to_string(),
        "new".to_string(),
        "DONE".to_string(),
    ])
    .unwrap();
    assert_eq!(c.action, "edit");
    assert_eq!(c.first_arg, "5");
    assert_eq!(c.second_arg.unwrap(), "new");
    assert_eq!(c.third_arg.unwrap(), "DONE");
}

#[test]
fn parse_task_id_accepts_integers() {
    assert_eq!(parse_task_id("12").unwrap(), 12);
    assert_eq!(parse_task_id("-7").unwrap(), -7);
    assert_eq!(parse_task_id("+3").unwrap(), 3);
    assert_eq!(parse_task_id("007").unwrap(), 7);
    assert_eq!(parse_task_id("2147483647").unwrap(), 2147483647);
    assert_eq!(parse_task_id("-2147483648").unwrap(), -2147483648);
}

#[test]
fn parse_task_id_rejects_bad_input() {
    let err = parse_task_id("abc").unwrap_err();
    assert_eq!(err, "Error: Invalid Task ID 'abc'. Must be a number.");
    assert!(parse_task_id("").is_err());
    assert!(parse_task_id("-").is_err());
    assert!(parse_task_id("1.5").is_err());
    assert!(parse_task_id("12 ").is_err());
    assert!(parse_task_id("2147483648").is_err());
    assert!(parse_task_id("99999999999999999999").is_err());
}

#[test]
fn render_line_matches_listing_format() {
    let t = mk(3, "x", Status::DONE);
    assert_eq!(render_task_line(&t), "ID: 3, Desc: \"x\", Status: DONE");
}

#[test]
fn action_dispatch_is_case_sensitive() {
    assert_eq!(action_of("add"), ActionKind::Add);
    assert_eq!(action_of("delete"), ActionKind::Delete);
    assert_eq!(action_of("edit"), ActionKind::Edit);
    assert_eq!(action_of("list"), ActionKind::List);
    assert_eq!(action_of("ADD"), ActionKind::Unknown);
    assert_eq!(action_of("remove"), ActionKind::Unknown);
}

#[test]
fn edit_field_check_requires_one_field() {
    assert!(edit_fields_missing(&None, &None));
    assert!(!edit_fields_missing(&Some("x".to_string()), &None));
    assert!(!edit_fields_missing(&None, &Some("DONE".to_string())));
}
