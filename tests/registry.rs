use app_launcher::launch::{
    delete_status, launch_app, report_finished, report_start_failure, update_status, STATUS_NOT_FOUND,
    STATUS_NO_CONTENT, STATUS_OK, STATUS_SERVER_ERROR,
};
use app_launcher::model::{App, NIL_ID};
use app_launcher::registry::{
    create_app, create_app_with, delete_app, find_app, list_apps, update_app, AppState, RegistryError,
};

fn app(id: u128, name: &str, command: &str) -> App {
    App {
        id,
        name: name.to_string(),
        description: Some(format!("about {}", name)),
        command: command.to_string(),
        url: format!("http://localhost/{}", name),
    }
}

fn same(a: &App, b: &App) -> bool {
    a.id == b.id && a.name == b.name && a.description == b.description && a.command == b.command && a.url == b.url
}

fn empty() -> AppState {
    AppState::new("apps.json", None)
}

#[test]
fn new_without_snapshot_is_empty() {
    let s = empty();
    assert!(list_apps(&s).is_empty());
    assert_eq!(s.file_path(), "apps.json");
}

#[test]
fn create_then_list_holds_exactly_the_payload() {
    let mut s = empty();
    let a = app(NIL_ID, "editor", "vim");
    let stored = create_app(&mut s, a.duplicate()).unwrap();
    assert_ne!(stored.id, NIL_ID);
    let all = list_apps(&s);
    assert_eq!(all.len(), 1);
    assert!(same(&all[0], &stored));
    assert_eq!(all[0].name, "editor");
    assert_eq!(all[0].description, Some("about editor".to_string()));
    assert_eq!(all[0].command, "vim");
    assert_eq!(all[0].url, "http://localhost/editor");
}

#[test]
fn drawn_id_has_uuid_v4_bits() {
    let mut s = empty();
    let stored = create_app(&mut s, app(NIL_ID, "x", "true")).unwrap();
    let mask: u128 = 0x0000_0000_0000_f000_c000_0000_0000_0000;
    let bits: u128 = 0x0000_0000_0000_4000_8000_0000_0000_0000;
    assert_eq!(stored.id & mask, bits);
}

#[test]
fn create_keeps_a_given_id() {
    let mut s = empty();
    let stored = create_app(&mut s, app(42, "a", "ls")).unwrap();
    assert_eq!(stored.id, 42);
    assert_eq!(list_apps(&s)[0].id, 42);
}

#[test]
fn create_with_fresh_id_uses_it_only_for_nil() {
    let mut s = empty();
    assert_eq!(create_app_with(&mut s, app(NIL_ID, "a", "ls"), 7).unwrap().id, 7);
    assert_eq!(create_app_with(&mut s, app(9, "b", "ls"), 8).unwrap().id, 9);
    let ids: Vec<u128> = list_apps(&s).iter().map(|a| a.id).collect();
    assert_eq!(ids, vec![7, 9]);
}

#[test]
fn create_refuses_taken_and_nil_ids() {
    let mut s = empty();
    create_app_with(&mut s, app(5, "a", "ls"), 0).unwrap();
    assert_eq!(create_app_with(&mut s, app(5, "b", "ls"), 0).err(), Some(RegistryError::DuplicateId));
    assert_eq!(create_app_with(&mut s, app(NIL_ID, "c", "ls"), 5).err(), Some(RegistryError::DuplicateId));
    assert_eq!(create_app_with(&mut s, app(NIL_ID, "d", "ls"), NIL_ID).err(), Some(RegistryError::NilId));
    assert_eq!(list_apps(&s).len(), 1);
}

#[test]
fn many_creates_give_distinct_ids_and_lose_none() {
    let mut s = empty();
    let n: usize = 64;
    for i in 0..n {
        create_app(&mut s, app(NIL_ID, &format!("app{}", i), "true")).unwrap();
    }
    let all = list_apps(&s);
    assert_eq!(all.len(), n);
    for i in 0..n {
        assert_eq!(all[i].name, format!("app{}", i));
        for j in 0..i {
            assert_ne!(all[i].id, all[j].id);
        }
    }
}

#[test]
fn update_overwrites_fields_and_keeps_id() {
    let mut s = empty();
    create_app_with(&mut s, app(1, "a", "ls"), 0).unwrap();
    create_app_with(&mut s, app(2, "b", "pwd"), 0).unwrap();
    let mut p = app(99, "renamed", "echo hi");
    p.description = None;
    assert_eq!(update_app(&mut s, 2, p), Ok(()));
    let all = list_apps(&s);
    assert_eq!(all[0].name, "a");
    assert_eq!(all[1].id, 2);
    assert_eq!(all[1].name, "renamed");
    assert_eq!(all[1].description, None);
    assert_eq!(all[1].command, "echo hi");
    assert_eq!(all[1].url, "http://localhost/renamed");
}

#[test]
fn update_unknown_id_is_not_found_and_changes_nothing() {
    let mut s = empty();
    create_app_with(&mut s, app(1, "a", "ls"), 0).unwrap();
    let before = list_apps(&s);
    assert_eq!(update_app(&mut s, 3, app(3, "z", "rm")), Err(RegistryError::NotFound));
    let after = list_apps(&s);
    assert_eq!(after.len(), before.len());
    assert!(same(&after[0], &before[0]));
}

#[test]
fn delete_removes_one_and_second_delete_is_not_found() {
    let mut s = empty();
    for id in 1..=3u128 {
        create_app_with(&mut s, app(id, &format!("n{}", id), "ls"), 0).unwrap();
    }
    assert_eq!(delete_app(&mut s, 2), Ok(()));
    let ids: Vec<u128> = list_apps(&s).iter().map(|a| a.id).collect();
    assert_eq!(ids, vec![1, 3]);
    assert_eq!(delete_app(&mut s, 2), Err(RegistryError::NotFound));
    assert_eq!(list_apps(&s).len(), 2);
}

#[test]
fn reload_from_snapshot_gives_the_same_collection() {
    let mut s = empty();
    create_app_with(&mut s, app(1, "a", "ls"), 0).unwrap();
    create_app_with(&mut s, app(NIL_ID, "b", "pwd"), 2).unwrap();
    let saved = s.snapshot();
    let loaded = AppState::new("apps.json", Some(saved));
    let a = list_apps(&s);
    let b = list_apps(&loaded);
    assert_eq!(a.len(), b.len());
    for i in 0..a.len() {
        assert!(same(&a[i], &b[i]));
    }
}

#[test]
fn load_keeps_first_entry_of_a_repeated_id() {
    let stored = vec![app(1, "first", "ls"), app(2, "b", "ls"), app(1, "second", "ls")];
    let s = AppState::new("data.json", Some(stored));
    let all = list_apps(&s);
    assert_eq!(all.len(), 2);
    assert_eq!(all[0].name, "first");
    assert_eq!(all[1].id, 2);
    assert_eq!(s.file_path(), "data.json");
}

#[test]
fn find_returns_a_copy_of_the_entry() {
    let mut s = empty();
    create_app_with(&mut s, app(4, "d", "date"), 0).unwrap();
    assert!(same(&find_app(&s, 4).unwrap(), &app(4, "d", "date")));
    assert!(find_app(&s, 5).is_none());
}

#[test]
fn launch_unknown_id_is_not_found() {
    let s = empty();
    let rep = launch_app(&s, 77).err().unwrap();
    assert_eq!(rep.status, STATUS_NOT_FOUND);
    assert!(!rep.success);
    assert_eq!(rep.message, "App not found");
    assert!(rep.command.is_none() && rep.stdout.is_none() && rep.stderr.is_none());
}

#[test]
fn launch_known_id_gives_its_command() {
    let mut s = empty();
    create_app_with(&mut s, app(3, "greet", "echo hello"), 0).unwrap();
    assert_eq!(launch_app(&s, 3).ok(), Some("echo hello".to_string()));
}

#[test]
fn finished_hello_reports_success_and_output() {
    let rep = report_finished("echo hello".to_string(), true, b"hello\n", b"");
    assert_eq!(rep.status, STATUS_OK);
    assert!(rep.success);
    assert_eq!(rep.message, "Command executed successfully.");
    assert_eq!(rep.command, Some("echo hello".to_string()));
    assert!(rep.stdout.as_ref().unwrap().contains("hello"));
    assert_eq!(rep.stdout, Some("hello\n".to_string()));
    assert_eq!(rep.stderr, Some(String::new()));
}

#[test]
fn finished_with_failure_reports_command_failed_with_200() {
    let rep = report_finished("exit 3".to_string(), false, b"", b"oops");
    assert_eq!(rep.status, STATUS_OK);
    assert!(!rep.success);
    assert_eq!(rep.message, "Command failed.");
    assert_eq!(rep.stderr, Some("oops".to_string()));
}

#[test]
fn finished_output_replaces_invalid_utf8() {
    let rep = report_finished("x".to_string(), true, &[b'a', 0xff, b'b'], &[0xc3, 0xa9]);
    assert_eq!(rep.stdout, Some("a\u{FFFD}b".to_string()));
    assert_eq!(rep.stderr, Some("\u{e9}".to_string()));
}

#[test]
fn start_failure_reports_reason_with_500() {
    let rep = report_start_failure("foo".to_string(), "No such file or directory");
    assert_eq!(rep.status, STATUS_SERVER_ERROR);
    assert!(!rep.success);
    assert_eq!(rep.message, "Failed to execute process: No such file or directory");
    assert_eq!(rep.command, Some("foo".to_string()));
    assert_eq!(rep.stdout, Some(String::new()));
    assert_eq!(rep.stderr, Some(String::new()));
}

#[test]
fn statuses_of_update_and_delete() {
    assert_eq!(update_status(&Ok(())), STATUS_OK);
    assert_eq!(update_status(&Err(RegistryError::NotFound)), STATUS_NOT_FOUND);
    assert_eq!(delete_status(&Ok(())), STATUS_NO_CONTENT);
    assert_eq!(delete_status(&Err(RegistryError::NotFound)), STATUS_NOT_FOUND);
}
