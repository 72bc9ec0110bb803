use workload::binding::Binding;
use workload::projector::{Action, Event, Phase, Projector};
use workload::surface::{bindings, health, Body, Status};

/// A root entry of an in-memory tree: its base name, what a metadata lookup
/// says of it, and what listing it gives (each file with its text, or with
/// `None` where it cannot be read as text).
struct Entry {
    name: &'static str,
    is_dir: Result<bool, &'static str>,
    files: Result<Vec<(&'static str, Option<&'static str>)>, &'static str>,
}

fn dir(name: &'static str, files: Vec<(&'static str, Option<&'static str>)>) -> Entry {
    Entry { name, is_dir: Ok(true), files: Ok(files) }
}

fn plain_file(name: &'static str) -> Entry {
    Entry { name, is_dir: Ok(false), files: Err("not a directory") }
}

/// Drives a projection over an in-memory tree, as an I/O shell would over
/// the file system. Returns the outcome and the actions that were asked.
fn project(root: Result<Vec<Entry>, &'static str>) -> (Result<Vec<Binding>, String>, Vec<Action>) {
    let mut projector = Projector::new();
    let mut action = projector.pending();
    let mut asked = vec![];
    let mut root_at = 0;
    let mut binding = 0;
    let mut file_at = 0;
    loop {
        asked.push(action);
        let event = match action {
            Action::ListRoot => match &root {
                Ok(_) => Event::Opened,
                Err(reason) => Event::Failed(reason.to_string()),
            },
            Action::NextRootEntry => {
                let entries = root.as_ref().unwrap();
                if root_at < entries.len() {
                    root_at += 1;
                    Event::Entry(entries[root_at - 1].name.to_string())
                } else {
                    Event::End
                }
            }
            Action::Stat => match root.as_ref().unwrap()[root_at - 1].is_dir {
                Ok(is_dir) => Event::Metadata(is_dir),
                Err(reason) => Event::Failed(reason.to_string()),
            },
            Action::ListBinding(index) => {
                binding = index;
                file_at = 0;
                match &root.as_ref().unwrap()[index].files {
                    Ok(_) => Event::Opened,
                    Err(reason) => Event::Failed(reason.to_string()),
                }
            }
            Action::NextBindingEntry => {
                let files = root.as_ref().unwrap()[binding].files.as_ref().unwrap();
                if file_at < files.len() {
                    file_at += 1;
                    Event::Entry(files[file_at - 1].0.to_string())
                } else {
                    Event::End
                }
            }
            Action::ReadFile => {
                let files = root.as_ref().unwrap()[binding].files.as_ref().unwrap();
                match files[file_at - 1].1 {
                    Some(text) => Event::Text(text.to_string()),
                    None => Event::Failed("stream did not contain valid UTF-8".to_string()),
                }
            }
            Action::Done => break,
        };
        action = projector.step(event);
    }
    (projector.outcome().unwrap(), asked)
}

fn properties(binding: &Binding) -> Vec<(String, String)> {
    let mut all = vec![];
    for i in 0..binding.len() {
        all.push((binding.key_at(i).clone(), binding.value_at(i).clone()));
    }
    all.sort();
    all
}

fn pair(key: &str, value: &str) -> (String, String) {
    (key.to_string(), value.to_string())
}

#[test]
fn empty_root_gives_empty_collection() {
    let (outcome, asked) = project(Ok(vec![]));
    assert_eq!(asked, vec![Action::ListRoot, Action::NextRootEntry, Action::Done]);
    assert_eq!(health(&outcome).status, Status::Success);
    let reply = bindings(outcome);
    assert_eq!(reply.status, Status::Success);
    assert_eq!(reply.status.code(), 200);
    match reply.body {
        Body::Bindings(found) => assert!(found.is_empty()),
        _ => panic!("the body holds the collection"),
    }
}

#[test]
fn one_binding_with_one_property() {
    let (outcome, asked) = project(Ok(vec![dir("db", vec![("username", Some("admin"))])]));
    assert_eq!(
        asked,
        vec![
            Action::ListRoot,
            Action::NextRootEntry,
            Action::Stat,
            Action::NextRootEntry,
            Action::ListBinding(0),
            Action::NextBindingEntry,
            Action::ReadFile,
            Action::NextBindingEntry,
            Action::Done,
        ]
    );
    let reply = bindings(outcome);
    assert_eq!(reply.status.code(), 200);
    match reply.body {
        Body::Bindings(found) => {
            assert_eq!(found.len(), 1);
            assert_eq!(found[0].name(), "db");
            assert_eq!(properties(&found[0]), vec![pair("username", "admin")]);
            assert_eq!(found[0].get(&"username".to_string()), Some(&"admin".to_string()));
        }
        _ => panic!("the body holds the collection"),
    }
}

#[test]
fn missing_root_fails_health_and_bindings() {
    let (outcome, asked) = project(Err("No such file or directory (os error 2)"));
    assert_eq!(asked, vec![Action::ListRoot, Action::Done]);
    let reply = health(&outcome);
    assert_eq!(reply.status.code(), 500);
    assert!(matches!(reply.body, Body::Empty));
    let reply = bindings(outcome);
    assert_eq!(reply.status, Status::InternalServerError);
    assert_eq!(reply.status.code(), 500);
    match reply.body {
        Body::Text(text) => {
            assert!(!text.is_empty());
            assert_eq!(text, "No such file or directory (os error 2)");
        }
        _ => panic!("the body holds the failure's description"),
    }
}

#[test]
fn unreadable_file_is_left_out() {
    let (outcome, _) = project(Ok(vec![dir(
        "db",
        vec![("username", Some("admin")), ("blob", None), ("password", Some("secret"))],
    )]));
    assert_eq!(health(&outcome).status.code(), 200);
    let found = outcome.unwrap();
    assert_eq!(found.len(), 1);
    assert_eq!(found[0].len(), 2);
    assert_eq!(
        properties(&found[0]),
        vec![pair("password", "secret"), pair("username", "admin")]
    );
    assert_eq!(found[0].get(&"blob".to_string()), None);
}

#[test]
fn nested_directory_is_left_out() {
    let (outcome, _) = project(Ok(vec![dir("db", vec![("nested", None)])]));
    let found = outcome.unwrap();
    assert_eq!(found.len(), 1);
    assert_eq!(found[0].name(), "db");
    assert_eq!(found[0].len(), 0);
}

#[test]
fn only_directories_become_bindings() {
    let (outcome, asked) = project(Ok(vec![
        plain_file("README"),
        dir("cache", vec![("host", Some("redis"))]),
        plain_file("notes"),
        dir("db", vec![]),
    ]));
    let listed: Vec<Action> =
        asked.into_iter().filter(|a| matches!(a, Action::ListBinding(_))).collect();
    assert_eq!(listed, vec![Action::ListBinding(1), Action::ListBinding(3)]);
    let found = outcome.unwrap();
    assert_eq!(found.len(), 2);
    assert_eq!(found[0].name(), "cache");
    assert_eq!(properties(&found[0]), vec![pair("host", "redis")]);
    assert_eq!(found[1].name(), "db");
    assert_eq!(found[1].len(), 0);
}

#[test]
fn root_is_enumerated_before_any_binding_is_listed() {
    let (_, asked) = project(Ok(vec![dir("a", vec![]), dir("b", vec![])]));
    assert_eq!(
        asked,
        vec![
            Action::ListRoot,
            Action::NextRootEntry,
            Action::Stat,
            Action::NextRootEntry,
            Action::Stat,
            Action::NextRootEntry,
            Action::ListBinding(0),
            Action::NextBindingEntry,
            Action::ListBinding(1),
            Action::NextBindingEntry,
            Action::Done,
        ]
    );
}

#[test]
fn metadata_failure_aborts() {
    let (outcome, _) = project(Ok(vec![
        dir("db", vec![("username", Some("admin"))]),
        Entry { name: "gone", is_dir: Err("metadata failed"), files: Ok(vec![]) },
    ]));
    assert_eq!(outcome.unwrap_err(), "metadata failed");
}

#[test]
fn subdirectory_listing_failure_aborts() {
    let (outcome, _) = project(Ok(vec![
        dir("db", vec![("username", Some("admin"))]),
        Entry { name: "locked", is_dir: Ok(true), files: Err("Permission denied (os error 13)") },
    ]));
    assert_eq!(health(&outcome).status.code(), 500);
    assert_eq!(outcome.unwrap_err(), "Permission denied (os error 13)");
}

#[test]
fn file_failure_is_skipped_but_directory_failure_is_fatal() {
    let mut skipping = Projector::new();
    skipping.step(Event::Opened);
    skipping.step(Event::Entry("db".to_string()));
    skipping.step(Event::Metadata(true));
    skipping.step(Event::End);
    skipping.step(Event::Opened);
    assert_eq!(skipping.step(Event::Entry("blob".to_string())), Action::ReadFile);
    assert_eq!(skipping.step(Event::Failed("bad".to_string())), Action::NextBindingEntry);
    assert_eq!(skipping.phase(), Phase::ScanningBinding);
    assert_eq!(skipping.step(Event::Failed("listing broke".to_string())), Action::Done);
    assert_eq!(skipping.phase(), Phase::Failed);
    assert_eq!(skipping.outcome().unwrap().unwrap_err(), "listing broke");
}

#[test]
fn root_entry_failure_aborts() {
    let mut projector = Projector::new();
    assert_eq!(projector.step(Event::Opened), Action::NextRootEntry);
    assert_eq!(projector.step(Event::Failed("read error".to_string())), Action::Done);
    assert_eq!(projector.outcome().unwrap().unwrap_err(), "read error");
}

#[test]
fn outcome_is_absent_while_under_way() {
    let mut projector = Projector::new();
    assert_eq!(projector.phase(), Phase::OpeningRoot);
    assert_eq!(projector.pending(), Action::ListRoot);
    projector.step(Event::Opened);
    assert_eq!(projector.phase(), Phase::ScanningRoot);
    assert!(projector.outcome().is_none());
}

#[test]
fn event_that_answers_nothing_changes_nothing() {
    let mut projector = Projector::new();
    assert_eq!(projector.step(Event::End), Action::ListRoot);
    assert_eq!(projector.step(Event::Text("x".to_string())), Action::ListRoot);
    assert_eq!(projector.step(Event::Metadata(true)), Action::ListRoot);
    assert_eq!(projector.phase(), Phase::OpeningRoot);
    assert_eq!(projector.step(Event::Opened), Action::NextRootEntry);
    assert_eq!(projector.step(Event::Opened), Action::NextRootEntry);
    assert_eq!(projector.step(Event::End), Action::Done);
    assert_eq!(projector.step(Event::Failed("late".to_string())), Action::Done);
    assert_eq!(projector.phase(), Phase::Finished);
    assert!(projector.outcome().unwrap().unwrap().is_empty());
}

#[test]
fn same_answers_give_same_bindings() {
    let tree = || {
        Ok(vec![
            dir("db", vec![("username", Some("admin")), ("junk", None)]),
            plain_file("README"),
            dir("queue", vec![("url", Some("amqp://mq"))]),
        ])
    };
    let (first, asked_first) = project(tree());
    let (second, asked_second) = project(tree());
    assert_eq!(asked_first, asked_second);
    let first = first.unwrap();
    let second = second.unwrap();
    assert_eq!(first.len(), second.len());
    for i in 0..first.len() {
        assert_eq!(first[i].name(), second[i].name());
        assert_eq!(properties(&first[i]), properties(&second[i]));
    }
}

#[test]
fn enumeration_order_only_reorders_the_result() {
    let (first, _) = project(Ok(vec![
        dir("db", vec![("username", Some("admin")), ("password", Some("secret"))]),
        plain_file("README"),
        dir("queue", vec![("url", Some("amqp://mq"))]),
    ]));
    let (second, _) = project(Ok(vec![
        dir("queue", vec![("url", Some("amqp://mq"))]),
        dir("db", vec![("password", Some("secret")), ("username", Some("admin"))]),
        plain_file("README"),
    ]));
    let first = first.unwrap();
    let second = second.unwrap();
    assert_eq!(first.len(), 2);
    assert_eq!(second.len(), 2);
    assert_eq!(first[0].name(), second[1].name());
    assert_eq!(first[1].name(), second[0].name());
    assert_eq!(properties(&first[0]), properties(&second[1]));
    assert_eq!(properties(&first[1]), properties(&second[0]));
    assert_eq!(second[1].key_at(0), "password");
    assert_eq!(first[0].key_at(0), "username");
}

#[test]
fn same_file_name_twice_keeps_the_later_text() {
    let (outcome, _) = project(Ok(vec![dir("db", vec![("k", Some("old")), ("k", Some("new"))])]));
    let found = outcome.unwrap();
    assert_eq!(properties(&found[0]), vec![pair("k", "new")]);
}

#[test]
fn insert_replaces_and_keeps_order() {
    let mut binding = Binding::new("db".to_string());
    assert_eq!(binding.len(), 0);
    binding.insert("a".to_string(), "1".to_string());
    binding.insert("b".to_string(), "2".to_string());
    binding.insert("a".to_string(), "3".to_string());
    assert_eq!(binding.name(), "db");
    assert_eq!(binding.len(), 2);
    assert_eq!(binding.key_at(0), "a");
    assert_eq!(binding.value_at(0), "3");
    assert_eq!(binding.key_at(1), "b");
    assert_eq!(binding.value_at(1), "2");
    assert_eq!(binding.get(&"b".to_string()), Some(&"2".to_string()));
    assert_eq!(binding.get(&"c".to_string()), None);
}
