use workload::binding::Binding;
use workload::surface::{
    binding_root, bindings, health, paths, root, route, stress, Body, Route, Status,
};

#[test]
fn greeting_is_constant() {
    let reply = root();
    assert_eq!(reply.status, Status::Success);
    assert_eq!(reply.status.code(), 200);
    match reply.body {
        Body::Text(text) => assert_eq!(text, "Hello, World!\n"),
        _ => panic!("the body is text"),
    }
}

#[test]
fn stress_always_refuses() {
    let reply = stress();
    assert_eq!(reply.status.code(), 500);
    match reply.body {
        Body::Text(text) => assert_eq!(
            text,
            "I'm sorry, Dave. I'm afraid I can't do that... I think you know what the problem is just as well as I do... This mission is too important for me to allow you to jeopardize it."
        ),
        _ => panic!("the body is text"),
    }
}

#[test]
fn default_root_is_bindings() {
    assert_eq!(binding_root(None), "/bindings");
}

#[test]
fn configured_root_replaces_default() {
    assert_eq!(binding_root(Some("/var/run/custom".to_string())), "/var/run/custom");
    assert_eq!(binding_root(Some(String::new())), "");
}

#[test]
fn each_path_has_its_handler() {
    assert_eq!(route("/"), Some(Route::Root));
    assert_eq!(route("/healthz"), Some(Route::Health));
    assert_eq!(route("/smoke"), Some(Route::Health));
    assert_eq!(route("/regression"), Some(Route::Health));
    assert_eq!(route("/bindings"), Some(Route::Bindings));
    assert_eq!(route("/stress"), Some(Route::Stress));
}

#[test]
fn other_paths_have_no_handler() {
    assert_eq!(route(""), None);
    assert_eq!(route("/health"), None);
    assert_eq!(route("/bindings/"), None);
    assert_eq!(route("/Stress"), None);
}

#[test]
fn registered_paths_are_the_routed_ones() {
    let all = paths();
    assert_eq!(all, vec!["/", "/healthz", "/bindings", "/smoke", "/regression", "/stress"]);
    for path in all {
        assert!(route(path).is_some());
    }
}

#[test]
fn status_codes() {
    assert_eq!(Status::Success.code(), 200);
    assert_eq!(Status::InternalServerError.code(), 500);
}

#[test]
fn health_reports_success_without_body() {
    let outcome: Result<Vec<Binding>, String> = Ok(vec![Binding::new("db".to_string())]);
    let reply = health(&outcome);
    assert_eq!(reply.status, Status::Success);
    assert!(matches!(reply.body, Body::Empty));
}

#[test]
fn health_reports_failure_without_body() {
    let outcome: Result<Vec<Binding>, String> = Err("boom".to_string());
    let reply = health(&outcome);
    assert_eq!(reply.status, Status::InternalServerError);
    assert!(matches!(reply.body, Body::Empty));
}

#[test]
fn bindings_sends_the_collection() {
    let mut db = Binding::new("db".to_string());
    db.insert("username".to_string(), "admin".to_string());
    let reply = bindings(Ok(vec![db, Binding::new("queue".to_string())]));
    assert_eq!(reply.status, Status::Success);
    match reply.body {
        Body::Bindings(sent) => {
            assert_eq!(sent.len(), 2);
            assert_eq!(sent[0].name(), "db");
            assert_eq!(sent[0].get(&"username".to_string()), Some(&"admin".to_string()));
            assert_eq!(sent[1].name(), "queue");
        }
        _ => panic!("the body holds the collection"),
    }
}

#[test]
fn bindings_sends_the_failure_as_text() {
    let reply = bindings(Err("cannot list".to_string()));
    assert_eq!(reply.status, Status::InternalServerError);
    match reply.body {
        Body::Text(text) => assert_eq!(text, "cannot list"),
        _ => panic!("the body is text"),
    }
}
