//! The HTTP surface: which handler a path belongs to, and what each handler
//! replies, given the outcome of a projection where it needs one.

use vstd::prelude::*;
use crate::binding::Binding;

verus! {

/// The handlers.
#[derive(Clone, Copy, PartialEq, Eq, Structural, Debug)]
pub enum Route {
    /// The greeting.
    Root,
    /// Liveness: does the projection succeed?
    Health,
    /// The bindings as data.
    Bindings,
    /// The handler that always refuses.
    Stress,
}

/// The status of a reply.
#[derive(Clone, Copy, PartialEq, Eq, Structural, Debug)]
pub enum Status {
    /// 200.
    Success,
    /// 500.
    InternalServerError,
}

/// The body of a reply.
#[derive(Debug)]
pub enum Body {
    /// No body.
    Empty,
    /// Plain text.
    Text(String),
    /// The binding collection, to be written as a JSON array.
    Bindings(Vec<Binding>),
}

/// A reply: its status and its body.
#[derive(Debug)]
pub struct Reply {
    pub status: Status,
    pub body: Body,
}

/// The greeting's text.
pub open spec fn greeting() -> Seq<char> {
    "Hello, World!\n"@
}

/// The refusal's text.
pub open spec fn refusal() -> Seq<char> {
    "I'm sorry, Dave. I'm afraid I can't do that... I think you know what the problem is just as well as I do... This mission is too important for me to allow you to jeopardize it."@
}

/// The binding root that is read when none is configured.
pub open spec fn default_root() -> Seq<char> {
    "/bindings"@
}

/// The handler that a path belongs to, if any.
pub open spec fn route_of(path: Seq<char>) -> Option<Route> {
    if path == "/"@ {
        Some(Route::Root)
    } else if path == "/healthz"@ || path == "/smoke"@ || path == "/regression"@ {
        Some(Route::Health)
    } else if path == "/bindings"@ {
        Some(Route::Bindings)
    } else if path == "/stress"@ {
        Some(Route::Stress)
    } else {
        None
    }
}

/// The paths that are served, in the order in which they are registered.
pub open spec fn served() -> Seq<Seq<char>> {
    seq!["/"@, "/healthz"@, "/bindings"@, "/smoke"@, "/regression"@, "/stress"@]
}

/// Each served path has its handler, and no other path has one: the
/// greeting at `/`, liveness at `/healthz` and its two aliases, the
/// bindings at `/bindings`, the refusal at `/stress`.
pub proof fn lemma_routes()
    ensures
        route_of("/"@) == Some(Route::Root),
        route_of("/healthz"@) == Some(Route::Health),
        route_of("/smoke"@) == Some(Route::Health),
        route_of("/regression"@) == Some(Route::Health),
        route_of("/bindings"@) == Some(Route::Bindings),
        route_of("/stress"@) == Some(Route::Stress),
        forall|path: Seq<char>| route_of(path) is Some <==> served().contains(path),
{
    reveal_strlit("/");
    reveal_strlit("/healthz");
    reveal_strlit("/smoke");
    reveal_strlit("/regression");
    reveal_strlit("/bindings");
    reveal_strlit("/stress");
    assert("/"@.len() == 1);
    assert("/healthz"@.len() == 8);
    assert("/smoke"@.len() == 6);
    assert("/regression"@.len() == 11);
    assert("/bindings"@.len() == 9);
    assert("/stress"@.len() == 7);
    assert(served()[0] == "/"@);
    assert(served()[1] == "/healthz"@);
    assert(served()[2] == "/bindings"@);
    assert(served()[3] == "/smoke"@);
    assert(served()[4] == "/regression"@);
    assert(served()[5] == "/stress"@);
}

impl Status {
    /// The status as a number.
    pub open spec fn number(self) -> u16 {
        match self {
            Status::Success => 200,
            Status::InternalServerError => 500,
        }
    }

    /// The status as a number.
    pub fn code(self) -> (code: u16)
        ensures
            code == self.number(),
    {
        match self {
            Status::Success => 200,
            Status::InternalServerError => 500,
        }
    }
}

/// Whether two strings hold the same text.
fn same_text(a: &str, b: &str) -> (same: bool)
    ensures
        same == (a@ == b@),
{
    let left = a.to_owned();
    let right = b.to_owned();
    left == right
}

/// The handler that `path` belongs to, if any.
pub fn route(path: &str) -> (found: Option<Route>)
    ensures
        found == route_of(path@),
{
    if same_text(path, "/") {
        Some(Route::Root)
    } else if same_text(path, "/healthz") || same_text(path, "/smoke") || same_text(
        path,
        "/regression",
    ) {
        Some(Route::Health)
    } else if same_text(path, "/bindings") {
        Some(Route::Bindings)
    } else if same_text(path, "/stress") {
        Some(Route::Stress)
    } else {
        None
    }
}

/// The paths to register, in order.
pub fn paths() -> (paths: Vec<&'static str>)
    ensures
        paths@.len() == served().len(),
        forall|i: int| 0 <= i < paths@.len() ==> (#[trigger] paths@[i])@ == served()[i],
{
    let mut paths: Vec<&'static str> = Vec::new();
    paths.push("/");
    paths.push("/healthz");
    paths.push("/bindings");
    paths.push("/smoke");
    paths.push("/regression");
    paths.push("/stress");
    paths
}

/// The directory to project: the configured one, or `/bindings`.
pub fn binding_root(configured: Option<String>) -> (root: String)
    ensures
        root@ == match configured {
            Some(path) => path@,
            None => default_root(),
        },
{
    match configured {
        Some(path) => path,
        None => "/bindings".to_owned(),
    }
}

/// The greeting: always the same, whatever the file system holds.
pub fn root() -> (reply: Reply)
    ensures
        reply.status == Status::Success,
        reply.body matches Body::Text(text) && text@ == greeting(),
{
    Reply { status: Status::Success, body: Body::Text("Hello, World!\n".to_owned()) }
}

/// The refusal: always the same, without a projection.
pub fn stress() -> (reply: Reply)
    ensures
        reply.status == Status::InternalServerError,
        reply.body matches Body::Text(text) && text@ == refusal(),
{
    Reply {
        status: Status::InternalServerError,
        body: Body::Text(
            "I'm sorry, Dave. I'm afraid I can't do that... I think you know what the problem is just as well as I do... This mission is too important for me to allow you to jeopardize it.".to_owned(),
        ),
    }
}

/// Liveness: success exactly when the projection succeeded, with no body.
pub fn health(outcome: &Result<Vec<Binding>, String>) -> (reply: Reply)
    ensures
        reply.status == if outcome is Ok {
            Status::Success
        } else {
            Status::InternalServerError
        },
        reply.body is Empty,
{
    match outcome {
        Ok(_) => Reply { status: Status::Success, body: Body::Empty },
        Err(_) => Reply { status: Status::InternalServerError, body: Body::Empty },
    }
}

/// The bindings: the whole collection on success, the failure's
/// description as text otherwise.
pub fn bindings(outcome: Result<Vec<Binding>, String>) -> (reply: Reply)
    ensures
        match outcome {
            Ok(found) => {
                &&& reply.status == Status::Success
                &&& reply.body matches Body::Bindings(sent) && sent == found
            },
            Err(reason) => {
                &&& reply.status == Status::InternalServerError
                &&& reply.body matches Body::Text(text) && text@ == reason@
            },
        },
{
    match outcome {
        Ok(found) => Reply { status: Status::Success, body: Body::Bindings(found) },
        Err(reason) => Reply { status: Status::InternalServerError, body: Body::Text(reason) },
    }
}

} // verus!
