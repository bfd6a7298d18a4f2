//! Requests about projects.

use crate::api::forward::{self, Route};
use crate::api::{ApiError, Refusal};
use crate::auth::{Principal, Who};
use crate::json::{self, Json, JsonView};
use crate::text::{self, opt_str};
use vstd::prelude::*;

verus! {

/// Why something could not be done with a project.
#[derive(Clone, Copy, Debug, PartialEq, Eq, Structural)]
pub enum ProjectError {
    /// The path is none of the known ones. That it is not there is not said.
    Unknown,
    InvalidName,
    WorktreeExists,
    BranchExists,
    PathExists,
    Git,
    Exec,
    Db,
}

/// The status and the kind of the answer to a request that could not be done.
pub open spec fn project_kind(e: ProjectError) -> (int, Seq<char>) {
    match e {
        ProjectError::Unknown => (400, "bad_request"@),
        ProjectError::InvalidName => (400, "bad_request"@),
        ProjectError::WorktreeExists => (409, "worktree_exists"@),
        ProjectError::BranchExists => (409, "branch_exists"@),
        ProjectError::PathExists => (409, "path_exists"@),
        ProjectError::Git => (502, "git"@),
        ProjectError::Exec => (502, "git"@),
        ProjectError::Db => (500, "database"@),
    }
}

/// The answer to a request that could not be done; `message` is the error in words.
pub fn project_failed(e: ProjectError, message: &str) -> (r: ApiError)
    ensures
        r@.status == project_kind(e).0,
        r@.kind == project_kind(e).1,
        r@.message == message@,
{
    let (status, kind): (u16, &'static str) = match e {
        ProjectError::Unknown => (400, "bad_request"),
        ProjectError::InvalidName => (400, "bad_request"),
        ProjectError::WorktreeExists => (409, "worktree_exists"),
        ProjectError::BranchExists => (409, "branch_exists"),
        ProjectError::PathExists => (409, "path_exists"),
        ProjectError::Git => (502, "git"),
        ProjectError::Exec => (502, "git"),
        ProjectError::Db => (500, "database"),
    };
    ApiError { status, kind, message: message.to_owned() }
}

/// Whether a request is sent on to the node that it names. `route` is what that node is to this one.
pub open spec fn sent_on(local: Seq<char>, node: Option<Seq<char>>, route: Route, who: Who) -> Result<
    bool,
    Refusal,
> {
    match node {
        None => Ok(false),
        Some(n) => match route {
            Route::Local => Ok(false),
            Route::Peer => match who {
                Who::Peer { name } => Err(forward::second_hop(local, n, name)),
                Who::Human { .. } => Ok(true),
            },
            Route::Unknown => Err(forward::node_unknown(local, n)),
        },
    }
}

/// Whether a request is sent on to the node that it names.
pub fn forwarded(local: &str, node: Option<&str>, route: Route, principal: &Principal) -> (r: Result<
    bool,
    ApiError,
>)
    ensures
        match r {
            Ok(b) => sent_on(local@, opt_str(node), route, principal@) == Ok::<bool, Refusal>(b),
            Err(e) => sent_on(local@, opt_str(node), route, principal@) == Err::<bool, Refusal>(e@),
        },
{
    match node {
        None => Ok(false),
        Some(n) => match route {
            Route::Local => Ok(false),
            Route::Peer => match principal {
                Principal::Peer { name } => Err(forward::refuse_second_hop(local, n, name.as_str())),
                Principal::Human { .. } => Ok(true),
            },
            Route::Unknown => Err(forward::refuse_unknown(local, n)),
        },
    }
}

/// A path with its query, as it is sent on.
pub fn path_with_query(path: &str, query: Option<&str>) -> (out: String)
    ensures
        out@ == (match query {
            Some(q) => path@ + "?"@ + q@,
            None => path@,
        }),
{
    match query {
        Some(q) => text::cat3(path, "?", q),
        None => path.to_owned(),
    }
}

/// The answer to the question what tasks are ready: the tasks, or the word for why there are none.
pub fn tasks_body(listed: Result<Vec<Json>, String>) -> (r: Json)
    ensures
        r@ == JsonView::Object(
            match listed {
                Ok(tasks) => seq![
                    ("reason"@, JsonView::Null),
                    ("tasks"@, JsonView::Array(json::views(tasks@))),
                ],
                Err(reason) => seq![
                    ("reason"@, JsonView::Str(reason@)),
                    ("tasks"@, JsonView::Array(Seq::empty())),
                ],
            },
        ),
{
    match listed {
        Ok(tasks) => json::object2("reason", Json::Null, "tasks", Json::Array(tasks)),
        Err(reason) => {
            let none: Vec<Json> = Vec::new();
            proof {
                assert(json::views(none@) =~= Seq::empty());
            }
            json::object2("reason", Json::Str(reason), "tasks", Json::Array(none))
        },
    }
}

/// A request for the projects of another node is sent there for a human and where the node is known; from
/// another node it is refused, and so is one for a node that is not known. Without a node it stays here.
pub proof fn lemma_where_projects_are(local: Seq<char>, node: Seq<char>, route: Route, who: Who)
    ensures
        sent_on(local, None, route, who) == Ok::<bool, Refusal>(false),
        sent_on(local, Some(node), route, who) == Ok::<bool, Refusal>(true) <==> route is Peer
            && who is Human,
        sent_on(local, Some(node), route, who) == Ok::<bool, Refusal>(false) <==> route is Local,
        sent_on(local, Some(node), route, who) is Err ==> sent_on(
            local,
            Some(node),
            route,
            who,
        )->Err_0.status == 404,
{
}

/// What the one who asked got wrong is told as such, what is there already as a conflict, what `git` refused
/// as a fault behind the server, and a fault of the table as one of the server.
pub proof fn lemma_how_project_errors_are_told(e: ProjectError)
    ensures
        project_kind(e).0 == 400 <==> e is Unknown || e is InvalidName,
        project_kind(e).0 == 409 <==> e is WorktreeExists || e is BranchExists || e is PathExists,
        project_kind(e).0 == 502 <==> e is Git || e is Exec,
        project_kind(e).0 == 500 <==> e is Db,
{
}

} // verus!
