//! The routes that the server registers, and what each one serves.

use vstd::prelude::*;

verus! {

/// How a route answers.
#[derive(Debug, Clone, Copy, PartialEq, Eq, Structural)]
pub enum Handler {
    /// Lists the entries of the target directory.
    Projects,
    /// Draws one line of the target file.
    RandomWord,
    /// Serves the target file, whatever follows the path.
    File,
    /// Serves the files below the target directory.
    Directory,
}

/// One route: the path it is registered under, how it answers, and the file
/// or directory that it reads, relative to the working directory.
#[derive(Debug, Clone, Copy)]
pub struct Route {
    pub path: &'static str,
    pub handler: Handler,
    pub target: &'static str,
}

/// A route as plain values.
pub ghost struct RouteView {
    pub path: Seq<char>,
    pub handler: Handler,
    pub target: Seq<char>,
}

impl View for Route {
    type V = RouteView;

    open spec fn view(&self) -> RouteView {
        RouteView { path: self.path@, handler: self.handler, target: self.target@ }
    }
}

/// The routes as plain values.
pub open spec fn views(routes: Seq<Route>) -> Seq<RouteView> {
    routes.map_values(|route: Route| route@)
}

/// The table of routes, in the order of registration: the two computed
/// answers first, then the files and directories that are served as they are.
pub open spec fn route_table() -> Seq<RouteView> {
    seq![
        RouteView {
            path: "/projects"@,
            handler: Handler::Projects,
            target: "assets/projects/html"@,
        },
        RouteView {
            path: "/rand-five-letter"@,
            handler: Handler::RandomWord,
            target: "assets/projects/data/five-letter-words.txt"@,
        },
        RouteView { path: "/"@, handler: Handler::File, target: "assets/index.html"@ },
        RouteView { path: "/favicon"@, handler: Handler::File, target: "assets/favicon.png"@ },
        RouteView { path: "/main.css"@, handler: Handler::File, target: "assets/styles.css"@ },
        RouteView {
            path: "/project"@,
            handler: Handler::Directory,
            target: "assets/projects/html"@,
        },
        RouteView {
            path: "/project/css"@,
            handler: Handler::Directory,
            target: "assets/projects/css"@,
        },
        RouteView {
            path: "/project/js"@,
            handler: Handler::Directory,
            target: "assets/projects/js"@,
        },
        RouteView {
            path: "/project/data"@,
            handler: Handler::Directory,
            target: "assets/projects/data"@,
        },
    ]
}

/// The address that the server listens on.
pub fn bind_address() -> (address: &'static str)
    ensures
        address@ == "0.0.0.0:8080"@,
{
    "0.0.0.0:8080"
}

/// The routes to register, in order.
pub fn routes() -> (table: Vec<Route>)
    ensures
        views(table@) == route_table(),
{
    let mut table: Vec<Route> = Vec::new();
    table.push(
        Route { path: "/projects", handler: Handler::Projects, target: "assets/projects/html" },
    );
    table.push(
        Route {
            path: "/rand-five-letter",
            handler: Handler::RandomWord,
            target: "assets/projects/data/five-letter-words.txt",
        },
    );
    table.push(Route { path: "/", handler: Handler::File, target: "assets/index.html" });
    table.push(Route { path: "/favicon", handler: Handler::File, target: "assets/favicon.png" });
    table.push(Route { path: "/main.css", handler: Handler::File, target: "assets/styles.css" });
    table.push(
        Route { path: "/project", handler: Handler::Directory, target: "assets/projects/html" },
    );
    table.push(
        Route { path: "/project/css", handler: Handler::Directory, target: "assets/projects/css" },
    );
    table.push(
        Route { path: "/project/js", handler: Handler::Directory, target: "assets/projects/js" },
    );
    table.push(
        Route { path: "/project/data", handler: Handler::Directory, target: "assets/projects/data" },
    );
    assert(views(table@) =~= route_table());
    table
}

/// No two routes are registered under the same path.
pub proof fn route_paths_differ(i: int, j: int)
    requires
        0 <= i < j < route_table().len(),
    ensures
        route_table()[i].path != route_table()[j].path,
{
    reveal_strlit("/projects");
    reveal_strlit("/rand-five-letter");
    reveal_strlit("/");
    reveal_strlit("/favicon");
    reveal_strlit("/main.css");
    reveal_strlit("/project");
    reveal_strlit("/project/css");
    reveal_strlit("/project/js");
    reveal_strlit("/project/data");
    let a = route_table()[i].path;
    let b = route_table()[j].path;
    if a.len() == b.len() {
        assert(a[1] != b[1]);
    }
}

} // verus!
