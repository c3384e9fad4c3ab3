//! The routes the upload server mounts, as plain values.
use vstd::prelude::*;

verus! {

#[derive(Debug, Clone, Copy, PartialEq, Eq, Structural)]
pub enum Method {
    Get,
    Post,
}

/// The request handlers of the server.
#[derive(Debug, Clone, Copy, PartialEq, Eq, Structural)]
pub enum Handler {
    /// Serves the page under `assets/` that the path names.
    Serve,
    /// Takes two uploaded archives and answers with their comparison.
    Upload,
}

pub struct RouteSpec {
    pub method: Method,
    pub path: String,
    pub handler: Handler,
}

/// The routes mounted under one base path.
pub struct MountSpec {
    pub base: String,
    pub routes: Vec<RouteSpec>,
}

/// The server's routes: pages by `GET /<path..>`, comparisons by `POST /upload`.
pub fn rocket() -> (r: MountSpec)
    ensures
        r.base@ == "/"@,
        r.routes@.len() == 2,
        r.routes@[0].method == Method::Get,
        r.routes@[0].path@ == "/<path..>"@,
        r.routes@[0].handler == Handler::Serve,
        r.routes@[1].method == Method::Post,
        r.routes@[1].path@ == "/upload"@,
        r.routes@[1].handler == Handler::Upload,
{
    let mut routes: Vec<RouteSpec> = Vec::new();
    routes.push(RouteSpec { method: Method::Get, path: "/<path..>".to_owned(), handler: Handler::Serve });
    routes.push(RouteSpec { method: Method::Post, path: "/upload".to_owned(), handler: Handler::Upload });
    MountSpec { base: "/".to_owned(), routes }
}

} // verus!
