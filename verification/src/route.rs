//! The router: which behaviour a method and a target path ask for.

use crate::text::{ascii, is_text};
use vstd::prelude::*;

verus! {

/// What the server offers.
#[derive(Clone, Copy, Debug, PartialEq, Eq, Structural)]
pub enum Resource {
    /// The static document, at `/`.
    Document,
    /// The event stream, at `/chat`.
    Stream,
}

/// What a request asks for.
#[derive(Clone, Copy, Debug, PartialEq, Eq, Structural)]
pub enum Route {
    /// `GET /`: the document.
    ServeDocument,
    /// `HEAD /`: the document's headers.
    DescribeDocument,
    /// `GET /chat`: a place among the subscribers.
    OpenStream,
    /// `HEAD /chat`: the stream's headers.
    DescribeStream,
    /// `POST /chat`: a message for the subscribers.
    Ingest,
    /// A method that the resource does not offer.
    MethodNotAllowed(Resource),
    /// A path that is none of the resources, whatever the method.
    NotFound,
}

/// The route of a method and a target. The path must match exactly.
pub open spec fn route_of(method: Seq<u8>, target: Seq<u8>) -> Route {
    if target == ascii("/"@) {
        if method == ascii("GET"@) {
            Route::ServeDocument
        } else if method == ascii("HEAD"@) {
            Route::DescribeDocument
        } else {
            Route::MethodNotAllowed(Resource::Document)
        }
    } else if target == ascii("/chat"@) {
        if method == ascii("HEAD"@) {
            Route::DescribeStream
        } else if method == ascii("GET"@) {
            Route::OpenStream
        } else if method == ascii("POST"@) {
            Route::Ingest
        } else {
            Route::MethodNotAllowed(Resource::Stream)
        }
    } else {
        Route::NotFound
    }
}

/// The methods that a resource offers, as its `Allow` header lists them.
pub open spec fn allowed_methods(resource: Resource) -> Seq<u8> {
    match resource {
        Resource::Document => ascii("GET, HEAD"@),
        Resource::Stream => ascii("GET, HEAD, POST"@),
    }
}

/// The route of a method and a target.
pub fn route(method: &[u8], target: &[u8]) -> (found: Route)
    ensures
        found == route_of(method@, target@),
{
    proof {
        reveal_strlit("/");
        reveal_strlit("/chat");
        reveal_strlit("GET");
        reveal_strlit("HEAD");
        reveal_strlit("POST");
    }
    if is_text(target, "/") {
        if is_text(method, "GET") {
            Route::ServeDocument
        } else if is_text(method, "HEAD") {
            Route::DescribeDocument
        } else {
            Route::MethodNotAllowed(Resource::Document)
        }
    } else if is_text(target, "/chat") {
        if is_text(method, "HEAD") {
            Route::DescribeStream
        } else if is_text(method, "GET") {
            Route::OpenStream
        } else if is_text(method, "POST") {
            Route::Ingest
        } else {
            Route::MethodNotAllowed(Resource::Stream)
        }
    } else {
        Route::NotFound
    }
}

/// A path other than `/` and `/chat` is not found, whatever the method.
pub proof fn lemma_unknown_path_is_not_found(method: Seq<u8>, target: Seq<u8>)
    requires
        target != ascii("/"@),
        target != ascii("/chat"@),
    ensures
        route_of(method, target) == Route::NotFound,
{
}

} // verus!
