//! Which handler an HTTP request goes to.
use vstd::prelude::*;
use crate::ranking::same_text;

verus! {

/// The handlers of the query server.
#[derive(Debug, PartialEq, Eq, Structural)]
pub enum Route {
    /// `POST /api/search`: the body is the query text.
    Search,
    /// `GET /api/stats`.
    Stats,
    /// `GET /index.js`.
    Script,
    /// `GET /` and `GET /index.html`.
    Page,
    /// Anything else.
    NotFound,
}

/// The handler for a request with method `method` (`GET`, `POST`, ...) and URL `url`.
pub open spec fn route_spec(method: Seq<char>, url: Seq<char>) -> Route {
    if method == "POST"@ && url == "/api/search"@ {
        Route::Search
    } else if method == "GET"@ && url == "/api/stats"@ {
        Route::Stats
    } else if method == "GET"@ && url == "/index.js"@ {
        Route::Script
    } else if method == "GET"@ && (url == "/"@ || url == "/index.html"@) {
        Route::Page
    } else {
        Route::NotFound
    }
}

/// The handler for a request with method `method` and URL `url`.
pub fn route(method: &str, url: &str) -> (r: Route)
    ensures
        r == route_spec(method@, url@),
{
    if same_text(method, "POST") && same_text(url, "/api/search") {
        Route::Search
    } else if same_text(method, "GET") && same_text(url, "/api/stats") {
        Route::Stats
    } else if same_text(method, "GET") && same_text(url, "/index.js") {
        Route::Script
    } else if same_text(method, "GET") && (same_text(url, "/") || same_text(url, "/index.html")) {
        Route::Page
    } else {
        Route::NotFound
    }
}

} // verus!
