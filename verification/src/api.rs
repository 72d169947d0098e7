//! Request and response bodies of the chat backend's HTTP API.
use vstd::prelude::*;

verus! {

/// Body of a `POST /chat` request.
#[derive(Debug, Clone)]
pub struct ChatRequest {
    pub query: String,
}

/// Body of a `GET /projects` response.
#[derive(Debug, Clone)]
pub struct ProjectsResponse {
    pub projects: Vec<String>,
}

} // verus!
