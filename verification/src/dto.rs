//! The HTTP API's data shapes that the core consumes, and the authorization
//! decision of the command-streaming endpoint.
use vstd::prelude::*;

verus! {

/// A user's role; only administrators may run commands on agents.
#[derive(Clone, Copy, Debug, PartialEq, Eq, Structural)]
pub enum UserRole {
    Admin,
    User,
}

/// The claims carried in a session's JWT.
pub struct Claims {
    pub sub: String,
    pub role: UserRole,
    pub exp: usize,
}

/// Only an administrator may run commands on agents.
pub fn authorize_command(claims: &Claims) -> (r: bool)
    ensures
        r == (claims.role == UserRole::Admin),
{
    claims.role == UserRole::Admin
}

pub struct ErrorResponse {
    pub error: String,
}

pub struct RegisterResponse {
    pub user_id: String,
}

pub struct LoginResponse {
    pub success: bool,
}

pub struct RegisterRequest {
    pub username: String,
    pub password: String,
}

pub struct LoginRequest {
    pub username: String,
    pub password: String,
}

/// A request to run one shell command on one agent.
pub struct CommandRequestParams {
    pub agent_id: String,
    pub command: String,
}

/// The agent-list filter: an optional country code.
pub struct AgentQuery {
    pub country: Option<String>,
}

} // verus!
