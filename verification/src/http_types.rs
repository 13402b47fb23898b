//! HTTP methods, authentication inputs, and the client-side request and
//! response shapes.

use vstd::prelude::*;
use crate::text::str_eq;

verus! {

#[derive(Clone, Copy, PartialEq, Eq, Structural, Debug)]
pub enum HttpMethod {
    Get,
    Post,
    Put,
    Patch,
    Delete,
    Head,
    Options,
}

/// The wire name of a method.
pub open spec fn method_name(m: HttpMethod) -> Seq<char> {
    match m {
        HttpMethod::Get => "GET"@,
        HttpMethod::Post => "POST"@,
        HttpMethod::Put => "PUT"@,
        HttpMethod::Patch => "PATCH"@,
        HttpMethod::Delete => "DELETE"@,
        HttpMethod::Head => "HEAD"@,
        HttpMethod::Options => "OPTIONS"@,
    }
}

impl HttpMethod {
    /// The wire name of the method.
    pub fn label(&self) -> (r: &'static str)
        ensures
            r@ == method_name(*self),
    {
        match self {
            HttpMethod::Get => "GET",
            HttpMethod::Post => "POST",
            HttpMethod::Put => "PUT",
            HttpMethod::Patch => "PATCH",
            HttpMethod::Delete => "DELETE",
            HttpMethod::Head => "HEAD",
            HttpMethod::Options => "OPTIONS",
        }
    }
}

/// The method a stored name denotes; anything unknown reads as GET.
pub open spec fn spec_parse_method(s: Seq<char>) -> HttpMethod {
    if s == "GET"@ { HttpMethod::Get } else if s == "POST"@ { HttpMethod::Post }
    else if s == "PUT"@ { HttpMethod::Put } else if s == "PATCH"@ { HttpMethod::Patch }
    else if s == "DELETE"@ { HttpMethod::Delete } else if s == "HEAD"@ { HttpMethod::Head }
    else if s == "OPTIONS"@ { HttpMethod::Options } else { HttpMethod::Get }
}

/// See `spec_parse_method`.
pub fn parse_method(s: &str) -> (r: HttpMethod)
    ensures
        r == spec_parse_method(s@),
{
    if str_eq(s, "GET") { HttpMethod::Get } else if str_eq(s, "POST") { HttpMethod::Post }
    else if str_eq(s, "PUT") { HttpMethod::Put } else if str_eq(s, "PATCH") { HttpMethod::Patch }
    else if str_eq(s, "DELETE") { HttpMethod::Delete } else if str_eq(s, "HEAD") { HttpMethod::Head }
    else if str_eq(s, "OPTIONS") { HttpMethod::Options } else { HttpMethod::Get }
}

/// Supported authentication methods.
pub enum AuthMethod {
    None_,
    BearerToken { token: String },
    BasicAuth { username: String, password: String },
    ApiKey { key: String, value: String, location: ApiKeyLocation },
    OAuth2 {
        client_id: String,
        client_secret: String,
        auth_url: String,
        token_url: String,
        scope: String,
    },
}

/// Where to place the API key.
#[derive(Clone, Copy, PartialEq, Eq, Structural, Debug)]
pub enum ApiKeyLocation {
    Header,
    Query,
}

impl Default for AuthMethod {
    fn default() -> (r: Self)
        ensures
            r is None_,
    {
        AuthMethod::None_
    }
}

#[derive(Clone, Copy, PartialEq, Eq, Structural, Debug)]
pub enum AuthType {
    None_,
    BearerToken,
    BasicAuth,
    ApiKeyHeader,
    ApiKeyQuery,
}

impl Default for AuthType {
    fn default() -> (r: Self)
        ensures
            r is None_,
    {
        AuthType::None_
    }
}

/// The stored name of an authentication type.
pub open spec fn auth_type_name(t: AuthType) -> Seq<char> {
    match t {
        AuthType::None_ => "None"@,
        AuthType::BearerToken => "BearerToken"@,
        AuthType::BasicAuth => "BasicAuth"@,
        AuthType::ApiKeyHeader => "ApiKeyHeader"@,
        AuthType::ApiKeyQuery => "ApiKeyQuery"@,
    }
}

/// See `auth_type_name`.
pub fn auth_type_to_str(auth_type: AuthType) -> (r: &'static str)
    ensures
        r@ == auth_type_name(auth_type),
{
    match auth_type {
        AuthType::None_ => "None",
        AuthType::BearerToken => "BearerToken",
        AuthType::BasicAuth => "BasicAuth",
        AuthType::ApiKeyHeader => "ApiKeyHeader",
        AuthType::ApiKeyQuery => "ApiKeyQuery",
    }
}

/// The authentication type a stored name denotes; anything unknown reads
/// as no authentication.
pub open spec fn spec_parse_auth_type(s: Seq<char>) -> AuthType {
    if s == "BearerToken"@ { AuthType::BearerToken }
    else if s == "BasicAuth"@ { AuthType::BasicAuth }
    else if s == "ApiKeyHeader"@ { AuthType::ApiKeyHeader }
    else if s == "ApiKeyQuery"@ { AuthType::ApiKeyQuery }
    else { AuthType::None_ }
}

/// See `spec_parse_auth_type`.
pub fn parse_auth_type(s: &str) -> (r: AuthType)
    ensures
        r == spec_parse_auth_type(s@),
{
    if str_eq(s, "BearerToken") { AuthType::BearerToken }
    else if str_eq(s, "BasicAuth") { AuthType::BasicAuth }
    else if str_eq(s, "ApiKeyHeader") { AuthType::ApiKeyHeader }
    else if str_eq(s, "ApiKeyQuery") { AuthType::ApiKeyQuery }
    else { AuthType::None_ }
}

/// The authentication fields the request editor holds.
pub struct AuthInput {
    pub auth_type: AuthType,
    pub bearer_token: String,
    pub basic_username: String,
    pub basic_password: String,
    pub api_key: String,
    pub api_value: String,
}

impl Default for AuthInput {
    fn default() -> (r: Self)
        ensures
            r.auth_type is None_,
            r.bearer_token@.len() == 0 && r.basic_username@.len() == 0 && r.basic_password@.len()
                == 0 && r.api_key@.len() == 0 && r.api_value@.len() == 0,
    {
        AuthInput {
            auth_type: AuthType::None_,
            bearer_token: String::new(),
            basic_username: String::new(),
            basic_password: String::new(),
            api_key: String::new(),
            api_value: String::new(),
        }
    }
}

/// The editable parts of one request.
pub struct RequestInput {
    pub method: HttpMethod,
    pub url: String,
    pub params: String,
    pub headers: String,
    pub body: String,
    pub auth: AuthInput,
}

/// A response as the client displays it.
pub struct HttpResponse {
    pub status: String,
    pub duration_ms: u128,
    pub size_bytes: usize,
    pub headers: String,
    pub body: String,
}

} // verus!
