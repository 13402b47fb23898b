//! Plain data types crossing the command boundary: HTTP and gRPC payloads
//! and the environment-variable model.

use vstd::prelude::*;
use crate::strmap::StringMap;
use crate::text::str_eq;

verus! {

pub struct SendRequestPayload {
    pub url: String,
    pub method: String,
    pub headers: Vec<(String, String)>,
    pub body: Option<String>,
    pub request_id: Option<String>,
    pub timeout_ms: Option<u64>,
    pub retry_count: Option<u32>,
    pub retry_delay_ms: Option<u64>,
    pub proxy_url: Option<String>,
    pub verify_ssl: bool,
    pub digest_username: Option<String>,
    pub digest_password: Option<String>,
    pub ntlm_username: Option<String>,
    pub ntlm_password: Option<String>,
    pub ntlm_domain: Option<String>,
}

pub struct SendResponsePayload {
    pub status: u16,
    pub status_text: String,
    pub headers: StringMap,
    pub body: String,
    pub time: u64,
    pub size: u64,
    pub content_type: String,
}

/// The error response the HTTP command layer reports for a failed send.
pub fn error_response(message: String) -> (r: SendResponsePayload)
    ensures
        r.status == 0,
        r.status_text@ == "Error"@,
        r.headers@ == Map::<Seq<char>, Seq<char>>::empty(),
        r.body@ == message@,
        r.time == 0,
        r.size == 0,
        r.content_type@ == "text/plain"@,
{
    SendResponsePayload {
        status: 0,
        status_text: "Error".to_owned(),
        headers: StringMap::new(),
        body: message,
        time: 0,
        size: 0,
        content_type: "text/plain".to_owned(),
    }
}

pub struct ProtoFieldInfo {
    pub name: String,
    pub number: u32,
    pub field_type: String,
    pub is_repeated: bool,
}

pub struct ProtoMethodInfo {
    pub name: String,
    pub full_name: String,
    pub input_type: String,
    pub output_type: String,
    pub client_streaming: bool,
    pub server_streaming: bool,
    pub input_fields: Vec<ProtoFieldInfo>,
}

pub struct ProtoServiceInfo {
    pub name: String,
    pub full_name: String,
    pub methods: Vec<ProtoMethodInfo>,
}

pub struct GrpcReflectionResponse {
    pub services: Vec<ProtoServiceInfo>,
    pub descriptor_bytes: String,
}

pub struct GrpcRequestPayload {
    pub endpoint: String,
    pub proto_content: String,
    pub service_name: String,
    pub method_name: String,
    pub request_json: String,
    pub metadata: StringMap,
    pub timeout_ms: Option<u64>,
    pub request_id: Option<String>,
    pub descriptor_bytes: Option<String>,
}

pub struct GrpcResponsePayload {
    pub status_code: i32,
    pub status_message: String,
    pub response_json: String,
    pub response_metadata: StringMap,
    pub time: u64,
    pub size: u64,
}

/// The unknown-status code of the gRPC taxonomy.
pub const GRPC_STATUS_UNKNOWN: i32 = 2;

/// The error response the gRPC command layer reports for a failed call.
pub fn grpc_error_response(message: String) -> (r: GrpcResponsePayload)
    ensures
        r.status_code == GRPC_STATUS_UNKNOWN,
        r.status_message@ == message@,
        r.response_json@.len() == 0,
        r.response_metadata@ == Map::<Seq<char>, Seq<char>>::empty(),
        r.time == 0,
        r.size == 0,
{
    GrpcResponsePayload {
        status_code: GRPC_STATUS_UNKNOWN,
        status_message: message,
        response_json: String::new(),
        response_metadata: StringMap::new(),
        time: 0,
        size: 0,
    }
}

pub struct EnvVariable {
    pub id: String,
    pub key: String,
    pub value: String,
    pub enabled: bool,
}

pub struct Environment {
    pub id: String,
    pub name: String,
    pub variables: Vec<EnvVariable>,
}

pub struct ResolveRequestPayload {
    pub url: String,
    pub method: String,
    pub headers: Vec<(String, String)>,
    pub body: Option<String>,
    pub environment_id: Option<String>,
}

pub struct ResolvedRequest {
    pub url: String,
    pub method: String,
    pub headers: Vec<(String, String)>,
    pub body: Option<String>,
}

/// The first environment with the given identifier.
pub open spec fn spec_find_env_by_id(s: Seq<Environment>, id: Seq<char>) -> Option<Environment>
    decreases s.len(),
{
    if s.len() == 0 {
        None
    } else if s[0].id@ == id {
        Some(s[0])
    } else {
        spec_find_env_by_id(s.drop_first(), id)
    }
}

/// Find the first environment with the given identifier.
pub fn find_environment<'a>(environments: &'a Vec<Environment>, id: &str) -> (r: Option<
    &'a Environment,
>)
    ensures
        match r {
            Some(env) => spec_find_env_by_id(environments@, id@) == Some(*env),
            None => spec_find_env_by_id(environments@, id@) is None,
        },
{
    let n = environments.len();
    let mut i: usize = 0;
    proof {
        assert(environments@.subrange(0, n as int) =~= environments@);
    }
    while i < n
        invariant
            0 <= i <= n,
            n == environments@.len(),
            spec_find_env_by_id(environments@, id@) == spec_find_env_by_id(
                environments@.subrange(i as int, n as int),
                id@,
            ),
        decreases n - i,
    {
        proof {
            assert(environments@.subrange(i as int, n as int)[0] == environments@[i as int]);
            assert(environments@.subrange(i as int, n as int).drop_first() =~= environments@
                .subrange(i as int + 1, n as int));
        }
        if str_eq(environments[i].id.as_str(), id) {
            return Some(&environments[i]);
        }
        i += 1;
    }
    proof {
        assert(environments@.subrange(n as int, n as int) =~= Seq::<Environment>::empty());
    }
    None
}

} // verus!
