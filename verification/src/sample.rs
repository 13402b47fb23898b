//! The sample classifier: turns the plain facts of one request attempt
//! (status, elapsed time, transport failure details, cancellation) into a
//! typed `SampleResult` with an error-taxonomy tag.

use vstd::prelude::*;
use vstd::string::*;
use crate::benchmark_types::{BenchmarkErrorType, BenchmarkSaveBodies, SampleResult};
use crate::text::{chars_vec, string_from_chars};

verus! {

/// Captured error bodies are truncated to this many bytes.
pub const MAX_ERROR_BODY_BYTES: usize = 8192;

/// The wire name of an error type.
pub open spec fn etype_name(e: BenchmarkErrorType) -> Seq<char> {
    match e {
        BenchmarkErrorType::DnsError => "DNS_ERROR"@,
        BenchmarkErrorType::ConnectError => "CONNECT_ERROR"@,
        BenchmarkErrorType::TlsError => "TLS_ERROR"@,
        BenchmarkErrorType::Timeout => "TIMEOUT"@,
        BenchmarkErrorType::ReadError => "READ_ERROR"@,
        BenchmarkErrorType::HttpStatus4xx => "HTTP_STATUS_4XX"@,
        BenchmarkErrorType::HttpStatus5xx => "HTTP_STATUS_5XX"@,
        BenchmarkErrorType::Canceled => "CANCELED"@,
    }
}

/// The wire name of an error type.
pub fn error_type_name(value: BenchmarkErrorType) -> (r: &'static str)
    ensures
        r@ == etype_name(value),
{
    match value {
        BenchmarkErrorType::DnsError => "DNS_ERROR",
        BenchmarkErrorType::ConnectError => "CONNECT_ERROR",
        BenchmarkErrorType::TlsError => "TLS_ERROR",
        BenchmarkErrorType::Timeout => "TIMEOUT",
        BenchmarkErrorType::ReadError => "READ_ERROR",
        BenchmarkErrorType::HttpStatus4xx => "HTTP_STATUS_4XX",
        BenchmarkErrorType::HttpStatus5xx => "HTTP_STATUS_5XX",
        BenchmarkErrorType::Canceled => "CANCELED",
    }
}

/// The position of an error type when the wire names are put in ascending
/// (alphabetical) order: CANCELED, CONNECT_ERROR, DNS_ERROR,
/// HTTP_STATUS_4XX, HTTP_STATUS_5XX, READ_ERROR, TIMEOUT, TLS_ERROR.
pub open spec fn etype_rank(e: BenchmarkErrorType) -> int {
    match e {
        BenchmarkErrorType::Canceled => 0,
        BenchmarkErrorType::ConnectError => 1,
        BenchmarkErrorType::DnsError => 2,
        BenchmarkErrorType::HttpStatus4xx => 3,
        BenchmarkErrorType::HttpStatus5xx => 4,
        BenchmarkErrorType::ReadError => 5,
        BenchmarkErrorType::Timeout => 6,
        BenchmarkErrorType::TlsError => 7,
    }
}

/// See `etype_rank`.
pub fn error_type_rank(e: BenchmarkErrorType) -> (r: u8)
    ensures
        r as int == etype_rank(e),
{
    match e {
        BenchmarkErrorType::Canceled => 0,
        BenchmarkErrorType::ConnectError => 1,
        BenchmarkErrorType::DnsError => 2,
        BenchmarkErrorType::HttpStatus4xx => 3,
        BenchmarkErrorType::HttpStatus5xx => 4,
        BenchmarkErrorType::ReadError => 5,
        BenchmarkErrorType::Timeout => 6,
        BenchmarkErrorType::TlsError => 7,
    }
}

/// Lexicographic order on character sequences, by code point.
pub open spec fn lex_le(a: Seq<char>, b: Seq<char>) -> bool
    decreases a.len(),
{
    if a.len() == 0 {
        true
    } else if b.len() == 0 {
        false
    } else if (a[0] as u32) < (b[0] as u32) {
        true
    } else if (a[0] as u32) > (b[0] as u32) {
        false
    } else {
        lex_le(a.drop_first(), b.drop_first())
    }
}

pub proof fn lemma_lex_le_refl(a: Seq<char>)
    ensures
        lex_le(a, a),
    decreases a.len(),
{
    if a.len() > 0 {
        lemma_lex_le_refl(a.drop_first());
    }
}

pub proof fn lemma_lex_le_trans(a: Seq<char>, b: Seq<char>, c: Seq<char>)
    requires
        lex_le(a, b),
        lex_le(b, c),
    ensures
        lex_le(a, c),
    decreases a.len(),
{
    if a.len() == 0 {
    } else if b.len() == 0 {
        assert(!lex_le(a, b));
    } else if c.len() == 0 {
        assert(!lex_le(b, c));
    } else {
        let a0 = a[0] as u32;
        let b0 = b[0] as u32;
        let c0 = c[0] as u32;
        if a0 < b0 {
            assert(b0 <= c0);
        } else {
            assert(a0 == b0);
            if b0 == c0 {
                lemma_lex_le_trans(a.drop_first(), b.drop_first(), c.drop_first());
            }
        }
    }
}

/// The rank order of the error types agrees with the lexicographic order
/// of their wire names.
pub proof fn lemma_rank_orders_names(e1: BenchmarkErrorType, e2: BenchmarkErrorType)
    requires
        etype_rank(e1) <= etype_rank(e2),
    ensures
        lex_le(etype_name(e1), etype_name(e2)),
{
    reveal_strlit("CANCELED");
    reveal_strlit("CONNECT_ERROR");
    reveal_strlit("DNS_ERROR");
    reveal_strlit("HTTP_STATUS_4XX");
    reveal_strlit("HTTP_STATUS_5XX");
    reveal_strlit("READ_ERROR");
    reveal_strlit("TIMEOUT");
    reveal_strlit("TLS_ERROR");
    reveal_with_fuel(lex_le, 16);
    if etype_rank(e1) == etype_rank(e2) {
        lemma_lex_le_refl(etype_name(e1));
    } else {
        assert(lex_le("CANCELED"@, "CONNECT_ERROR"@));
        assert(lex_le("CONNECT_ERROR"@, "DNS_ERROR"@));
        assert(lex_le("DNS_ERROR"@, "HTTP_STATUS_4XX"@));
        assert(lex_le("HTTP_STATUS_4XX"@, "HTTP_STATUS_5XX"@));
        assert(lex_le("HTTP_STATUS_5XX"@, "READ_ERROR"@));
        assert(lex_le("READ_ERROR"@, "TIMEOUT"@));
        assert(lex_le("TIMEOUT"@, "TLS_ERROR"@));
        let n0 = "CANCELED"@;
        let n1 = "CONNECT_ERROR"@;
        let n2 = "DNS_ERROR"@;
        let n3 = "HTTP_STATUS_4XX"@;
        let n4 = "HTTP_STATUS_5XX"@;
        let n5 = "READ_ERROR"@;
        let n6 = "TIMEOUT"@;
        let n7 = "TLS_ERROR"@;
        lemma_lex_le_trans(n0, n1, n2);
        lemma_lex_le_trans(n0, n2, n3);
        lemma_lex_le_trans(n0, n3, n4);
        lemma_lex_le_trans(n0, n4, n5);
        lemma_lex_le_trans(n0, n5, n6);
        lemma_lex_le_trans(n0, n6, n7);
        lemma_lex_le_trans(n1, n2, n3);
        lemma_lex_le_trans(n1, n3, n4);
        lemma_lex_le_trans(n1, n4, n5);
        lemma_lex_le_trans(n1, n5, n6);
        lemma_lex_le_trans(n1, n6, n7);
        lemma_lex_le_trans(n2, n3, n4);
        lemma_lex_le_trans(n2, n4, n5);
        lemma_lex_le_trans(n2, n5, n6);
        lemma_lex_le_trans(n2, n6, n7);
        lemma_lex_le_trans(n3, n4, n5);
        lemma_lex_le_trans(n3, n5, n6);
        lemma_lex_le_trans(n3, n6, n7);
        lemma_lex_le_trans(n4, n5, n6);
        lemma_lex_le_trans(n4, n6, n7);
        lemma_lex_le_trans(n5, n6, n7);
    }
}

/// `needle` occurs somewhere in `hay`.
pub open spec fn contains_seq(hay: Seq<char>, needle: Seq<char>) -> bool {
    exists|i: int|
        0 <= i && i + needle.len() <= hay.len() && #[trigger] hay.subrange(i, i + needle.len())
            == needle
}

/// Whether `needle` occurs in `hay`, by characters.
pub fn contains_chars(hay: &Vec<char>, needle: &Vec<char>) -> (r: bool)
    ensures
        r == contains_seq(hay@, needle@),
{
    let hn = hay.len();
    let nn = needle.len();
    if nn > hn {
        proof {
            assert(!contains_seq(hay@, needle@));
        }
        return false;
    }
    let mut i: usize = 0;
    while i <= hn - nn
        invariant
            0 <= i <= hn - nn + 1,
            nn <= hn,
            hn == hay@.len(),
            nn == needle@.len(),
            forall|k: int|
                0 <= k < i ==> #[trigger] hay@.subrange(k, k + needle@.len()) != needle@,
        decreases hn - nn - i + 1,
    {
        let mut j: usize = 0;
        let mut matched = true;
        while j < nn && matched
            invariant
                0 <= j <= nn,
                0 <= i <= hn - nn,
                hn == hay@.len(),
                nn == needle@.len(),
                matched ==> forall|k: int| 0 <= k < j ==> hay@[i + k] == needle@[k],
                !matched ==> exists|k: int| 0 <= k < nn && #[trigger] hay@[i + k] != needle@[k],
            decreases nn - j + (if matched { 1int } else { 0int }),
        {
            if hay[i + j] != needle[j] {
                matched = false;
                proof {
                    assert(hay@[i + j as int] != needle@[j as int]);
                }
            } else {
                j += 1;
            }
        }
        if matched {
            proof {
                assert(hay@.subrange(i as int, i + needle@.len()) =~= needle@);
            }
            return true;
        }
        proof {
            if hay@.subrange(i as int, i + needle@.len()) == needle@ {
                let k = choose|k: int| 0 <= k < nn && #[trigger] hay@[i + k] != needle@[k];
                assert(hay@.subrange(i as int, i + needle@.len())[k] == hay@[i + k]);
                assert(false);
            }
        }
        i += 1;
    }
    proof {
        assert(forall|k: int|
            0 <= k && k + needle@.len() <= hay@.len() ==> #[trigger] hay@.subrange(
                k,
                k + needle@.len(),
            ) != needle@);
    }
    false
}

/// ASCII lowercasing of one character; everything else is unchanged.
pub open spec fn lower_char(c: char) -> char {
    if c == 'A' { 'a' } else if c == 'B' { 'b' } else if c == 'C' { 'c' }
    else if c == 'D' { 'd' } else if c == 'E' { 'e' } else if c == 'F' { 'f' }
    else if c == 'G' { 'g' } else if c == 'H' { 'h' } else if c == 'I' { 'i' }
    else if c == 'J' { 'j' } else if c == 'K' { 'k' } else if c == 'L' { 'l' }
    else if c == 'M' { 'm' } else if c == 'N' { 'n' } else if c == 'O' { 'o' }
    else if c == 'P' { 'p' } else if c == 'Q' { 'q' } else if c == 'R' { 'r' }
    else if c == 'S' { 's' } else if c == 'T' { 't' } else if c == 'U' { 'u' }
    else if c == 'V' { 'v' } else if c == 'W' { 'w' } else if c == 'X' { 'x' }
    else if c == 'Y' { 'y' } else if c == 'Z' { 'z' } else { c }
}

/// ASCII lowercasing of a character sequence.
pub open spec fn lower_seq(s: Seq<char>) -> Seq<char> {
    s.map_values(|c: char| lower_char(c))
}

/// ASCII lowercasing, character by character.
pub fn lower_chars(s: &Vec<char>) -> (r: Vec<char>)
    ensures
        r@ == lower_seq(s@),
{
    let n = s.len();
    let mut v: Vec<char> = Vec::new();
    let mut i: usize = 0;
    while i < n
        invariant
            0 <= i <= n,
            n == s@.len(),
            v@.len() == i,
            forall|j: int| 0 <= j < i ==> v@[j] == lower_char(s@[j]),
        decreases n - i,
    {
        let c = s[i];
        let lc = match c {
            'A' => 'a', 'B' => 'b', 'C' => 'c', 'D' => 'd', 'E' => 'e', 'F' => 'f',
            'G' => 'g', 'H' => 'h', 'I' => 'i', 'J' => 'j', 'K' => 'k', 'L' => 'l',
            'M' => 'm', 'N' => 'n', 'O' => 'o', 'P' => 'p', 'Q' => 'q', 'R' => 'r',
            'S' => 's', 'T' => 't', 'U' => 'u', 'V' => 'v', 'W' => 'w', 'X' => 'x',
            'Y' => 'y', 'Z' => 'z', _ => c,
        };
        v.push(lc);
        i += 1;
    }
    proof {
        assert(v@ =~= lower_seq(s@));
    }
    v
}

/// The decimal digits of `n`, most significant first.
pub open spec fn dec_of(n: int) -> Seq<char>
    decreases n,
{
    if n < 10 {
        seq![digit_char(n)]
    } else {
        dec_of(n / 10).push(digit_char(n % 10))
    }
}

/// The character for one decimal digit.
pub open spec fn digit_char(d: int) -> char {
    if d == 0 { '0' } else if d == 1 { '1' } else if d == 2 { '2' }
    else if d == 3 { '3' } else if d == 4 { '4' } else if d == 5 { '5' }
    else if d == 6 { '6' } else if d == 7 { '7' } else if d == 8 { '8' }
    else { '9' }
}

fn digit_char_of(d: u64) -> (r: char)
    requires
        d < 10,
    ensures
        r == digit_char(d as int),
{
    match d {
        0 => '0', 1 => '1', 2 => '2', 3 => '3', 4 => '4',
        5 => '5', 6 => '6', 7 => '7', 8 => '8', _ => '9',
    }
}

/// The decimal digits of `n`, as characters.
pub fn u64_dec_chars(n: u64) -> (r: Vec<char>)
    ensures
        r@ == dec_of(n as int),
    decreases n,
{
    if n < 10 {
        let mut v: Vec<char> = Vec::new();
        v.push(digit_char_of(n));
        proof {
            assert(v@ =~= seq![digit_char(n as int)]);
        }
        v
    } else {
        let mut v = u64_dec_chars(n / 10);
        v.push(digit_char_of(n % 10));
        v
    }
}

/// `n` written in decimal.
pub fn u64_to_dec_string(n: u64) -> (r: String)
    ensures
        r@ == dec_of(n as int),
{
    let v = u64_dec_chars(n);
    string_from_chars(&v)
}

/// What the response of a lossy UTF-8 decoding is; depends on the bytes
/// alone.
pub uninterp spec fn lossy_utf8_of(bytes: Seq<u8>) -> Seq<char>;

/// Relies on `String::from_utf8_lossy`: the decoded text is a function of
/// the bytes alone (invalid sequences become replacement characters).
#[verifier::external_body]
fn utf8_lossy(bytes: &[u8]) -> (r: String)
    ensures
        r@ == lossy_utf8_of(bytes@),
{
    String::from_utf8_lossy(bytes).to_string()
}

/// The error class of a transport-level failure, judged from the plain
/// facts of the failure: the client's timeout and connect flags and its
/// error message. Timeouts win; then DNS and TLS failures recognized from
/// the lowercased message; then connection failures; anything else is a
/// read error.
pub open spec fn spec_classify_transport_failure(
    is_timeout: bool,
    is_connect: bool,
    message: Seq<char>,
) -> BenchmarkErrorType {
    let m = lower_seq(message);
    if is_timeout {
        BenchmarkErrorType::Timeout
    } else if contains_seq(m, "dns"@) || contains_seq(m, "failed to lookup address"@) {
        BenchmarkErrorType::DnsError
    } else if contains_seq(m, "tls"@) || contains_seq(m, "ssl"@) || contains_seq(m, "certificate"@) {
        BenchmarkErrorType::TlsError
    } else if is_connect {
        BenchmarkErrorType::ConnectError
    } else {
        BenchmarkErrorType::ReadError
    }
}

/// See `spec_classify_transport_failure`.
pub fn classify_transport_failure(is_timeout: bool, is_connect: bool, message: &str) -> (r:
    BenchmarkErrorType)
    ensures
        r == spec_classify_transport_failure(is_timeout, is_connect, message@),
{
    if is_timeout {
        return BenchmarkErrorType::Timeout;
    }
    let mc = chars_vec(message);
    let m = lower_chars(&mc);
    let dns = chars_vec("dns");
    let lookup = chars_vec("failed to lookup address");
    if contains_chars(&m, &dns) || contains_chars(&m, &lookup) {
        return BenchmarkErrorType::DnsError;
    }
    let tls = chars_vec("tls");
    let ssl = chars_vec("ssl");
    let cert = chars_vec("certificate");
    if contains_chars(&m, &tls) || contains_chars(&m, &ssl) || contains_chars(&m, &cert) {
        return BenchmarkErrorType::TlsError;
    }
    if is_connect {
        return BenchmarkErrorType::ConnectError;
    }
    BenchmarkErrorType::ReadError
}

/// The error class of an HTTP status: none below 400, the 4xx class in
/// [400, 500), the 5xx class from 500 up.
pub open spec fn spec_status_error(status: u16) -> Option<BenchmarkErrorType> {
    if 400 <= status && status < 500 {
        Some(BenchmarkErrorType::HttpStatus4xx)
    } else if status >= 500 {
        Some(BenchmarkErrorType::HttpStatus5xx)
    } else {
        None
    }
}

/// See `spec_status_error`.
pub fn classify_status(status: u16) -> (r: Option<BenchmarkErrorType>)
    ensures
        r == spec_status_error(status),
{
    if 400 <= status && status < 500 {
        Some(BenchmarkErrorType::HttpStatus4xx)
    } else if status >= 500 {
        Some(BenchmarkErrorType::HttpStatus5xx)
    } else {
        None
    }
}

/// The sample for an attempt interrupted by cancellation, before a
/// response or while reading the body. `status_code` and `bytes_in` carry
/// what had been received by then.
pub fn cancelled_sample(
    timestamp_ms: u64,
    latency_us: u64,
    status_code: Option<u16>,
    bytes_in: u64,
    bytes_out: u64,
) -> (r: SampleResult)
    ensures
        r.timestamp_ms == timestamp_ms,
        r.latency_us == latency_us,
        r.status_code == status_code,
        !r.success,
        r.error_type == Some(BenchmarkErrorType::Canceled),
        r.error_message matches Some(m) && m@ == "Benchmark cancelled"@,
        r.bytes_in == bytes_in,
        r.bytes_out == bytes_out,
        r.sample_body is None,
        r.cancelled,
{
    SampleResult {
        timestamp_ms,
        latency_us,
        status_code,
        success: false,
        error_type: Some(BenchmarkErrorType::Canceled),
        error_message: Some("Benchmark cancelled".to_owned()),
        bytes_in,
        bytes_out,
        sample_body: None,
        cancelled: true,
    }
}

/// The sample for a transport-level failure (no response was obtained).
pub fn transport_failure_sample(
    timestamp_ms: u64,
    latency_us: u64,
    is_timeout: bool,
    is_connect: bool,
    message: String,
    bytes_out: u64,
) -> (r: SampleResult)
    ensures
        r.timestamp_ms == timestamp_ms,
        r.latency_us == latency_us,
        r.status_code is None,
        !r.success,
        r.error_type == Some(
            spec_classify_transport_failure(is_timeout, is_connect, message@),
        ),
        r.error_message matches Some(m) && m@ == message@,
        r.bytes_in == 0,
        r.bytes_out == bytes_out,
        r.sample_body is None,
        !r.cancelled,
{
    let error_type = classify_transport_failure(is_timeout, is_connect, message.as_str());
    SampleResult {
        timestamp_ms,
        latency_us,
        status_code: None,
        success: false,
        error_type: Some(error_type),
        error_message: Some(message),
        bytes_in: 0,
        bytes_out,
        sample_body: None,
        cancelled: false,
    }
}

/// The sample for a response that was fully read. A status below 400 is a
/// success; 4xx and 5xx are errors with the synthetic message
/// `HTTP <code>`. Bytes in are the estimated header bytes plus the body
/// length. When body saving asks for error bodies, the body of an HTTP
/// error is kept, truncated to `MAX_ERROR_BODY_BYTES` and decoded
/// lossily.
pub fn response_sample(
    timestamp_ms: u64,
    latency_us: u64,
    status: u16,
    response_headers_bytes: u64,
    body: &Vec<u8>,
    save_bodies: BenchmarkSaveBodies,
    bytes_out: u64,
) -> (r: SampleResult)
    ensures
        r.timestamp_ms == timestamp_ms,
        r.latency_us == latency_us,
        r.status_code == Some(status),
        r.success == (status < 400),
        r.error_type == spec_status_error(status),
        status < 400 ==> r.error_message is None,
        status >= 400 ==> (r.error_message matches Some(m) && m@ == "HTTP "@ + dec_of(
            status as int,
        )),
        r.bytes_in == (if response_headers_bytes + body@.len() > u64::MAX {
            u64::MAX as int
        } else {
            response_headers_bytes + body@.len()
        }),
        r.bytes_out == bytes_out,
        (status >= 400 && save_bodies == BenchmarkSaveBodies::Errors) ==> (
        r.sample_body matches Some(b) && b@ == lossy_utf8_of(
            body@.subrange(
                0,
                if body@.len() < MAX_ERROR_BODY_BYTES as int {
                    body@.len() as int
                } else {
                    MAX_ERROR_BODY_BYTES as int
                },
            ),
        )),
        (status < 400 || save_bodies == BenchmarkSaveBodies::Disabled) ==> r.sample_body is None,
        !r.cancelled,
{
    let error_type = classify_status(status);
    let error_message = if status >= 400 {
        let mut m = "HTTP ".to_owned();
        m.append(u64_to_dec_string(status as u64).as_str());
        Some(m)
    } else {
        None
    };
    let sample_body = if status >= 400 && matches!(save_bodies, BenchmarkSaveBodies::Errors) {
        let cap = if body.len() < MAX_ERROR_BODY_BYTES {
            body.len()
        } else {
            MAX_ERROR_BODY_BYTES
        };
        Some(utf8_lossy(&body.as_slice()[0..cap]))
    } else {
        None
    };
    let body_len: u64 = body.len() as u64;
    SampleResult {
        timestamp_ms,
        latency_us,
        status_code: Some(status),
        success: status < 400,
        error_type,
        error_message,
        bytes_in: response_headers_bytes.saturating_add(body_len),
        bytes_out,
        sample_body,
        cancelled: false,
    }
}

/// The sample for a response whose body could not be read after a status
/// line was received.
pub fn read_error_sample(
    timestamp_ms: u64,
    latency_us: u64,
    status: u16,
    response_headers_bytes: u64,
    message: String,
    bytes_out: u64,
) -> (r: SampleResult)
    ensures
        r.timestamp_ms == timestamp_ms,
        r.latency_us == latency_us,
        r.status_code == Some(status),
        !r.success,
        r.error_type == Some(BenchmarkErrorType::ReadError),
        r.error_message matches Some(m) && m@ == message@,
        r.bytes_in == response_headers_bytes,
        r.bytes_out == bytes_out,
        r.sample_body is None,
        !r.cancelled,
{
    SampleResult {
        timestamp_ms,
        latency_us,
        status_code: Some(status),
        success: false,
        error_type: Some(BenchmarkErrorType::ReadError),
        error_message: Some(message),
        bytes_in: response_headers_bytes,
        bytes_out,
        sample_body: None,
        cancelled: false,
    }
}

} // verus!
