//! The request template builder: resolves a benchmark spec into an
//! immutable, reusable request description.

use vstd::prelude::*;
use vstd::utf8::encode_utf8;
use crate::benchmark_types::BenchmarkSpecPayload;
use crate::sample::lower_char;
use crate::text::{chars_vec, str_eq, string_from_chars};

verus! {

/// A character allowed in an HTTP method: the HTTP token characters
/// `! # $ % & ' * + - . ^ _ \u{60} | ~`, digits and letters.
pub open spec fn valid_method_char(c: char) -> bool {
    ||| c == '!' || c == '#' || c == '$' || c == '%' || c == '&' || c == '\u{27}'
    ||| c == '*' || c == '+' || c == '-' || c == '.' || c == '^' || c == '_'
    ||| c == '\u{60}' || c == '|' || c == '~'
    ||| '0' <= c && c <= '9'
    ||| 'a' <= c && c <= 'z'
    ||| 'A' <= c && c <= 'Z'
}

/// A well-formed HTTP method: non-empty, token characters only.
pub open spec fn valid_method(s: Seq<char>) -> bool {
    s.len() > 0 && forall|i: int| 0 <= i < s.len() ==> valid_method_char(#[trigger] s[i])
}

/// A character allowed in a header name: the token characters, with
/// letters already lowercased by the builder.
pub open spec fn valid_header_name_char(c: char) -> bool {
    valid_method_char(c)
}

/// A well-formed header name: non-empty, token characters only.
pub open spec fn valid_header_name(s: Seq<char>) -> bool {
    s.len() > 0 && forall|i: int| 0 <= i < s.len() ==> valid_header_name_char(#[trigger] s[i])
}

/// A character allowed in a header value: a tab, or anything that is
/// neither an ASCII control character nor delete.
pub open spec fn valid_header_value_char(c: char) -> bool {
    c == '\t' || ((c as u32) >= 32 && (c as u32) != 127)
}

/// A well-formed header value.
pub open spec fn valid_header_value(s: Seq<char>) -> bool {
    forall|i: int| 0 <= i < s.len() ==> valid_header_value_char(#[trigger] s[i])
}

fn is_method_char(c: char) -> (r: bool)
    ensures
        r == valid_method_char(c),
{
    c == '!' || c == '#' || c == '$' || c == '%' || c == '&' || c == '\u{27}' || c == '*' || c
        == '+' || c == '-' || c == '.' || c == '^' || c == '_' || c == '\u{60}' || c == '|' || c
        == '~' || ('0' <= c && c <= '9') || ('a' <= c && c <= 'z') || ('A' <= c && c <= 'Z')
}

/// Whether `s` is a well-formed HTTP method.
pub fn check_method(s: &str) -> (r: bool)
    ensures
        r == valid_method(s@),
{
    let cs = chars_vec(s);
    let n = cs.len();
    if n == 0 {
        return false;
    }
    let mut i: usize = 0;
    while i < n
        invariant
            0 <= i <= n,
            n == cs@.len(),
            cs@ == s@,
            forall|j: int| 0 <= j < i ==> valid_method_char(#[trigger] s@[j]),
        decreases n - i,
    {
        if !is_method_char(cs[i]) {
            return false;
        }
        i += 1;
    }
    true
}

/// Whether every character of `s` may stand in a header value.
pub fn check_header_value(s: &str) -> (r: bool)
    ensures
        r == valid_header_value(s@),
{
    let cs = chars_vec(s);
    let n = cs.len();
    let mut i: usize = 0;
    while i < n
        invariant
            0 <= i <= n,
            n == cs@.len(),
            cs@ == s@,
            forall|j: int| 0 <= j < i ==> valid_header_value_char(#[trigger] s@[j]),
        decreases n - i,
    {
        let c = cs[i];
        if !(c == '\t' || ((c as u32) >= 32 && (c as u32) != 127)) {
            return false;
        }
        i += 1;
    }
    true
}

/// Lowercase a header name and check it: `Some` of the lowercased name
/// when well-formed, `None` otherwise.
pub fn normalize_header_name(s: &str) -> (r: Option<String>)
    ensures
        match r {
            Some(n) => n@ == s@.map_values(|c: char| lower_char(c)) && valid_header_name(n@)
                && s@.len() > 0,
            None => !valid_header_name(s@.map_values(|c: char| lower_char(c))),
        },
{
    let cs = chars_vec(s);
    let lowered = crate::sample::lower_chars(&cs);
    let n = lowered.len();
    if n == 0 {
        return None;
    }
    let mut i: usize = 0;
    while i < n
        invariant
            0 <= i <= n,
            n == lowered@.len(),
            lowered@ == s@.map_values(|c: char| lower_char(c)),
            forall|j: int| 0 <= j < i ==> valid_header_name_char(#[trigger] lowered@[j]),
        decreases n - i,
    {
        if !is_method_char(lowered[i]) {
            return None;
        }
        i += 1;
    }
    Some(string_from_chars(&lowered))
}

/// Derived, immutable description of the request a benchmark drives:
/// resolved method, URL, validated lowercase headers, optional body, the
/// keep-alive policy, and the estimated outbound byte count per request.
#[derive(Debug)]
pub struct RequestTemplate {
    pub method: String,
    pub url: String,
    pub headers: Vec<(String, String)>,
    pub body: Option<String>,
    pub keep_alive: bool,
    pub bytes_out: u64,
}

/// The UTF-8 byte length of a text.
pub open spec fn utf8_len(s: Seq<char>) -> int {
    encode_utf8(s).len() as int
}

/// The estimated wire size of a header set: name and value bytes plus
/// four bytes of framing per header.
pub open spec fn headers_wire_bytes(s: Seq<(Seq<char>, Seq<char>)>) -> int
    decreases s.len(),
{
    if s.len() == 0 {
        0
    } else {
        headers_wire_bytes(s.drop_last()) + utf8_len(s.last().0) + utf8_len(s.last().1) + 4
    }
}

pub proof fn lemma_headers_wire_bytes_nonneg(s: Seq<(Seq<char>, Seq<char>)>)
    ensures
        headers_wire_bytes(s) >= 0,
    decreases s.len(),
{
    if s.len() > 0 {
        lemma_headers_wire_bytes_nonneg(s.drop_last());
    }
}

/// The views of a header list.
pub open spec fn header_views(s: Seq<(String, String)>) -> Seq<(Seq<char>, Seq<char>)> {
    s.map_values(|p: (String, String)| (p.0@, p.1@))
}

/// A method whose requests carry no body.
pub open spec fn bodyless_method(m: Seq<char>) -> bool {
    m == "GET"@ || m == "HEAD"@ || m == "OPTIONS"@
}

/// Whether one snapshot header is malformed: a non-empty name that does
/// not lowercase to a token, or a value with a forbidden character.
pub open spec fn header_bad(h: (Seq<char>, Seq<char>)) -> bool {
    h.0.len() > 0 && (!valid_header_name(crate::sample::lower_seq(h.0)) || !valid_header_value(
        h.1,
    ))
}

/// Every snapshot header is either dropped (empty name) or well-formed.
pub open spec fn headers_ok(s: Seq<(Seq<char>, Seq<char>)>) -> bool {
    forall|i: int| 0 <= i < s.len() ==> !header_bad(#[trigger] s[i])
}

/// The position of the first malformed header, or -1 when all are fine.
pub open spec fn first_bad_header(s: Seq<(Seq<char>, Seq<char>)>) -> int
    decreases s.len(),
{
    if s.len() == 0 {
        -1
    } else if header_bad(s[0]) {
        0
    } else {
        let r = first_bad_header(s.drop_first());
        if r == -1 {
            -1
        } else {
            r + 1
        }
    }
}

/// `first_bad_header` points at the first malformed header, and is -1
/// exactly when every header is fine.
pub proof fn lemma_first_bad_header(s: Seq<(Seq<char>, Seq<char>)>)
    ensures
        first_bad_header(s) == -1 <==> headers_ok(s),
        first_bad_header(s) != -1 ==> 0 <= first_bad_header(s) < s.len() && header_bad(
            s[first_bad_header(s)],
        ) && (forall|k: int| 0 <= k < first_bad_header(s) ==> !header_bad(#[trigger] s[k])),
    decreases s.len(),
{
    if s.len() > 0 {
        lemma_first_bad_header(s.drop_first());
        assert(forall|k: int| 0 <= k < s.len() - 1 ==> s.drop_first()[k] == s[k + 1]);
        if !header_bad(s[0]) {
            let r = first_bad_header(s.drop_first());
            if r == -1 {
                assert forall|i: int| 0 <= i < s.len() implies !header_bad(#[trigger] s[i]) by {
                    if i > 0 {
                        assert(!header_bad(s.drop_first()[i - 1]));
                    }
                };
            } else {
                assert(first_bad_header(s) == r + 1);
                assert(s[r + 1] == s.drop_first()[r]);
                assert(header_bad(s[r + 1]));
                assert forall|k: int| 0 <= k < r + 1 implies !header_bad(#[trigger] s[k]) by {
                    if k > 0 {
                        assert(!header_bad(s.drop_first()[k - 1]));
                    }
                };
            }
        }
    }
}

/// The template's header list: the snapshot headers with empty names
/// dropped and the remaining names lowercased, in order.
pub open spec fn template_headers(s: Seq<(Seq<char>, Seq<char>)>) -> Seq<(Seq<char>, Seq<char>)>
    decreases s.len(),
{
    if s.len() == 0 {
        Seq::empty()
    } else {
        let rest = template_headers(s.drop_last());
        if s.last().0.len() == 0 {
            rest
        } else {
            rest.push((crate::sample::lower_seq(s.last().0), s.last().1))
        }
    }
}

/// Resolve a benchmark spec into a request template: the method must be a
/// well-formed token; headers with empty names are dropped, the rest have
/// their names lowercased and checked and their values checked; the body
/// is stripped for GET, HEAD and OPTIONS; the outbound estimate counts
/// header names, values, four framing bytes per header, and the body.
/// Succeeds exactly when the method and every kept header are well-formed;
/// a failure names the offending method or header.
pub fn build_request_template(spec: &BenchmarkSpecPayload) -> (r: Result<RequestTemplate, String>)
    ensures
        r is Ok <==> (valid_method(spec.target.request_snapshot.method@) && headers_ok(
            header_views(spec.target.request_snapshot.headers@),
        )),
        match r {
            Ok(t) => {
                &&& t.method@ == spec.target.request_snapshot.method@
                &&& t.url@ == spec.target.request_snapshot.url@
                &&& t.keep_alive == spec.transport.keep_alive
                &&& (bodyless_method(t.method@) ==> t.body is None)
                &&& (!bodyless_method(t.method@) ==> (match (
                    t.body,
                    spec.target.request_snapshot.body,
                ) {
                    (Some(b), Some(sb)) => b@ == sb@,
                    (None, None) => true,
                    _ => false,
                }))
                &&& header_views(t.headers@) == template_headers(
                    header_views(spec.target.request_snapshot.headers@),
                )
                &&& t.bytes_out as int == sat64_bytes(
                    headers_wire_bytes(header_views(t.headers@)) + (match t.body {
                        Some(b) => utf8_len(b@),
                        None => 0,
                    }),
                )
            },
            Err(m) => {
                let views = header_views(spec.target.request_snapshot.headers@);
                let j = first_bad_header(views);
                if !valid_method(spec.target.request_snapshot.method@) {
                    m@ == "Invalid benchmark method `"@ + spec.target.request_snapshot.method@
                        + "`"@
                } else {
                    &&& j >= 0
                    &&& (if !valid_header_name(crate::sample::lower_seq(views[j].0)) {
                        m@ == "Invalid header name `"@ + views[j].0 + "`"@
                    } else {
                        m@ == "Invalid header value for `"@ + views[j].0 + "`"@
                    })
                }
            },
        },
{
    let snapshot = &spec.target.request_snapshot;
    let ghost views = header_views(snapshot.headers@);
    if !check_method(snapshot.method.as_str()) {
        let mut m = "Invalid benchmark method `".to_owned();
        m.append(snapshot.method.as_str());
        m.append("`");
        proof {
            assert(m@ =~= "Invalid benchmark method `"@ + snapshot.method@ + "`"@);
        }
        return Err(m);
    }
    let mut headers: Vec<(String, String)> = Vec::new();
    let hn = snapshot.headers.len();
    let mut i: usize = 0;
    let mut bytes: u64 = 0;
    while i < hn
        invariant
            0 <= i <= hn,
            hn == snapshot.headers@.len(),
            *snapshot == spec.target.request_snapshot,
            views == header_views(snapshot.headers@),
            valid_method(snapshot.method@),
            forall|k: int| 0 <= k < i ==> !header_bad(#[trigger] views[k]),
            header_views(headers@) == template_headers(views.subrange(0, i as int)),
            bytes as int == sat64_bytes(headers_wire_bytes(header_views(headers@))),
        decreases hn - i,
    {
        let key = &snapshot.headers[i].0;
        proof {
            assert(views[i as int] == (snapshot.headers@[i as int].0@,
            snapshot.headers@[i as int].1@));
            assert(views.subrange(0, i as int + 1).drop_last() =~= views.subrange(0, i as int));
            assert(views.subrange(0, i as int + 1).last() == views[i as int]);
        }
        if !key.as_str().is_empty() {
            let name = match normalize_header_name(key.as_str()) {
                Some(n) => n,
                None => {
                    proof {
                        assert(header_bad(views[i as int]));
                        lemma_first_bad_header(views);
                        assert(first_bad_header(views) == i as int) by {
                            if first_bad_header(views) == -1 {
                                assert(!header_bad(views[i as int]));
                            }
                        };
                    }
                    proof {
                        assert(!headers_ok(views)) by {
                            assert(header_bad(views[i as int]));
                        };
                    }
                    let mut m = "Invalid header name `".to_owned();
                    m.append(key.as_str());
                    m.append("`");
                    proof {
                        assert(m@ =~= "Invalid header name `"@ + views[i as int].0 + "`"@);
                    }
                    return Err(m);
                },
            };
            if !check_header_value(snapshot.headers[i].1.as_str()) {
                proof {
                    assert(header_bad(views[i as int]));
                    lemma_first_bad_header(views);
                    assert(first_bad_header(views) == i as int) by {
                        if first_bad_header(views) == -1 {
                            assert(!header_bad(views[i as int]));
                        }
                    };
                    assert(valid_header_name(crate::sample::lower_seq(views[i as int].0)));
                }
                proof {
                    assert(!headers_ok(views)) by {
                        assert(header_bad(views[i as int]));
                    };
                }
                let mut m = "Invalid header value for `".to_owned();
                m.append(key.as_str());
                m.append("`");
                proof {
                    assert(m@ =~= "Invalid header value for `"@ + views[i as int].0 + "`"@);
                }
                return Err(m);
            }
            let value = snapshot.headers[i].1.clone();
            let ghost oldh = headers@;
            let ghost nview = name@;
            let ghost vview = value@;
            let nb = name.as_str().as_bytes().len() as u64;
            let vb = value.as_str().as_bytes().len() as u64;
            proof {
                lemma_headers_wire_bytes_nonneg(header_views(oldh));
                assert(nb as int == utf8_len(nview));
                assert(vb as int == utf8_len(vview));
                assert(!header_bad(views[i as int]));
            }
            bytes = bytes.saturating_add(nb).saturating_add(vb).saturating_add(4);
            headers.push((name, value));
            proof {
                assert(header_views(headers@).drop_last() =~= header_views(oldh));
                assert(header_views(headers@).last() == (nview, vview));
                assert(headers_wire_bytes(header_views(headers@)) == headers_wire_bytes(
                    header_views(oldh),
                ) + utf8_len(nview) + utf8_len(vview) + 4);
                assert(nview == crate::sample::lower_seq(views[i as int].0));
                assert(vview == views[i as int].1);
                assert(header_views(headers@) =~= template_headers(
                    views.subrange(0, i as int + 1),
                ));
            }
        } else {
            proof {
                assert(views[i as int].0.len() == 0);
                assert(!header_bad(views[i as int]));
                assert(header_views(headers@) =~= template_headers(
                    views.subrange(0, i as int + 1),
                ));
            }
        }
        i += 1;
    }
    proof {
        assert(views.subrange(0, hn as int) =~= views);
        assert(headers_ok(views));
    }
    let body = if check_bodyless(snapshot.method.as_str()) {
        None
    } else {
        match &snapshot.body {
            Some(b) => Some(b.clone()),
            None => None,
        }
    };
    let body_bytes: u64 = match &body {
        Some(b) => b.as_str().as_bytes().len() as u64,
        None => 0,
    };
    proof {
        lemma_headers_wire_bytes_nonneg(header_views(headers@));
    }
    let bytes_out = bytes.saturating_add(body_bytes);
    Ok(
        RequestTemplate {
            method: snapshot.method.clone(),
            url: snapshot.url.clone(),
            headers,
            body,
            keep_alive: spec.transport.keep_alive,
            bytes_out,
        },
    )
}

/// A nonnegative byte count, saturated at the largest `u64`.
pub open spec fn sat64_bytes(v: int) -> int {
    if v > u64::MAX {
        u64::MAX as int
    } else {
        v
    }
}

/// Whether the method is one whose requests carry no body.
pub fn check_bodyless(m: &str) -> (r: bool)
    ensures
        r == bodyless_method(m@),
{
    str_eq(m, "GET") || str_eq(m, "HEAD") || str_eq(m, "OPTIONS")
}

} // verus!
