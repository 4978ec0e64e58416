//! The answers of the health endpoint.
use crate::health;
use crate::health::{HealthState, HealthView};
use crate::text;
use crate::text::{push_decimal, same_text, split_lines, split_words};
use vstd::prelude::*;

verus! {

/// The text that bytes decode to, with a replacement character in place of
/// what is not UTF-8.
pub uninterp spec fn lossy_text(bytes: Seq<u8>) -> Seq<char>;

/// Calls `String::from_utf8_lossy`. Bytes that are UTF-8 are decoded; of other
/// bytes nothing is said but that the same bytes give the same text.
#[verifier::external_body]
fn decode_lossy(bytes: &[u8]) -> (r: String)
    ensures
        r@ == lossy_text(bytes@),
        vstd::utf8::valid_utf8(bytes@) ==> r@ == vstd::utf8::decode_utf8(bytes@),
{
    String::from_utf8_lossy(bytes).into_owned()
}

/// The path that a request asks for: the second word of its first line, and
/// nothing where there is none.
pub open spec fn requested_path(request: Seq<char>) -> Seq<char> {
    let lines = text::lines(request);
    if lines.len() > 0 && text::words(lines[0]).len() > 1 {
        text::words(lines[0])[1]
    } else {
        Seq::empty()
    }
}

/// The status line and the body for a path. Liveness is given only where
/// nothing is wrong: an agent that is degraded does not have it.
pub open spec fn answer(h: HealthView, path: Seq<char>) -> (Seq<char>, Seq<char>) {
    if path == "/healthz"@ {
        if h.issues().len() == 0 {
            ("200 OK"@, h.message())
        } else {
            ("503 Service Unavailable"@, h.message())
        }
    } else if path == "/readyz"@ {
        if h.ready() {
            ("200 OK"@, "ready"@)
        } else {
            ("503 Service Unavailable"@, "not ready: probes not attached"@)
        }
    } else {
        ("404 Not Found"@, "not found"@)
    }
}

/// The response that carries a status and a body. Its length is counted in
/// bytes.
pub open spec fn response_text(status: Seq<char>, body: Seq<char>) -> Seq<char> {
    "HTTP/1.1 "@ + status + "\r\nContent-Type: text/plain\r\nContent-Length: "@ + text::decimal(
        vstd::utf8::encode_utf8(body).len(),
    ) + "\r\nConnection: close\r\n\r\n"@ + body
}

/// The response to a request.
pub open spec fn response_to(h: HealthView, request: Seq<char>) -> Seq<char> {
    let a = answer(h, requested_path(request));
    response_text(a.0, a.1)
}

/// The path that a request asks for.
fn path_of(request: &str) -> (r: String)
    ensures
        r@ == requested_path(request@),
{
    let lines: Vec<String> = split_lines(request);
    if lines.len() > 0 {
        assert(text::texts(lines@)[0] == lines@[0]@);
        let words: Vec<String> = split_words(lines[0].as_str());
        if words.len() > 1 {
            assert(text::texts(words@)[1] == words@[1]@);
            return words[1].clone();
        }
    }
    String::new()
}

/// Answers a request that was received as bytes.
pub fn respond(health: &HealthState, request: &[u8]) -> (r: String)
    ensures
        r@ == response_to(health@, lossy_text(request@)),
        vstd::utf8::valid_utf8(request@) ==> r@ == response_to(
            health@,
            vstd::utf8::decode_utf8(request@),
        ),
{
    let request_text: String = decode_lossy(request);
    respond_to_text(health, request_text.as_str())
}

/// Answers a request.
pub fn respond_to_text(health: &HealthState, request: &str) -> (r: String)
    ensures
        r@ == response_to(health@, request@),
{
    let path: String = path_of(request);
    let (status, body): (&str, String) = if same_text(path.as_str(), "/healthz") {
        if health.has_issues() {
            ("503 Service Unavailable", health.health_message())
        } else {
            ("200 OK", health.health_message())
        }
    } else if same_text(path.as_str(), "/readyz") {
        if health.is_ready() {
            ("200 OK", "ready".to_owned())
        } else {
            ("503 Service Unavailable", "not ready: probes not attached".to_owned())
        }
    } else {
        ("404 Not Found", "not found".to_owned())
    };
    let mut r: String = "HTTP/1.1 ".to_owned();
    r.append(status);
    r.append("\r\nContent-Type: text/plain\r\nContent-Length: ");
    push_decimal(&mut r, body.as_str().as_bytes().len() as u128);
    r.append("\r\nConnection: close\r\n\r\n");
    r.append(body.as_str());
    assert(r@ =~= response_to(health@, request@));
    r
}

/// The two probes answer 200 exactly for an agent without issues, whose report
/// is `OK`, and for one that is ready, and 503 otherwise; no other path is
/// found.
pub proof fn law_probes_tell_the_condition(h: HealthView, path: Seq<char>)
    ensures
        answer(h, "/healthz"@).0 == "200 OK"@ <==> h.issues().len() == 0,
        answer(h, "/healthz"@).0 == "200 OK"@ <==> text::starts_with(h.message(), "OK"@),
        answer(h, "/healthz"@).0 == "503 Service Unavailable"@ <==> h.issues().len() > 0,
        answer(h, "/healthz"@).0 == "200 OK"@ ==> h.healthy(),
        answer(h, "/healthz"@).1 == h.message(),
        answer(h, "/readyz"@).0 == "200 OK"@ <==> h.ready(),
        answer(h, "/readyz"@).0 == "503 Service Unavailable"@ <==> !h.ready(),
        path != "/healthz"@ && path != "/readyz"@ <==> answer(h, path).0 == "404 Not Found"@,
{
    health::law_message_tells_severity(h);
    reveal_strlit("/healthz");
    reveal_strlit("/readyz");
    reveal_strlit("200 OK");
    reveal_strlit("404 Not Found");
    reveal_strlit("503 Service Unavailable");
    assert("/healthz"@[1] == 'h');
    assert("/readyz"@[1] == 'r');
    assert("200 OK"@[0] == '2');
    assert("404 Not Found"@[0] == '4');
    assert("503 Service Unavailable"@[0] == '5');
}

/// The path of a request is its second word: it stands between two spaces in
/// the first line, whatever follows. A first line of one word has none.
pub proof fn law_path_is_the_second_word(
    method: Seq<char>,
    path: Seq<char>,
    version: Seq<char>,
    more: Seq<char>,
)
    requires
        method.len() > 0,
        path.len() > 0,
        forall|i: int| 0 <= i < method.len() ==> !text::is_space(#[trigger] method[i]),
        forall|i: int| 0 <= i < path.len() ==> !text::is_space(#[trigger] path[i]),
        forall|i: int|
            0 <= i < version.len() ==> #[trigger] version[i] != '\n' && version[i] != '\r',
    ensures
        requested_path(method + seq![' '] + path + seq![' '] + version + seq!['\r', '\n'] + more)
            == path,
        requested_path(method + seq![' '] + path + seq![' '] + version + seq!['\n'] + more) == path,
        requested_path(method + seq![' '] + path + seq![' '] + version) == path,
        requested_path(method) == Seq::<char>::empty(),
        requested_path(method + seq!['\r', '\n'] + more) == Seq::<char>::empty(),
        requested_path(Seq::<char>::empty()) == Seq::<char>::empty(),
{
    let line = method + seq![' '] + path + seq![' '] + version;
    let rest = path + seq![' '] + version;
    assert(line =~= method + seq![' '] + rest);
    text::law_words_stand_between_white_space(' ', method, rest);
    text::law_words_stand_between_white_space(' ', path, version);
    assert(text::words(line) =~= seq![method] + (seq![path] + text::words(version)));
    assert forall|i: int| 0 <= i < line.len() implies #[trigger] line[i] != '\n' && line[i]
        != '\r' by {
        let a = method.len() as int;
        let b = path.len() as int;
        if i < a {
            assert(!text::is_space(method[i]));
        } else if a < i < a + 1 + b {
            assert(!text::is_space(path[i - a - 1]));
        } else if i > a + 1 + b {
            assert(line[i] == version[i - a - b - 2]);
        }
    }
    text::law_lines_end_at_line_feeds(line, more);
    let returned = line + seq!['\r'];
    assert forall|i: int| 0 <= i < returned.len() implies #[trigger] returned[i] != '\n' by {
        if i < line.len() {
            assert(line[i] != '\n');
        }
    }
    text::law_lines_end_at_line_feeds(returned, more);
    assert(returned.drop_last() =~= line);
    assert(line + seq!['\r', '\n'] + more =~= returned + seq!['\n'] + more);
    assert forall|i: int| 0 <= i < method.len() implies #[trigger] method[i] != '\n' && method[i]
        != '\r' by {
        assert(!text::is_space(method[i]));
    }
    text::law_lines_end_at_line_feeds(method, more);
    let alone = method + seq!['\r'];
    assert forall|i: int| 0 <= i < alone.len() implies #[trigger] alone[i] != '\n' by {
        if i < method.len() {
            assert(method[i] != '\n');
        }
    }
    text::law_lines_end_at_line_feeds(alone, more);
    assert(alone.drop_last() =~= method);
    assert(method + seq!['\r', '\n'] + more =~= alone + seq!['\n'] + more);
}

/// A response begins with its status line, ends with an empty line and its
/// body, and tells the body's length in bytes.
pub proof fn law_response_carries_status_length_and_body(status: Seq<char>, body: Seq<char>)
    ensures
        response_text(status, body) == "HTTP/1.1 "@ + status
            + "\r\nContent-Type: text/plain\r\nContent-Length: "@ + text::decimal(
            vstd::utf8::encode_utf8(body).len(),
        ) + "\r\nConnection: close\r\n\r\n"@ + body,
        text::starts_with(response_text(status, body), "HTTP/1.1 "@ + status + "\r\n"@),
        text::ends_with(response_text(status, body), "\r\n\r\n"@ + body),
{
    reveal_strlit("\r\n");
    reveal_strlit("\r\n\r\n");
    reveal_strlit("\r\nContent-Type: text/plain\r\nContent-Length: ");
    reveal_strlit("\r\nConnection: close\r\n\r\n");
    let r = response_text(status, body);
    let head = "HTTP/1.1 "@ + status + "\r\n"@;
    assert(r.take(head.len() as int) =~= head);
    let tail = "\r\n\r\n"@ + body;
    assert(r.skip(r.len() - tail.len()) =~= tail);
}

/// What the probes answer, by the agent's flags: liveness where nothing is
/// wrong, with the report either way; readiness where probes are attached.
pub proof fn law_probes_answer_by_the_flags(h: HealthView)
    ensures
        h.probes_attached && h.k8s_watcher_connected && !h.flow_table_at_capacity
            && !h.pod_cache_at_capacity ==> answer(h, "/healthz"@) == ("200 OK"@, h.message()),
        !h.probes_attached || !h.k8s_watcher_connected || h.flow_table_at_capacity
            || h.pod_cache_at_capacity ==> answer(h, "/healthz"@) == (
            "503 Service Unavailable"@,
            h.message(),
        ),
        h.probes_attached ==> answer(h, "/readyz"@) == ("200 OK"@, "ready"@),
        !h.probes_attached ==> answer(h, "/readyz"@) == (
            "503 Service Unavailable"@,
            "not ready: probes not attached"@,
        ),
{
    reveal_strlit("/healthz");
    reveal_strlit("/readyz");
    assert("/healthz"@[1] == 'h');
    assert("/readyz"@[1] == 'r');
}

/// Any other path is answered with 404.
pub proof fn law_other_paths_are_not_found(h: HealthView, path: Seq<char>)
    requires
        path != "/healthz"@,
        path != "/readyz"@,
    ensures
        answer(h, path) == ("404 Not Found"@, "not found"@),
{
}

/// The response to a request is the answer to its path.
pub proof fn law_response_is_the_answer_to_the_path(
    h: HealthView,
    method: Seq<char>,
    path: Seq<char>,
    more: Seq<char>,
)
    requires
        method.len() > 0,
        path.len() > 0,
        forall|i: int| 0 <= i < method.len() ==> !text::is_space(#[trigger] method[i]),
        forall|i: int| 0 <= i < path.len() ==> !text::is_space(#[trigger] path[i]),
    ensures
        ({
            let r = response_to(
                h,
                method + seq![' '] + path + seq![' '] + "HTTP/1.1"@ + seq!['\r', '\n'] + more,
            );
            &&& text::starts_with(r, "HTTP/1.1 "@ + answer(h, path).0 + "\r\n"@)
            &&& text::ends_with(r, "\r\n\r\n"@ + answer(h, path).1)
        }),
{
    reveal_strlit("HTTP/1.1");
    let version = "HTTP/1.1"@;
    assert forall|i: int| 0 <= i < version.len() implies #[trigger] version[i] != '\n'
        && version[i] != '\r' by {
        assert(i == 0 || i == 1 || i == 2 || i == 3 || i == 4 || i == 5 || i == 6 || i == 7);
    }
    law_path_is_the_second_word(method, path, version, more);
    law_response_carries_status_length_and_body(answer(h, path).0, answer(h, path).1);
}

} // verus!
