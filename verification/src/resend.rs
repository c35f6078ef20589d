//! The logic of sending one email through the Resend HTTP API: the JSON body
//! of the request, and what a reply means. The request itself is made by the
//! caller.
use vstd::prelude::*;
use crate::headers::{header_map, map_entries, pairs_view, sorted_headers};
use crate::json::json_string_text;

verus! {

/// Calls `serde_json::to_string` on a string slice. Claimed: the result is
/// `json_string_text(s@)`, as serde_json's escape table gives it.
/// serde_json has no error for a string slice; were one to come, the empty
/// string would stand for it, which the claim leaves out.
#[verifier::external_body]
fn json_string(s: &str) -> (r: String)
    ensures
        r@ == json_string_text(s@),
{
    serde_json::to_string(s).unwrap_or_default()
}

/// The string member named `key` of the JSON value held in `body`, as
/// `serde_json::from_slice` (into a `Value`, with `Value::Null` when `body` is
/// not JSON), `Value::get` and `Value::as_str` find it: `None` where `body` is
/// not a JSON object, lacks the member, or the member is not a string.
pub uninterp spec fn json_str_member(body: Seq<u8>, key: Seq<char>) -> Option<Seq<char>>;

/// Parses `body` with `serde_json::from_slice` into a `serde_json::Value`
/// (`Value::Null` on a parse error) and reads its string member `key` with
/// `Value::get` and `Value::as_str`. Claimed: the result is
/// `json_str_member(body@, key@)`, a function of `body` and `key` alone.
#[verifier::external_body]
fn json_member_string(body: &[u8], key: &str) -> (r: Option<String>)
    ensures
        match r {
            Some(t) => json_str_member(body@, key@) == Some(t@),
            None => json_str_member(body@, key@) is None,
        },
{
    let value: serde_json::Value = serde_json::from_slice(body).unwrap_or_default();
    value.get(key).and_then(serde_json::Value::as_str).map(str::to_string)
}

/// Each key and value of `pairs` written as a JSON string.
pub open spec fn pairs_json(pairs: Seq<(Seq<char>, Seq<char>)>) -> Seq<(Seq<char>, Seq<char>)> {
    pairs.map_values(|p: (Seq<char>, Seq<char>)| (json_string_text(p.0), json_string_text(p.1)))
}

/// The members `key:value` of a JSON object, separated by commas, from JSON
/// texts of keys and values.
pub open spec fn members_json(members: Seq<(Seq<char>, Seq<char>)>) -> Seq<char>
    decreases members.len(),
{
    if members.len() == 0 {
        seq![]
    } else if members.len() == 1 {
        members[0].0 + ":"@ + members[0].1
    } else {
        members_json(members.drop_last()) + ","@ + members.last().0 + ":"@ + members.last().1
    }
}

/// The `headers` member of the request: absent where there are no headers.
pub open spec fn headers_member(headers: Seq<(Seq<char>, Seq<char>)>) -> Seq<char> {
    if headers.len() == 0 {
        seq![]
    } else {
        ",\"headers\":{"@ + members_json(headers) + "}"@
    }
}

/// The request object, from the JSON texts of its values, members in the
/// order of their names: `from`, `headers`, `html`, `subject`, `text`, and
/// `to`, a list of one address.
pub open spec fn body_json(
    from: Seq<char>,
    to: Seq<char>,
    subject: Seq<char>,
    html: Seq<char>,
    text: Seq<char>,
    headers: Seq<(Seq<char>, Seq<char>)>,
) -> Seq<char> {
    "{\"from\":"@ + from + headers_member(headers) + ",\"html\":"@ + html + ",\"subject\":"@
        + subject + ",\"text\":"@ + text + ",\"to\":["@ + to + "]}"@
}

/// Assembles the request object from the JSON texts of its values (each a
/// JSON string as `serde_json` writes it); `headers_json` holds the JSON
/// texts of the header names and values.
pub fn json_body(
    from_json: &str,
    to_json: &str,
    subject_json: &str,
    html_json: &str,
    text_json: &str,
    headers_json: &Vec<(String, String)>,
) -> (r: String)
    ensures
        r@ == body_json(
            from_json@,
            to_json@,
            subject_json@,
            html_json@,
            text_json@,
            pairs_view(headers_json@),
        ),
{
    let ghost hv = pairs_view(headers_json@);
    let mut out = String::new();
    out.append("{\"from\":");
    out.append(from_json);
    if headers_json.len() > 0 {
        out.append(",\"headers\":{");
        let ghost prefix = out@;
        assert(hv.take(0) =~= Seq::<(Seq<char>, Seq<char>)>::empty());
        for i in 0..headers_json.len()
            invariant
                hv == pairs_view(headers_json@),
                out@ == prefix + members_json(hv.take(i as int)),
        {
            let pair = &headers_json[i];
            if i > 0 {
                out.append(",");
            }
            out.append(pair.0.as_str());
            out.append(":");
            out.append(pair.1.as_str());
            assert(hv.take(i + 1).drop_last() =~= hv.take(i as int));
            assert(hv.take(i + 1).last() == hv[i as int]);
        }
        assert(hv.take(headers_json.len() as int) =~= hv);
        out.append("}");
    }
    out.append(",\"html\":");
    out.append(html_json);
    out.append(",\"subject\":");
    out.append(subject_json);
    out.append(",\"text\":");
    out.append(text_json);
    out.append(",\"to\":[");
    out.append(to_json);
    out.append("]}");
    out
}

/// The JSON body of the request that sends one email: each value written as a
/// JSON string by `serde_json`, the headers as a map (where a name comes
/// twice, its last value stands) in the order of their names, and no
/// `headers` member where there are none.
pub fn request_body(
    from: &str,
    to: &str,
    subject: &str,
    html: &str,
    text: &str,
    headers: &Vec<(String, String)>,
) -> (r: String)
    ensures
        r@ == body_json(
            json_string_text(from@),
            json_string_text(to@),
            json_string_text(subject@),
            json_string_text(html@),
            json_string_text(text@),
            pairs_json(map_entries(header_map(pairs_view(headers@)))),
        ),
{
    let sorted = sorted_headers(headers);
    let mut encoded: Vec<(String, String)> = Vec::new();
    for i in 0..sorted.len()
        invariant
            encoded@.len() == i,
            forall|k: int|
                0 <= k < i ==> pairs_view(encoded@)[k] == #[trigger] pairs_json(
                    pairs_view(sorted@),
                )[k],
    {
        let k = json_string(sorted[i].0.as_str());
        let v = json_string(sorted[i].1.as_str());
        encoded.push((k, v));
    }
    assert(pairs_view(encoded@) =~= pairs_json(pairs_view(sorted@)));
    let from_json = json_string(from);
    let to_json = json_string(to);
    let subject_json = json_string(subject);
    let html_json = json_string(html);
    let text_json = json_string(text);
    json_body(
        from_json.as_str(),
        to_json.as_str(),
        subject_json.as_str(),
        html_json.as_str(),
        text_json.as_str(),
        &encoded,
    )
}

/// Whether an HTTP status code is a success: 200 to 299.
pub open spec fn success_code(code: u16) -> bool {
    200 <= code < 300
}

/// Whether an HTTP status code is a success (`StatusCode::is_success`).
pub fn is_success(code: u16) -> (b: bool)
    ensures
        b == success_code(code),
{
    200 <= code && code < 300
}

/// The view of an optional string.
pub open spec fn opt_view(o: Option<String>) -> Option<Seq<char>> {
    match o {
        Some(s) => Some(s@),
        None => None,
    }
}

/// The view of a string result.
pub open spec fn result_view(r: Result<String, String>) -> Result<Seq<char>, Seq<char>> {
    match r {
        Ok(s) => Ok(s@),
        Err(e) => Err(e@),
    }
}

/// What a reply means: the message id where the status is a success and the
/// reply names an id; otherwise an error that gives the reply's message, or
/// the status where there is none.
pub open spec fn reply_meaning(
    code: u16,
    status: Seq<char>,
    id: Option<Seq<char>>,
    message: Option<Seq<char>>,
) -> Result<Seq<char>, Seq<char>> {
    if success_code(code) && id is Some {
        Ok(id->0)
    } else {
        Err(
            "resend: "@ + match message {
                Some(m) => m,
                None => "HTTP "@ + status,
            },
        )
    }
}

/// Decides the outcome of a reply from its status code, the status as
/// written (`"422 Unprocessable Entity"`), and the `id` and `message`
/// string members of its JSON body.
pub fn reply_outcome(code: u16, status: &str, id: Option<String>, message: Option<String>) -> (r:
    Result<String, String>)
    ensures
        result_view(r) == reply_meaning(code, status@, opt_view(id), opt_view(message)),
        200 <= code < 300 && id is Some ==> (r matches Ok(x) && x@ == id->0@),
        !(200 <= code < 300 && id is Some) ==> r is Err,
{
    proof {
        lemma_success_gives_id(code, status@, opt_view(id), opt_view(message));
    }
    if is_success(code) {
        if let Some(id) = id {
            return Ok(id);
        }
    }
    let mut err = String::new();
    err.append("resend: ");
    match message {
        Some(m) => {
            err.append(m.as_str());
        },
        None => {
            err.append("HTTP ");
            err.append(status);
            assert(err@ =~= "resend: "@ + ("HTTP "@ + status@));
        },
    }
    Err(err)
}

/// Decides the outcome of a reply from its status code, the status as
/// written, and the bytes of its body: the message id on success, else the
/// error message.
pub fn send_outcome(code: u16, status: &str, body: &[u8]) -> (r: Result<String, String>)
    ensures
        result_view(r) == reply_meaning(
            code,
            status@,
            json_str_member(body@, "id"@),
            json_str_member(body@, "message"@),
        ),
        200 <= code < 300 && json_str_member(body@, "id"@) is Some ==> (r matches Ok(x) && x@
            == json_str_member(body@, "id"@)->0),
{
    let id = json_member_string(body, "id");
    let message = json_member_string(body, "message");
    reply_outcome(code, status, id, message)
}


/// A success status with an id in the reply gives exactly that id, whatever
/// the rest of the reply; any other reply gives an error.
pub proof fn lemma_success_gives_id(
    code: u16,
    status: Seq<char>,
    id: Option<Seq<char>>,
    message: Option<Seq<char>>,
)
    ensures
        200 <= code < 300 && id is Some ==> reply_meaning(code, status, id, message) == Ok::<
            Seq<char>,
            Seq<char>,
        >(id->0),
        !(200 <= code < 300 && id is Some) ==> reply_meaning(code, status, id, message) is Err,
{
}

/// The error of a failed reply is `resend: ` followed by the reply's message
/// in full, or by `HTTP ` and the status where the reply has no message.
pub proof fn lemma_failure_message(
    code: u16,
    status: Seq<char>,
    id: Option<Seq<char>>,
    message: Option<Seq<char>>,
)
    requires
        !(200 <= code < 300 && id is Some),
    ensures
        message is Some ==> reply_meaning(code, status, id, message) == Err::<
            Seq<char>,
            Seq<char>,
        >("resend: "@ + message->0),
        message is None ==> reply_meaning(code, status, id, message) == Err::<
            Seq<char>,
            Seq<char>,
        >("resend: "@ + ("HTTP "@ + status)),
{
}


/// The request object holds each value's JSON text whole, after its member
/// name: `from`, then the headers where there are any, then `html`,
/// `subject`, `text`, and `to` as a list of one address; with no headers
/// there is no `headers` member.
pub proof fn lemma_body_json_members(
    from: Seq<char>,
    to: Seq<char>,
    subject: Seq<char>,
    html: Seq<char>,
    text: Seq<char>,
    headers: Seq<(Seq<char>, Seq<char>)>,
)
    ensures
        headers.len() == 0 ==> body_json(from, to, subject, html, text, headers) == "{\"from\":"@
            + from + ",\"html\":"@ + html + ",\"subject\":"@ + subject + ",\"text\":"@ + text
            + ",\"to\":["@ + to + "]}"@,
        headers.len() > 0 ==> body_json(from, to, subject, html, text, headers) == "{\"from\":"@
            + from + (",\"headers\":{"@ + members_json(headers) + "}"@) + ",\"html\":"@ + html
            + ",\"subject\":"@ + subject + ",\"text\":"@ + text + ",\"to\":["@ + to + "]}"@,
        headers.len() == 1 ==> members_json(headers) == headers[0].0 + ":"@ + headers[0].1,
        headers.len() > 1 ==> members_json(headers) == members_json(headers.drop_last()) + ","@
            + headers.last().0 + ":"@ + headers.last().1,
{
    if headers.len() == 0 {
        assert("{\"from\":"@ + from + Seq::<char>::empty() =~= "{\"from\":"@ + from);
    }
}

} // verus!
