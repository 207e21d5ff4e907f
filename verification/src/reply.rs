//! Replies of the Slack API: what they confirm, what they refuse and what they carry.

use crate::json::{
    bool_member, get, get_bool, get_text, get_text_or, json_of, member, parse_bytes, parse_text,
    parsed_bytes, parsed_text, text_member, Json,
};
use crate::text::{
    is_space, opt_text, text_or, trim, trimmed, trimming_takes_off_the_padding,
};
use vstd::prelude::*;
use vstd::string::*;

verus! {

/// Why a call of the Slack API failed.
#[derive(Debug, Clone)]
pub enum SlackError {
    /// The reply came with a status that is no success.
    Status { endpoint: String, status: String, body: String },
    /// The reply says that the call was refused.
    Refused { endpoint: String, reason: String },
    /// The reply is no JSON document.
    Malformed,
    /// The reply that opens a socket has no address in it.
    MissingUrl,
}

/// What a [`SlackError`] holds.
pub enum SlackErrorView {
    Status { endpoint: Seq<char>, status: Seq<char>, body: Seq<char> },
    Refused { endpoint: Seq<char>, reason: Seq<char> },
    Malformed,
    MissingUrl,
}

impl View for SlackError {
    type V = SlackErrorView;

    open spec fn view(&self) -> SlackErrorView {
        match self {
            SlackError::Status { endpoint, status, body } => SlackErrorView::Status {
                endpoint: endpoint@,
                status: status@,
                body: body@,
            },
            SlackError::Refused { endpoint, reason } => SlackErrorView::Refused {
                endpoint: endpoint@,
                reason: reason@,
            },
            SlackError::Malformed => SlackErrorView::Malformed,
            SlackError::MissingUrl => SlackErrorView::MissingUrl,
        }
    }
}

/// How an error reads.
pub open spec fn error_text(error: SlackErrorView) -> Seq<char> {
    match error {
        SlackErrorView::Status { endpoint, status, body } => "Slack "@ + endpoint + " failed ("@
            + status + "): "@ + body,
        SlackErrorView::Refused { endpoint, reason } => "Slack "@ + endpoint + " failed: "@
            + reason,
        SlackErrorView::Malformed => "error decoding response body"@,
        SlackErrorView::MissingUrl => "Slack apps.connections.open: missing url in response"@,
    }
}

/// Whether an HTTP status is a success.
pub open spec fn success(status: u16) -> bool {
    200 <= status < 300
}

/// The document in a reply; a reply that is no document counts as `null`.
pub open spec fn document_or_null(document: Option<Json>) -> Json {
    match document {
        Some(json) => json,
        None => Json::Null,
    }
}

/// Whether a reply says that the call was refused.
pub open spec fn refused(reply: Json) -> bool {
    bool_member(reply, "ok"@) == Some(false)
}

/// The reason that a reply gives for a refusal.
pub open spec fn refusal_reason(reply: Json) -> Seq<char> {
    text_or(text_member(reply, "error"@), "unknown"@)
}

/// The error in a reply to a call of `endpoint`, whose body holds `document`.
pub open spec fn reply_error(
    endpoint: Seq<char>,
    status: u16,
    status_text: Seq<char>,
    body: Seq<char>,
    document: Option<Json>,
) -> Option<SlackErrorView> {
    if !success(status) {
        Some(SlackErrorView::Status { endpoint, status: status_text, body })
    } else if refused(document_or_null(document)) {
        Some(
            SlackErrorView::Refused {
                endpoint,
                reason: refusal_reason(document_or_null(document)),
            },
        )
    } else {
        None
    }
}

/// The cursor of the next page, which is trimmed and not empty.
pub open spec fn next_cursor(reply: Json) -> Option<Seq<char>> {
    match member(reply, "response_metadata"@) {
        Some(metadata) => match text_member(metadata, "next_cursor"@) {
            Some(cursor) => if trimmed(cursor).len() == 0 {
                None
            } else {
                Some(trimmed(cursor))
            },
            None => None,
        },
        None => None,
    }
}

/// The address in a reply that opens a socket, or the error.
pub open spec fn socket_address(document: Option<Json>) -> Result<Seq<char>, SlackErrorView> {
    match document {
        None => Err(SlackErrorView::Malformed),
        Some(reply) => if bool_member(reply, "ok"@) != Some(true) {
            Err(
                SlackErrorView::Refused {
                    endpoint: "apps.connections.open"@,
                    reason: refusal_reason(reply),
                },
            )
        } else {
            match text_member(reply, "url"@) {
                Some(url) => Ok(url),
                None => Err(SlackErrorView::MissingUrl),
            }
        },
    }
}

/// What the value of a reply holds, where there is one.
pub open spec fn opt_json(value: Option<serde_json::Value>) -> Option<Json> {
    match value {
        Some(v) => Some(json_of(v)),
        None => None,
    }
}

/// What the value of a reply holds, where there is one.
pub open spec fn opt_json_ref(value: Option<&serde_json::Value>) -> Option<Json> {
    match value {
        Some(v) => Some(json_of(*v)),
        None => None,
    }
}

impl SlackError {
    /// How the error reads.
    pub fn message(&self) -> (r: String)
        ensures
            r@ == error_text(self@),
    {
        match self {
            SlackError::Status { endpoint, status, body } => {
                let mut r = "Slack ".to_owned();
                r.append(endpoint.as_str());
                r.append(" failed (");
                r.append(status.as_str());
                r.append("): ");
                r.append(body.as_str());
                r
            },
            SlackError::Refused { endpoint, reason } => {
                let mut r = "Slack ".to_owned();
                r.append(endpoint.as_str());
                r.append(" failed: ");
                r.append(reason.as_str());
                r
            },
            SlackError::Malformed => "error decoding response body".to_owned(),
            SlackError::MissingUrl => {
                "Slack apps.connections.open: missing url in response".to_owned()
            },
        }
    }
}

/// Whether an HTTP status is a success.
pub fn is_success(status: u16) -> (r: bool)
    ensures
        r == success(status),
        r == (status / 100 == 2),
{
    200 <= status && status < 300
}

/// Whether a reply says that the call was refused.
pub fn is_refused(reply: &serde_json::Value) -> (r: bool)
    ensures
        r == refused(json_of(*reply)),
        r == (bool_member(json_of(*reply), "ok"@) == Some(false)),
{
    match get_bool(reply, "ok") {
        Some(ok) => !ok,
        None => false,
    }
}

/// Judges a reply to a call of `endpoint`, given the document that its body holds.
pub fn judge_reply(
    endpoint: &str,
    status: u16,
    status_text: &str,
    body: &str,
    document: Option<&serde_json::Value>,
) -> (r: Result<(), SlackError>)
    ensures
        match r {
            Ok(()) => reply_error(
                endpoint@,
                status,
                status_text@,
                body@,
                opt_json_ref(document),
            ) is None,
            Err(e) => reply_error(endpoint@, status, status_text@, body@, opt_json_ref(document))
                == Some(e@),
        },
{
    if !is_success(status) {
        return Err(
            SlackError::Status {
                endpoint: endpoint.to_owned(),
                status: status_text.to_owned(),
                body: body.to_owned(),
            },
        );
    }
    match document {
        Some(reply) => if is_refused(reply) {
            Err(
                SlackError::Refused {
                    endpoint: endpoint.to_owned(),
                    reason: get_text_or(reply, "error", "unknown"),
                },
            )
        } else {
            Ok(())
        },
        None => Ok(()),
    }
}

/// Reads the reply to a call of `endpoint`: the document in its body, if it holds one,
/// or the error. Slack answers most refused calls with a success status, so that the
/// document has to be looked at too.
pub fn read_reply(endpoint: &str, status: u16, status_text: &str, body: &str) -> (r: Result<
    Option<serde_json::Value>,
    SlackError,
>)
    ensures
        match r {
            Ok(document) => reply_error(
                endpoint@,
                status,
                status_text@,
                body@,
                parsed_text(body@),
            ) is None && opt_json(document) == parsed_text(body@),
            Err(e) => reply_error(endpoint@, status, status_text@, body@, parsed_text(body@))
                == Some(e@),
        },
{
    let document = match parse_text(body) {
        Ok(value) => Some(value),
        Err(_) => None,
    };
    let judged = match &document {
        Some(value) => judge_reply(endpoint, status, status_text, body, Some(value)),
        None => judge_reply(endpoint, status, status_text, body, None),
    };
    match judged {
        Ok(()) => Ok(document),
        Err(e) => Err(e),
    }
}

/// Whether a message was posted, given the reply to the call that posts it.
pub fn read_post_reply(status: u16, status_text: &str, body: &str) -> (r: Result<(), SlackError>)
    ensures
        match r {
            Ok(()) => reply_error(
                "chat.postMessage"@,
                status,
                status_text@,
                body@,
                parsed_text(body@),
            ) is None,
            Err(e) => reply_error(
                "chat.postMessage"@,
                status,
                status_text@,
                body@,
                parsed_text(body@),
            ) == Some(e@),
        },
{
    match read_reply("chat.postMessage", status, status_text, body) {
        Ok(_) => Ok(()),
        Err(e) => Err(e),
    }
}

/// The cursor of the page after the one in `reply`.
pub fn read_next_cursor(reply: &serde_json::Value) -> (r: Option<String>)
    ensures
        opt_text(r) == next_cursor(json_of(*reply)),
{
    match get(reply, "response_metadata") {
        Some(metadata) => match get_text(metadata, "next_cursor") {
            Some(cursor) => {
                let cursor = trim(cursor.as_str());
                if cursor.as_str().is_empty() {
                    None
                } else {
                    Some(cursor)
                }
            },
            None => None,
        },
        None => None,
    }
}

/// The user id of the bot in the document of a reply about its own identity.
pub fn bot_user_id_in(reply: &serde_json::Value) -> (r: Option<String>)
    ensures
        opt_text(r) == text_member(json_of(*reply), "user_id"@),
{
    get_text(reply, "user_id")
}

/// The user id of the bot in the body of a reply about its own identity.
pub fn read_bot_user_id(body: &[u8]) -> (r: Option<String>)
    ensures
        opt_text(r) == match parsed_bytes(body@) {
            Some(reply) => text_member(reply, "user_id"@),
            None => None,
        },
{
    match parse_bytes(body) {
        Ok(reply) => bot_user_id_in(&reply),
        Err(_) => None,
    }
}

/// The address in the document of a reply that opens a socket.
pub fn socket_url_in(reply: &serde_json::Value) -> (r: Result<String, SlackError>)
    ensures
        match r {
            Ok(url) => socket_address(Some(json_of(*reply)))
                == Ok::<Seq<char>, SlackErrorView>(url@),
            Err(e) => socket_address(Some(json_of(*reply)))
                == Err::<Seq<char>, SlackErrorView>(e@),
        },
{
    let ok = match get_bool(reply, "ok") {
        Some(ok) => ok,
        None => false,
    };
    if !ok {
        return Err(
            SlackError::Refused {
                endpoint: "apps.connections.open".to_owned(),
                reason: get_text_or(reply, "error", "unknown"),
            },
        );
    }
    match get_text(reply, "url") {
        Some(url) => Ok(url),
        None => Err(SlackError::MissingUrl),
    }
}

/// The address in the body of a reply that opens a socket.
pub fn read_socket_url(body: &[u8]) -> (r: Result<String, SlackError>)
    ensures
        match r {
            Ok(url) => socket_address(parsed_bytes(body@)) == Ok::<Seq<char>, SlackErrorView>(url@),
            Err(e) => socket_address(parsed_bytes(body@)) == Err::<Seq<char>, SlackErrorView>(e@),
        },
{
    match parse_bytes(body) {
        Ok(reply) => socket_url_in(&reply),
        Err(_) => Err(SlackError::Malformed),
    }
}

/// The statuses of a success are those from 200 to 299.
pub proof fn successes_begin_with_a_two(status: u16)
    ensures
        success(status) <==> status / 100 == 2,
{
}

/// A call has failed exactly where the status is no success or the reply says that it was
/// refused; a status that is no success goes first, whatever the body holds. The error tells
/// which call it was and what came, whole.
pub proof fn failed_calls_are_told_apart(
    endpoint: Seq<char>,
    status: u16,
    status_text: Seq<char>,
    body: Seq<char>,
    document: Option<Json>,
)
    ensures
        ({
            let error = reply_error(endpoint, status, status_text, body, document);
            let no = match document {
                Some(json) => bool_member(json, "ok"@) == Some(false),
                None => false,
            };
            &&& error is None <==> status / 100 == 2 && !no
            &&& status / 100 != 2 ==> error == Some(
                SlackErrorView::Status { endpoint, status: status_text, body },
            )
            &&& status / 100 == 2 && no ==> error == Some(
                SlackErrorView::Refused {
                    endpoint,
                    reason: match text_member(document->0, "error"@) {
                        Some(reason) => reason,
                        None => "unknown"@,
                    },
                },
            )
        }),
{
}

/// A page is followed by the one at the text under `next_cursor` in `response_metadata`, less
/// the white space around it; where that is blank or missing, by none.
pub proof fn pages_follow_their_cursor(
    reply: Json,
    metadata: Json,
    left: Seq<char>,
    cursor: Seq<char>,
    right: Seq<char>,
)
    requires
        forall|i: int| 0 <= i < left.len() ==> is_space(#[trigger] left[i]),
        forall|i: int| 0 <= i < right.len() ==> is_space(#[trigger] right[i]),
        cursor.len() > 0 ==> !is_space(cursor.first()) && !is_space(cursor.last()),
    ensures
        member(reply, "response_metadata"@) == Some(metadata) && text_member(
            metadata,
            "next_cursor"@,
        ) == Some(left + cursor + right) ==> next_cursor(reply) == if cursor.len() == 0 {
            None
        } else {
            Some(cursor)
        },
        member(reply, "response_metadata"@) is None ==> next_cursor(reply) is None,
        member(reply, "response_metadata"@) == Some(metadata) && text_member(
            metadata,
            "next_cursor"@,
        ) is None ==> next_cursor(reply) is None,
{
    trimming_takes_off_the_padding(left, cursor, right);
}

/// The socket is opened at the text under `url`, exactly where the reply is granted and has
/// one; otherwise the error tells what was missing.
pub proof fn sockets_are_opened_at_their_url(reply: Json, url: Seq<char>)
    ensures
        socket_address(Some(reply)) == Ok::<Seq<char>, SlackErrorView>(url) <==> bool_member(
            reply,
            "ok"@,
        ) == Some(true) && text_member(reply, "url"@) == Some(url),
        bool_member(reply, "ok"@) != Some(true) ==> socket_address(Some(reply)) == Err::<
            Seq<char>,
            SlackErrorView,
        >(
            SlackErrorView::Refused {
                endpoint: "apps.connections.open"@,
                reason: match text_member(reply, "error"@) {
                    Some(reason) => reason,
                    None => "unknown"@,
                },
            },
        ),
        bool_member(reply, "ok"@) == Some(true) && text_member(reply, "url"@) is None
            ==> socket_address(Some(reply)) == Err::<Seq<char>, SlackErrorView>(
            SlackErrorView::MissingUrl,
        ),
        socket_address(None) == Err::<Seq<char>, SlackErrorView>(SlackErrorView::Malformed),
{
}

/// How each error reads.
pub proof fn errors_tell_what_happened(
    endpoint: Seq<char>,
    status: Seq<char>,
    body: Seq<char>,
    reason: Seq<char>,
)
    ensures
        error_text(SlackErrorView::Status { endpoint, status, body }) == "Slack "@ + endpoint
            + " failed ("@ + status + "): "@ + body,
        error_text(SlackErrorView::Refused { endpoint, reason }) == "Slack "@ + endpoint
            + " failed: "@ + reason,
        error_text(SlackErrorView::MissingUrl)
            == "Slack apps.connections.open: missing url in response"@,
        error_text(SlackErrorView::Malformed) == "error decoding response body"@,
{
}

/// Each field of an error counts.
pub proof fn errors_are_viewed_field_by_field(error: SlackError)
    ensures
        match error {
            SlackError::Status { endpoint, status, body } => error@ == (SlackErrorView::Status {
                endpoint: endpoint@,
                status: status@,
                body: body@,
            }),
            SlackError::Refused { endpoint, reason } => error@ == (SlackErrorView::Refused {
                endpoint: endpoint@,
                reason: reason@,
            }),
            SlackError::Malformed => error@ == SlackErrorView::Malformed,
            SlackError::MissingUrl => error@ == SlackErrorView::MissingUrl,
        },
{
}

/// A reply that holds a document counts as that document, and one that holds none as `null`.
pub proof fn replies_count_as_their_document(value: serde_json::Value, json: Json)
    ensures
        opt_json(Some(value)) == Some(json_of(value)),
        opt_json(None) is None,
        opt_json_ref(Some(&value)) == Some(json_of(value)),
        opt_json_ref(None) is None,
        document_or_null(Some(json)) == json,
        document_or_null(None) == Json::Null,
{
}

} // verus!
