//! The mail the service sends through the Cloudflare Email Sending API:
//! where it goes, what it says, and what Cloudflare's answer means.

use vstd::prelude::*;

use crate::config::Config;
use crate::protocol::{status_name, Notification};
use crate::text::{
    chars_of, decimal, decimal_string, has_line_break, lemma_line_break_concat, owned,
    same_text, signed_decimal, signed_decimal_string,
};

verus! {

/// The body of the Cloudflare send call. Sender and recipient come from the
/// service's configuration only.
#[derive(Debug)]
pub struct EmailPayload {
    pub to: String,
    pub from: String,
    pub subject: String,
    pub text: String,
    pub html: String,
}

/// One entry of the `errors` list in a Cloudflare answer.
#[derive(Debug)]
pub struct ApiError {
    pub code: Option<i64>,
    pub message: Option<String>,
}

/// The parts of a Cloudflare answer the service reads.
#[derive(Debug)]
pub struct ApiEnvelope {
    pub success: bool,
    pub errors: Vec<ApiError>,
}

/// Why the HTTP exchange with Cloudflare did not complete.
#[derive(Debug)]
pub enum TransportFailure {
    /// Cloudflare answered with this HTTP status and the client stopped there.
    Status(u16),
    /// Any other failure, with its description.
    Other(String),
}

/// How a send call ended.
#[derive(Debug)]
pub enum Delivery {
    /// The request did not go through.
    Refused(TransportFailure),
    /// An answer came but its body could not be read; the description.
    Unreadable(String),
    /// An answer with this HTTP status; its body parsed as a Cloudflare
    /// envelope, or the parser's description of why not.
    Answered(u16, Result<ApiEnvelope, String>),
}

/// The root of the Cloudflare API.
pub open spec fn api_root() -> Seq<char> {
    "https://api.cloudflare.com/client/v4"@
}

/// The send endpoint of an account.
pub open spec fn send_url(account_id: Seq<char>) -> Seq<char> {
    api_root() + "/accounts/"@ + account_id + "/email/sending/send"@
}

/// The subject line: prefix, status in brackets, task id and summary.
pub open spec fn subject_spec(prefix: Seq<char>, n: Notification) -> Seq<char> {
    prefix + " ["@ + status_name(n.status) + "] "@ + n.task_id@ + ": "@ + n.summary@
}

/// The plain-text body of the mail.
pub open spec fn text_body_spec(n: Notification) -> Seq<char> {
    "Task: "@ + n.task_id@ + "\nStatus: "@ + status_name(n.status) + "\nSummary: "@ + n.summary@
        + match n.progress {
        Some(p) => "\nProgress: "@ + decimal(p as nat) + "%"@,
        None => Seq::<char>::empty(),
    } + match n.details {
        Some(d) => "\n\nDetails:\n"@ + d@,
        None => Seq::<char>::empty(),
    }
}

/// What one character becomes in HTML text.
pub open spec fn html_escape_char(c: char) -> Seq<char> {
    if c == '&' {
        "&amp;"@
    } else if c == '<' {
        "&lt;"@
    } else if c == '>' {
        "&gt;"@
    } else if c == '"' {
        "&quot;"@
    } else if c == '\'' {
        "&#39;"@
    } else {
        seq![c]
    }
}

/// A text with each of `& < > " '` replaced by its HTML entity.
pub open spec fn escape_html_spec(s: Seq<char>) -> Seq<char>
    decreases s.len(),
{
    if s.len() == 0 {
        Seq::<char>::empty()
    } else {
        html_escape_char(s[0]) + escape_html_spec(s.drop_first())
    }
}

/// The HTML body of the mail; user text goes in escaped.
pub open spec fn html_body_spec(n: Notification) -> Seq<char> {
    "<h1>Agent task update</h1><p><strong>Task:</strong> "@ + escape_html_spec(n.task_id@)
        + "</p><p><strong>Status:</strong> "@ + status_name(n.status)
        + "</p><p><strong>Summary:</strong> "@ + escape_html_spec(n.summary@) + "</p>"@
        + match n.progress {
        Some(p) => "<p><strong>Progress:</strong> "@ + decimal(p as nat) + "%</p>"@,
        None => Seq::<char>::empty(),
    } + match n.details {
        Some(d) => "<h2>Details</h2><pre>"@ + escape_html_spec(d@) + "</pre>"@,
        None => Seq::<char>::empty(),
    }
}

/// The payload field named `key`, if the payload has one.
pub open spec fn payload_field(p: EmailPayload, key: Seq<char>) -> Option<Seq<char>> {
    if key == "to"@ {
        Some(p.to@)
    } else if key == "from"@ {
        Some(p.from@)
    } else if key == "subject"@ {
        Some(p.subject@)
    } else if key == "text"@ {
        Some(p.text@)
    } else if key == "html"@ {
        Some(p.html@)
    } else {
        None
    }
}

/// How one Cloudflare error reads in a message.
pub open spec fn describe_api_error_spec(e: ApiError) -> Seq<char> {
    match (e.code, e.message) {
        (Some(code), Some(message)) => signed_decimal(code as int) + ": "@ + message@,
        (_, Some(message)) => message@,
        _ => "unspecified API error"@,
    }
}

/// The texts in `list`, with `sep` between neighbours.
pub open spec fn join(list: Seq<Seq<char>>, sep: Seq<char>) -> Seq<char>
    decreases list.len(),
{
    if list.len() == 0 {
        Seq::<char>::empty()
    } else if list.len() == 1 {
        list[0]
    } else {
        join(list.drop_last(), sep) + sep + list.last()
    }
}

/// The descriptions of all errors, separated by `; `.
pub open spec fn error_details(errors: Seq<ApiError>) -> Seq<char> {
    join(errors.map_values(|e: ApiError| describe_api_error_spec(e)), "; "@)
}

/// The message for an answer in which Cloudflare refused the mail.
pub open spec fn rejection_message_spec(status: u16, errors: Seq<ApiError>) -> Seq<char> {
    if error_details(errors).len() == 0 {
        "Cloudflare rejected the email with HTTP "@ + decimal(status as nat)
    } else {
        "Cloudflare rejected the email: "@ + error_details(errors)
    }
}

/// What a send call comes to: delivered, or the message that says why not.
pub open spec fn delivery_outcome(d: Delivery) -> Result<(), Seq<char>> {
    match d {
        Delivery::Refused(TransportFailure::Status(code)) => Err(
            "Cloudflare returned HTTP "@ + decimal(code as nat),
        ),
        Delivery::Refused(TransportFailure::Other(text)) => Err(
            "Cloudflare request failed: "@ + text@,
        ),
        Delivery::Unreadable(text) => Err("cannot read Cloudflare response: "@ + text@),
        Delivery::Answered(status, Err(text)) => if status >= 400 {
            Err("Cloudflare returned HTTP "@ + decimal(status as nat))
        } else {
            Err("invalid Cloudflare response: "@ + text@)
        },
        Delivery::Answered(status, Ok(envelope)) => if envelope.success {
            Ok(())
        } else {
            Err(rejection_message_spec(status, envelope.errors@))
        },
    }
}

proof fn lemma_escape_html_push(s: Seq<char>, c: char)
    ensures
        escape_html_spec(s.push(c)) == escape_html_spec(s) + html_escape_char(c),
    decreases s.len(),
{
    let t = s.push(c);
    if s.len() == 0 {
        assert(t.drop_first() =~= Seq::<char>::empty());
        assert(escape_html_spec(t) == html_escape_char(t[0]) + escape_html_spec(t.drop_first()));
        assert(html_escape_char(c) + Seq::<char>::empty() =~= html_escape_char(c));
        assert(Seq::<char>::empty() + html_escape_char(c) =~= html_escape_char(c));
    } else {
        lemma_escape_html_push(s.drop_first(), c);
        assert(t.drop_first() =~= s.drop_first().push(c));
        assert(t[0] == s[0]);
        assert(escape_html_spec(t) == html_escape_char(s[0]) + escape_html_spec(t.drop_first()));
        assert(escape_html_spec(s) == html_escape_char(s[0]) + escape_html_spec(s.drop_first()));
        assert(html_escape_char(s[0]) + (escape_html_spec(s.drop_first()) + html_escape_char(c))
            =~= (html_escape_char(s[0]) + escape_html_spec(s.drop_first())) + html_escape_char(c));
    }
}

/// Replaces each of `& < > " '` by its HTML entity.
pub fn escape_html(value: &str) -> (r: String)
    ensures
        r@ == escape_html_spec(value@),
{
    let v = chars_of(value);
    let mut r = String::new();
    let mut i: usize = 0;
    while i < v.len()
        invariant
            v@ == value@,
            i <= v.len(),
            r@ == escape_html_spec(v@.take(i as int)),
        decreases v.len() - i,
    {
        let c = v[i];
        if c == '&' {
            r.append("&amp;");
        } else if c == '<' {
            r.append("&lt;");
        } else if c == '>' {
            r.append("&gt;");
        } else if c == '"' {
            r.append("&quot;");
        } else if c == '\'' {
            r.append("&#39;");
        } else {
            crate::text::push_char(&mut r, c);
        }
        proof {
            assert(v@.take(i as int + 1) =~= v@.take(i as int).push(c));
            lemma_escape_html_push(v@.take(i as int), c);
        }
        i = i + 1;
    }
    assert(v@.take(v@.len() as int) =~= v@);
    r
}

/// The plain-text body: task, status and summary, then progress and
/// details where the notification has them.
pub fn text_body(notification: &Notification) -> (body: String)
    ensures
        body@ == text_body_spec(*notification),
{
    let mut body = owned("Task: ");
    body.append(notification.task_id.as_str());
    body.append("\nStatus: ");
    body.append(notification.status.as_str());
    body.append("\nSummary: ");
    body.append(notification.summary.as_str());
    let ghost head = body@;
    match notification.progress {
        Some(progress) => {
            let digits = decimal_string(progress as u64);
            body.append("\nProgress: ");
            body.append(digits.as_str());
            body.append("%");
        },
        None => {},
    }
    let ghost middle = body@;
    match &notification.details {
        Some(details) => {
            body.append("\n\nDetails:\n");
            body.append(details.as_str());
        },
        None => {},
    }
    proof {
        assert(body@ =~= text_body_spec(*notification));
    }
    body
}

/// The HTML body: the same content as the text body, with all text that
/// came from the agent escaped.
pub fn html_body(notification: &Notification) -> (body: String)
    ensures
        body@ == html_body_spec(*notification),
{
    let task_id = escape_html(notification.task_id.as_str());
    let summary = escape_html(notification.summary.as_str());
    let mut body = owned("<h1>Agent task update</h1><p><strong>Task:</strong> ");
    body.append(task_id.as_str());
    body.append("</p><p><strong>Status:</strong> ");
    body.append(notification.status.as_str());
    body.append("</p><p><strong>Summary:</strong> ");
    body.append(summary.as_str());
    body.append("</p>");
    match notification.progress {
        Some(progress) => {
            let digits = decimal_string(progress as u64);
            body.append("<p><strong>Progress:</strong> ");
            body.append(digits.as_str());
            body.append("%</p>");
        },
        None => {},
    }
    match &notification.details {
        Some(details) => {
            let escaped = escape_html(details.as_str());
            body.append("<h2>Details</h2><pre>");
            body.append(escaped.as_str());
            body.append("</pre>");
        },
        None => {},
    }
    proof {
        assert(body@ =~= html_body_spec(*notification));
    }
    body
}

/// The subject line of the mail.
pub fn subject_line(config: &Config, notification: &Notification) -> (s: String)
    ensures
        s@ == subject_spec(config.subject_prefix@, *notification),
{
    let mut s = owned(config.subject_prefix.as_str());
    s.append(" [");
    s.append(notification.status.as_str());
    s.append("] ");
    s.append(notification.task_id.as_str());
    s.append(": ");
    s.append(notification.summary.as_str());
    proof {
        assert(s@ =~= subject_spec(config.subject_prefix@, *notification));
    }
    s
}

/// The URL and payload of the send call for `notification`. The account,
/// sender and recipient come from `config` alone.
pub fn request_parts(config: &Config, notification: &Notification) -> (parts: (
    String,
    EmailPayload,
))
    ensures
        parts.0@ == send_url(config.account_id@),
        parts.1.to@ == config.to@,
        parts.1.from@ == config.from@,
        parts.1.subject@ == subject_spec(config.subject_prefix@, *notification),
        parts.1.text@ == text_body_spec(*notification),
        parts.1.html@ == html_body_spec(*notification),
{
    let mut url = owned("https://api.cloudflare.com/client/v4");
    url.append("/accounts/");
    url.append(config.account_id.as_str());
    url.append("/email/sending/send");
    let payload = EmailPayload {
        to: owned(config.to.as_str()),
        from: owned(config.from.as_str()),
        subject: subject_line(config, notification),
        text: text_body(notification),
        html: html_body(notification),
    };
    proof {
        assert(url@ =~= send_url(config.account_id@));
    }
    (url, payload)
}

/// The value of the `Authorization` header for an API token.
pub fn authorization(api_token: &str) -> (value: String)
    ensures
        value@ == "Bearer "@ + api_token@,
{
    let mut value = owned("Bearer ");
    value.append(api_token);
    value
}

impl EmailPayload {
    /// The payload field named `key`, as the JSON object sent has it.
    pub fn get(&self, key: &str) -> (r: Option<String>)
        ensures
            r matches Some(v) ==> payload_field(*self, key@) == Some(v@),
            r is None ==> payload_field(*self, key@) is None,
    {
        if same_text(key, "to") {
            Some(owned(self.to.as_str()))
        } else if same_text(key, "from") {
            Some(owned(self.from.as_str()))
        } else if same_text(key, "subject") {
            Some(owned(self.subject.as_str()))
        } else if same_text(key, "text") {
            Some(owned(self.text.as_str()))
        } else if same_text(key, "html") {
            Some(owned(self.html.as_str()))
        } else {
            None
        }
    }
}

/// How one Cloudflare error reads in a message.
pub fn describe_api_error(error: &ApiError) -> (s: String)
    ensures
        s@ == describe_api_error_spec(*error),
{
    match (&error.code, &error.message) {
        (Some(code), Some(message)) => {
            let mut s = signed_decimal_string(*code);
            s.append(": ");
            s.append(message.as_str());
            s
        },
        (_, Some(message)) => owned(message.as_str()),
        _ => owned("unspecified API error"),
    }
}

/// The message for an answer in which Cloudflare refused the mail.
pub fn rejection_message(status: u16, errors: &Vec<ApiError>) -> (m: String)
    ensures
        m@ == rejection_message_spec(status, errors@),
{
    let ghost described = errors@.map_values(|e: ApiError| describe_api_error_spec(e));
    let mut details = String::new();
    let mut i: usize = 0;
    while i < errors.len()
        invariant
            i <= errors.len(),
            described == errors@.map_values(|e: ApiError| describe_api_error_spec(e)),
            details@ == join(described.take(i as int), "; "@),
        decreases errors.len() - i,
    {
        let d = describe_api_error(&errors[i]);
        proof {
            assert(described.take(i as int + 1).drop_last() =~= described.take(i as int));
            assert(described.take(i as int + 1).last() == d@);
        }
        if i > 0 {
            details.append("; ");
        } else {
            proof {
                assert(details@ =~= Seq::<char>::empty());
            }
        }
        details.append(d.as_str());
        i = i + 1;
    }
    proof {
        assert(described.take(errors.len() as int) =~= described);
    }
    if chars_of(details.as_str()).len() == 0 {
        let mut m = owned("Cloudflare rejected the email with HTTP ");
        let digits = decimal_string(status as u64);
        m.append(digits.as_str());
        m
    } else {
        let mut m = owned("Cloudflare rejected the email: ");
        m.append(details.as_str());
        m
    }
}

/// What a send call comes to: `Ok` when Cloudflare accepted the mail, else
/// the message that says why it was not sent.
pub fn delivery_result(delivery: &Delivery) -> (r: Result<(), String>)
    ensures
        match (r, delivery_outcome(*delivery)) {
            (Ok(()), Ok(())) => true,
            (Err(m), Err(expected)) => m@ == expected,
            _ => false,
        },
{
    match delivery {
        Delivery::Refused(TransportFailure::Status(code)) => {
            let mut m = owned("Cloudflare returned HTTP ");
            let digits = decimal_string(*code as u64);
            m.append(digits.as_str());
            Err(m)
        },
        Delivery::Refused(TransportFailure::Other(text)) => {
            let mut m = owned("Cloudflare request failed: ");
            m.append(text.as_str());
            Err(m)
        },
        Delivery::Unreadable(text) => {
            let mut m = owned("cannot read Cloudflare response: ");
            m.append(text.as_str());
            Err(m)
        },
        Delivery::Answered(status, Err(text)) => {
            if *status >= 400 {
                let mut m = owned("Cloudflare returned HTTP ");
                let digits = decimal_string(*status as u64);
                m.append(digits.as_str());
                Err(m)
            } else {
                let mut m = owned("invalid Cloudflare response: ");
                m.append(text.as_str());
                Err(m)
            }
        },
        Delivery::Answered(status, Ok(envelope)) => {
            if envelope.success {
                Ok(())
            } else {
                Err(rejection_message(*status, &envelope.errors))
            }
        },
    }
}

/// `t` begins with `prefix`.
pub open spec fn starts_with(t: Seq<char>, prefix: Seq<char>) -> bool {
    t.len() >= prefix.len() && t.take(prefix.len() as int) == prefix
}

/// Reads HTML text back: each of the five entities that `escape_html`
/// writes becomes its character again.
pub open spec fn unescape_html_spec(t: Seq<char>) -> Seq<char>
    decreases t.len(),
{
    proof {
        reveal_strlit("&amp;");
        reveal_strlit("&lt;");
        reveal_strlit("&gt;");
        reveal_strlit("&quot;");
        reveal_strlit("&#39;");
    }
    if t.len() == 0 {
        Seq::<char>::empty()
    } else if starts_with(t, "&amp;"@) {
        seq!['&'] + unescape_html_spec(t.skip("&amp;"@.len() as int))
    } else if starts_with(t, "&lt;"@) {
        seq!['<'] + unescape_html_spec(t.skip("&lt;"@.len() as int))
    } else if starts_with(t, "&gt;"@) {
        seq!['>'] + unescape_html_spec(t.skip("&gt;"@.len() as int))
    } else if starts_with(t, "&quot;"@) {
        seq!['"'] + unescape_html_spec(t.skip("&quot;"@.len() as int))
    } else if starts_with(t, "&#39;"@) {
        seq!['\''] + unescape_html_spec(t.skip("&#39;"@.len() as int))
    } else {
        seq![t[0]] + unescape_html_spec(t.drop_first())
    }
}

/// A character that HTML text must not carry unescaped.
pub open spec fn is_markup_char(c: char) -> bool {
    c == '<' || c == '>' || c == '"' || c == '\''
}

/// Escaped text carries none of `< > " '`: whatever the agent sends, it
/// cannot open a tag or leave an attribute in the HTML mail.
pub proof fn escaped_text_has_no_markup(s: Seq<char>)
    ensures
        forall|i: int|
            0 <= i < escape_html_spec(s).len() ==> !is_markup_char(#[trigger] escape_html_spec(s)[i]),
    decreases s.len(),
{
    reveal_strlit("&amp;");
    reveal_strlit("&lt;");
    reveal_strlit("&gt;");
    reveal_strlit("&quot;");
    reveal_strlit("&#39;");
    if s.len() > 0 {
        escaped_text_has_no_markup(s.drop_first());
        let head = html_escape_char(s[0]);
        let tail = escape_html_spec(s.drop_first());
        assert forall|i: int| 0 <= i < (head + tail).len() implies !is_markup_char(
            #[trigger] (head + tail)[i],
        ) by {
            if i >= head.len() {
                assert((head + tail)[i] == tail[i - head.len()]);
            }
        }
    }
}

/// Unescaping what `escape_html` wrote gives the text back: escaping loses
/// nothing of what the agent sent.
pub proof fn unescape_after_escape(s: Seq<char>)
    ensures
        unescape_html_spec(escape_html_spec(s)) == s,
    decreases s.len(),
{
    reveal_strlit("&amp;");
    reveal_strlit("&lt;");
    reveal_strlit("&gt;");
    reveal_strlit("&quot;");
    reveal_strlit("&#39;");
    if s.len() == 0 {
        assert(escape_html_spec(s).len() == 0);
    } else {
        let c = s[0];
        let rest = escape_html_spec(s.drop_first());
        let head = html_escape_char(c);
        let t = head + rest;
        assert(escape_html_spec(s) == t);
        unescape_after_escape(s.drop_first());
        assert(t.skip(head.len() as int) =~= rest);
        assert(t.take(head.len() as int) =~= head);
        assert(t[0] == head[0]);
        if c == '&' {
            assert(starts_with(t, "&amp;"@));
        } else if c == '<' {
            assert(t[1] == 'l');
            assert(!starts_with(t, "&amp;"@)) by {
                if starts_with(t, "&amp;"@) {
                    assert(t.take(5)[1] == 'a');
                }
            }
            assert(starts_with(t, "&lt;"@));
        } else if c == '>' {
            assert(t[1] == 'g');
            assert(!starts_with(t, "&amp;"@)) by {
                if starts_with(t, "&amp;"@) {
                    assert(t.take(5)[1] == 'a');
                }
            }
            assert(!starts_with(t, "&lt;"@)) by {
                if starts_with(t, "&lt;"@) {
                    assert(t.take(4)[1] == 'l');
                }
            }
            assert(starts_with(t, "&gt;"@));
        } else if c == '"' {
            assert(t[1] == 'q');
            assert(!starts_with(t, "&amp;"@)) by {
                if starts_with(t, "&amp;"@) {
                    assert(t.take(5)[1] == 'a');
                }
            }
            assert(!starts_with(t, "&lt;"@)) by {
                if starts_with(t, "&lt;"@) {
                    assert(t.take(4)[1] == 'l');
                }
            }
            assert(!starts_with(t, "&gt;"@)) by {
                if starts_with(t, "&gt;"@) {
                    assert(t.take(4)[1] == 'g');
                }
            }
            assert(starts_with(t, "&quot;"@));
        } else if c == '\'' {
            assert(t[1] == '#');
            assert(!starts_with(t, "&amp;"@)) by {
                if starts_with(t, "&amp;"@) {
                    assert(t.take(5)[1] == 'a');
                }
            }
            assert(!starts_with(t, "&lt;"@)) by {
                if starts_with(t, "&lt;"@) {
                    assert(t.take(4)[1] == 'l');
                }
            }
            assert(!starts_with(t, "&gt;"@)) by {
                if starts_with(t, "&gt;"@) {
                    assert(t.take(4)[1] == 'g');
                }
            }
            assert(!starts_with(t, "&quot;"@)) by {
                if starts_with(t, "&quot;"@) {
                    assert(t.take(6)[1] == 'q');
                }
            }
            assert(starts_with(t, "&#39;"@));
        } else {
            assert(head =~= seq![c]);
            assert(t[0] == c);
            assert(!starts_with(t, "&amp;"@)) by {
                if starts_with(t, "&amp;"@) {
                    assert(t.take(5)[0] == '&');
                }
            }
            assert(!starts_with(t, "&lt;"@)) by {
                if starts_with(t, "&lt;"@) {
                    assert(t.take(4)[0] == '&');
                }
            }
            assert(!starts_with(t, "&gt;"@)) by {
                if starts_with(t, "&gt;"@) {
                    assert(t.take(4)[0] == '&');
                }
            }
            assert(!starts_with(t, "&quot;"@)) by {
                if starts_with(t, "&quot;"@) {
                    assert(t.take(6)[0] == '&');
                }
            }
            assert(!starts_with(t, "&#39;"@)) by {
                if starts_with(t, "&#39;"@) {
                    assert(t.take(5)[0] == '&');
                }
            }
            assert(t.drop_first() =~= rest);
            assert(seq![c] + s.drop_first() =~= s);
        }
        if c == '&' || c == '<' || c == '>' || c == '"' || c == '\'' {
            assert(seq![c] + s.drop_first() =~= s);
        }
    }
}

proof fn lemma_status_name_has_no_line_break(status: crate::protocol::Status)
    ensures
        !has_line_break(status_name(status)),
{
    reveal_strlit("started");
    reveal_strlit("progress");
    reveal_strlit("completed");
    reveal_strlit("failed");
}

/// With a validated configuration and a validated notification the subject
/// line holds no line break, so no agent text can add a mail header.
pub proof fn subject_has_no_line_break(config: Config, listen_ok: bool, n: Notification)
    requires
        crate::config::config_is_valid(config, listen_ok),
        crate::protocol::notification_is_valid(n),
    ensures
        !has_line_break(subject_spec(config.subject_prefix@, n)),
{
    reveal_strlit(" [");
    reveal_strlit("] ");
    reveal_strlit(": ");
    lemma_status_name_has_no_line_break(n.status);
    assert(!has_line_break(" ["@));
    assert(!has_line_break("] "@));
    assert(!has_line_break(": "@));
    let p = config.subject_prefix@;
    lemma_line_break_concat(p, " ["@);
    lemma_line_break_concat(p + " ["@, status_name(n.status));
    lemma_line_break_concat(p + " ["@ + status_name(n.status), "] "@);
    lemma_line_break_concat(p + " ["@ + status_name(n.status) + "] "@, n.task_id@);
    lemma_line_break_concat(p + " ["@ + status_name(n.status) + "] "@ + n.task_id@, ": "@);
    lemma_line_break_concat(
        p + " ["@ + status_name(n.status) + "] "@ + n.task_id@ + ": "@,
        n.summary@,
    );
}

/// `t` ends with `suffix`.
pub open spec fn ends_with(t: Seq<char>, suffix: Seq<char>) -> bool {
    t.len() >= suffix.len() && t.skip(t.len() - suffix.len()) == suffix
}

/// The plain-text body opens with the task, status and summary lines and,
/// whenever the notification has details, ends with the details section,
/// whatever its progress; without details it ends with the progress line,
/// or with the summary when there is no progress either.
pub proof fn text_body_sections(n: Notification)
    ensures
        starts_with(
            text_body_spec(n),
            "Task: "@ + n.task_id@ + "\nStatus: "@ + status_name(n.status) + "\nSummary: "@
                + n.summary@,
        ),
        n.details matches Some(d) ==> ends_with(text_body_spec(n), "\n\nDetails:\n"@ + d@),
        n.details is None && n.progress is Some ==> ends_with(
            text_body_spec(n),
            "\nProgress: "@ + decimal(n.progress->0 as nat) + "%"@,
        ),
        n.details is None && n.progress is None ==> ends_with(text_body_spec(n), n.summary@),
{
    let head = "Task: "@ + n.task_id@ + "\nStatus: "@ + status_name(n.status) + "\nSummary: "@
        + n.summary@;
    let progress = match n.progress {
        Some(p) => "\nProgress: "@ + decimal(p as nat) + "%"@,
        None => Seq::<char>::empty(),
    };
    let details = match n.details {
        Some(d) => "\n\nDetails:\n"@ + d@,
        None => Seq::<char>::empty(),
    };
    let body = text_body_spec(n);
    assert(body =~= head + progress + details);
    assert(body.take(head.len() as int) =~= head);
    assert(body.skip(body.len() - details.len()) =~= details);
    if n.details is None {
        assert(body =~= head + progress);
        assert(body.skip(body.len() - progress.len()) =~= progress);
        if n.progress is None {
            let front = "Task: "@ + n.task_id@ + "\nStatus: "@ + status_name(n.status)
                + "\nSummary: "@;
            assert(body =~= front + n.summary@);
            assert(body.skip(body.len() - n.summary@.len()) =~= n.summary@);
        }
    }
}

/// Whenever the notification has details, the HTML body ends with them,
/// escaped, in a preformatted block, whatever its progress.
pub proof fn html_body_ends_with_details(n: Notification)
    ensures
        n.details matches Some(d) ==> ends_with(
            html_body_spec(n),
            "<h2>Details</h2><pre>"@ + escape_html_spec(d@) + "</pre>"@,
        ),
{
    if n.details is Some {
        let d = n.details->0;
        let tail = "<h2>Details</h2><pre>"@ + escape_html_spec(d@) + "</pre>"@;
        let body = html_body_spec(n);
        let front = body.take(body.len() - tail.len());
        assert(body =~= front + tail);
        assert(body.skip(body.len() - tail.len()) =~= tail);
    }
}

} // verus!
