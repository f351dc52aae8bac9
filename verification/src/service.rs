//! The decisions of the local HTTP service: which endpoint a request
//! reaches, which request bodies it reads, and when a progress mail goes
//! out or is held back.

use vstd::prelude::*;

use crate::protocol::{
    notification_is_valid, notification_problem, valid_notifications_are_bounded, Notification,
    Request, Response, Status, MAX_REQUEST_BYTES,
};
use crate::text::{
    chars_of, decimal, decimal_string, has_line_break, owned, same_text, utf8_len,
};

verus! {

/// The HTTP methods the service tells apart.
#[derive(Clone, Copy, Debug, PartialEq, Eq)]
pub enum HttpMethod {
    Get,
    Post,
    Other,
}

/// Where a request goes.
#[derive(Clone, Copy, Debug, PartialEq, Eq)]
pub enum Endpoint {
    /// `GET /healthz`
    HealthCheck,
    /// `POST /healthz`
    HealthRequest,
    /// `POST /v1/notify`
    Notify,
    /// Anything else.
    NotFound,
}

/// What the service does with a notify request.
#[derive(Debug)]
pub enum Action {
    /// Answer at once.
    Reply(Response),
    /// Send the mail, then answer with what `after_delivery` says.
    Deliver(Notification),
}

/// The time of the last progress mail sent for each task, in nanoseconds
/// on the service's monotonic clock.
pub struct ProgressLog {
    entries: Vec<(String, u128)>,
}

/// The endpoint for a method and path.
pub open spec fn route_spec(method: HttpMethod, url: Seq<char>) -> Endpoint {
    if method == HttpMethod::Get && url == "/healthz"@ {
        Endpoint::HealthCheck
    } else if method == HttpMethod::Post && url == "/healthz"@ {
        Endpoint::HealthRequest
    } else if method == HttpMethod::Post && url == "/v1/notify"@ {
        Endpoint::Notify
    } else {
        Endpoint::NotFound
    }
}

/// A character with ASCII upper case folded to lower case.
pub open spec fn ascii_lower(c: char) -> char {
    if 'A' <= c <= 'Z' {
        ((c as u32) + 32) as char
    } else {
        c
    }
}

/// Equality up to ASCII case.
pub open spec fn eq_ignore_ascii_case(a: Seq<char>, b: Seq<char>) -> bool {
    &&& a.len() == b.len()
    &&& forall|i: int| 0 <= i < a.len() ==> ascii_lower(#[trigger] a[i]) == ascii_lower(b[i])
}

/// A header field name that is `Content-Type` up to ASCII case.
pub open spec fn is_content_type_field(field: Seq<char>) -> bool {
    eq_ignore_ascii_case(field, "Content-Type"@)
}

/// A header value whose part before the first `;` is `application/json`.
pub open spec fn media_type_is_json(value: Seq<char>) -> bool {
    let json = "application/json"@;
    &&& value.len() >= json.len()
    &&& value.take(json.len() as int) == json
    &&& (value.len() == json.len() || value[json.len() as int] == ';')
}

/// The first `Content-Type` header, in the order given, names JSON.
pub open spec fn content_type_is_json_spec(headers: Seq<(String, String)>) -> bool {
    exists|i: int|
        0 <= i < headers.len() && is_content_type_field(#[trigger] headers[i].0@) && (forall|j: int|
            0 <= j < i ==> !is_content_type_field(#[trigger] headers[j].0@)) && media_type_is_json(
            headers[i].1@,
        )
}

/// The message for a request over the size limit.
pub open spec fn too_large_message() -> Seq<char> {
    "request exceeds "@ + decimal(MAX_REQUEST_BYTES as nat) + " bytes"@
}

/// What the service makes of a request's declared length and headers
/// before it reads the body: the length to read, or why not.
pub open spec fn request_head_outcome(
    body_length: Option<usize>,
    headers: Seq<(String, String)>,
) -> Result<usize, Seq<char>> {
    match body_length {
        None => Err("Content-Length is required"@),
        Some(length) => if length > MAX_REQUEST_BYTES {
            Err(too_large_message())
        } else if !content_type_is_json_spec(headers) {
            Err("Content-Type must be application/json"@)
        } else {
            Ok(length)
        },
    }
}

/// The nanoseconds from `previous` to `now` (none when `now` is earlier).
pub open spec fn elapsed(previous: u128, now: u128) -> int {
    if now >= previous {
        now - previous
    } else {
        0
    }
}

/// A progress mail recorded at `previous` is more recent than `interval_secs`.
pub open spec fn too_soon(previous: Option<u128>, now: u128, interval_secs: u64) -> bool {
    match previous {
        Some(p) => elapsed(p, now) < interval_secs * 1_000_000_000,
        None => false,
    }
}

/// The reply to a health request, as `(ok, message)`.
pub open spec fn health_reply(parsed: Result<Request, String>) -> (bool, Seq<char>) {
    match parsed {
        Err(m) => (false, m@),
        Ok(Request::Health) => (true, "service is ready"@),
        Ok(Request::Notify(_)) => (false, "health endpoint only accepts health requests"@),
    }
}

/// The immediate reply to a notify request, as `(ok, message)`; `None` when
/// the mail is to be sent.
pub open spec fn notify_reply(
    parsed: Result<Request, String>,
    log: Map<Seq<char>, u128>,
    interval_secs: u64,
    now: u128,
) -> Option<(bool, Seq<char>)> {
    match parsed {
        Err(m) => Some((false, m@)),
        Ok(Request::Health) => Some((false, "notify endpoint only accepts notify requests"@)),
        Ok(Request::Notify(n)) => if !notification_is_valid(n) {
            Some((false, notification_problem(n)->0))
        } else if n.status == Status::Progress && too_soon(
            if log.contains_key(n.task_id@) {
                Some(log[n.task_id@])
            } else {
                None
            },
            now,
            interval_secs,
        ) {
            Some((true, "progress notification suppressed by service interval"@))
        } else {
            None
        },
    }
}

/// The log after a mail for `task_id` with `status` was sent at `now`.
pub open spec fn log_after_sending(
    log: Map<Seq<char>, u128>,
    task_id: Seq<char>,
    status: Status,
    now: u128,
) -> Map<Seq<char>, u128> {
    match status {
        Status::Progress => log.insert(task_id, now),
        Status::Completed | Status::Failed => log.remove(task_id),
        Status::Started => log,
    }
}

/// No task id occurs twice among the entries.
pub open spec fn distinct_tasks(entries: Seq<(String, u128)>) -> bool {
    forall|i: int, j: int|
        0 <= i < entries.len() && 0 <= j < entries.len() && i != j ==> #[trigger] entries[i].0@
            != #[trigger] entries[j].0@
}

/// The entries hold `task_id`.
pub open spec fn holds_task(entries: Seq<(String, u128)>, task_id: Seq<char>) -> bool {
    exists|i: int| 0 <= i < entries.len() && #[trigger] entries[i].0@ == task_id
}

/// The entries as a map from task id to time.
pub open spec fn times_of(entries: Seq<(String, u128)>) -> Map<Seq<char>, u128> {
    Map::new(
        |task_id: Seq<char>| holds_task(entries, task_id),
        |task_id: Seq<char>|
            entries[choose|i: int| 0 <= i < entries.len() && #[trigger] entries[i].0@ == task_id].1,
    )
}

proof fn lemma_entry_time(entries: Seq<(String, u128)>, i: int)
    requires
        distinct_tasks(entries),
        0 <= i < entries.len(),
    ensures
        times_of(entries).contains_key(entries[i].0@),
        times_of(entries)[entries[i].0@] == entries[i].1,
{
    let k = entries[i].0@;
    assert(holds_task(entries, k));
    let p = choose|p: int| 0 <= p < entries.len() && #[trigger] entries[p].0@ == k;
    if p != i {
        assert(entries[p].0@ != entries[i].0@);
    }
}

proof fn lemma_set_entry(entries: Seq<(String, u128)>, i: int, e: (String, u128))
    requires
        distinct_tasks(entries),
        0 <= i < entries.len(),
        e.0@ == entries[i].0@,
    ensures
        distinct_tasks(entries.update(i, e)),
        times_of(entries.update(i, e)) == times_of(entries).insert(e.0@, e.1),
{
    let u = entries.update(i, e);
    assert(distinct_tasks(u)) by {
        assert forall|a: int, b: int|
            0 <= a < u.len() && 0 <= b < u.len() && a != b implies #[trigger] u[a].0@
            != #[trigger] u[b].0@ by {
            assert(entries[a].0@ != entries[b].0@);
        }
    }
    assert forall|k: Seq<char>| #[trigger]
        times_of(u).contains_key(k) == times_of(entries).insert(e.0@, e.1).contains_key(k) by {
        if holds_task(u, k) {
            let a = choose|a: int| 0 <= a < u.len() && #[trigger] u[a].0@ == k;
            assert(entries[a].0@ == k);
        }
        if holds_task(entries, k) {
            let a = choose|a: int| 0 <= a < entries.len() && #[trigger] entries[a].0@ == k;
            assert(u[a].0@ == k);
        }
        if k == e.0@ {
            assert(u[i].0@ == k);
        }
    }
    assert forall|k: Seq<char>| #[trigger] times_of(u).contains_key(k) implies times_of(u)[k]
        == times_of(entries).insert(e.0@, e.1)[k] by {
        let a = choose|a: int| 0 <= a < u.len() && #[trigger] u[a].0@ == k;
        lemma_entry_time(u, a);
        if a != i {
            lemma_entry_time(entries, a);
        }
    }
    assert(times_of(u) =~= times_of(entries).insert(e.0@, e.1));
}

proof fn lemma_push_entry(entries: Seq<(String, u128)>, e: (String, u128))
    requires
        distinct_tasks(entries),
        !holds_task(entries, e.0@),
    ensures
        distinct_tasks(entries.push(e)),
        times_of(entries.push(e)) == times_of(entries).insert(e.0@, e.1),
{
    let u = entries.push(e);
    let n = entries.len() as int;
    assert(distinct_tasks(u)) by {
        assert forall|a: int, b: int|
            0 <= a < u.len() && 0 <= b < u.len() && a != b implies #[trigger] u[a].0@
            != #[trigger] u[b].0@ by {
            if a < n && b < n {
                assert(entries[a].0@ != entries[b].0@);
            } else if a < n {
                assert(entries[a].0@ != e.0@);
            } else {
                assert(entries[b].0@ != e.0@);
            }
        }
    }
    assert forall|k: Seq<char>| #[trigger]
        times_of(u).contains_key(k) == times_of(entries).insert(e.0@, e.1).contains_key(k) by {
        if holds_task(u, k) {
            let a = choose|a: int| 0 <= a < u.len() && #[trigger] u[a].0@ == k;
            if a < n {
                assert(entries[a].0@ == k);
            }
        }
        if holds_task(entries, k) {
            let a = choose|a: int| 0 <= a < entries.len() && #[trigger] entries[a].0@ == k;
            assert(u[a].0@ == k);
        }
        if k == e.0@ {
            assert(u[n].0@ == k);
        }
    }
    assert forall|k: Seq<char>| #[trigger] times_of(u).contains_key(k) implies times_of(u)[k]
        == times_of(entries).insert(e.0@, e.1)[k] by {
        let a = choose|a: int| 0 <= a < u.len() && #[trigger] u[a].0@ == k;
        lemma_entry_time(u, a);
        if a < n {
            lemma_entry_time(entries, a);
        }
    }
    assert(times_of(u) =~= times_of(entries).insert(e.0@, e.1));
}

proof fn lemma_remove_entry(entries: Seq<(String, u128)>, i: int)
    requires
        distinct_tasks(entries),
        0 <= i < entries.len(),
    ensures
        distinct_tasks(entries.remove(i)),
        times_of(entries.remove(i)) == times_of(entries).remove(entries[i].0@),
{
    let u = entries.remove(i);
    let k0 = entries[i].0@;
    assert(distinct_tasks(u)) by {
        assert forall|a: int, b: int|
            0 <= a < u.len() && 0 <= b < u.len() && a != b implies #[trigger] u[a].0@
            != #[trigger] u[b].0@ by {
            let a2 = if a < i { a } else { a + 1 };
            let b2 = if b < i { b } else { b + 1 };
            assert(u[a] == entries[a2]);
            assert(u[b] == entries[b2]);
            assert(entries[a2].0@ != entries[b2].0@);
        }
    }
    assert forall|k: Seq<char>| #[trigger]
        times_of(u).contains_key(k) == times_of(entries).remove(k0).contains_key(k) by {
        if holds_task(u, k) {
            let a = choose|a: int| 0 <= a < u.len() && #[trigger] u[a].0@ == k;
            let a2 = if a < i { a } else { a + 1 };
            assert(u[a] == entries[a2]);
            assert(entries[a2].0@ == k);
            assert(a2 != i);
            assert(entries[a2].0@ != entries[i].0@);
        }
        if holds_task(entries, k) && k != k0 {
            let a = choose|a: int| 0 <= a < entries.len() && #[trigger] entries[a].0@ == k;
            assert(a != i);
            if a < i {
                assert(u[a] == entries[a]);
                assert(u[a].0@ == k);
            } else {
                assert(u[a - 1] == entries[a]);
                assert(u[a - 1].0@ == k);
            }
        }
    }
    assert forall|k: Seq<char>| #[trigger] times_of(u).contains_key(k) implies times_of(u)[k]
        == times_of(entries).remove(k0)[k] by {
        let a = choose|a: int| 0 <= a < u.len() && #[trigger] u[a].0@ == k;
        let a2 = if a < i { a } else { a + 1 };
        assert(u[a] == entries[a2]);
        lemma_entry_time(u, a);
        lemma_entry_time(entries, a2);
    }
    assert(times_of(u) =~= times_of(entries).remove(k0));
}

/// Where the entry for `task_id` stands, if there is one.
fn find_task(entries: &Vec<(String, u128)>, task_id: &str) -> (r: Option<usize>)
    ensures
        r matches Some(i) ==> i < entries@.len() && entries@[i as int].0@ == task_id@,
        r is None ==> !holds_task(entries@, task_id@),
{
    let mut i: usize = 0;
    while i < entries.len()
        invariant
            i <= entries@.len(),
            forall|j: int| 0 <= j < i ==> #[trigger] entries@[j].0@ != task_id@,
        decreases entries.len() - i,
    {
        if same_text(entries[i].0.as_str(), task_id) {
            return Some(i);
        }
        i = i + 1;
    }
    None
}

impl ProgressLog {
    #[verifier::type_invariant]
    spec fn keys_are_distinct(self) -> bool {
        distinct_tasks(self.entries@)
    }

    /// An empty log.
    pub fn new() -> (log: ProgressLog)
        ensures
            log@ == Map::<Seq<char>, u128>::empty(),
    {
        let log = ProgressLog { entries: Vec::new() };
        assert(log@ =~= Map::<Seq<char>, u128>::empty());
        log
    }

    /// The time of the last progress mail for `task_id`, if any.
    pub fn last_progress(&self, task_id: &str) -> (r: Option<u128>)
        ensures
            r matches Some(t) ==> self@.contains_key(task_id@) && self@[task_id@] == t,
            r is None ==> !self@.contains_key(task_id@),
    {
        proof {
            use_type_invariant(self);
        }
        match find_task(&self.entries, task_id) {
            Some(i) => {
                proof {
                    lemma_entry_time(self.entries@, i as int);
                }
                Some(self.entries[i].1)
            },
            None => None,
        }
    }

    /// Forgets the progress mails of `task_id`.
    pub fn forget(&mut self, task_id: &str)
        ensures
            final(self)@ == old(self)@.remove(task_id@),
    {
        proof {
            use_type_invariant(&*self);
        }
        let mut entries: Vec<(String, u128)> = Vec::new();
        std::mem::swap(&mut entries, &mut self.entries);
        match find_task(&entries, task_id) {
            Some(i) => {
                proof {
                    lemma_remove_entry(entries@, i as int);
                }
                entries.remove(i);
            },
            None => {
                proof {
                    assert(times_of(entries@) =~= times_of(entries@).remove(task_id@));
                }
            },
        }
        self.entries = entries;
    }

    /// Records a progress mail for `task_id` at `now`.
    pub fn record(&mut self, task_id: &str, now: u128)
        ensures
            final(self)@ == old(self)@.insert(task_id@, now),
    {
        proof {
            use_type_invariant(&*self);
        }
        let mut entries: Vec<(String, u128)> = Vec::new();
        std::mem::swap(&mut entries, &mut self.entries);
        match find_task(&entries, task_id) {
            Some(i) => {
                let e = (owned(task_id), now);
                proof {
                    lemma_set_entry(entries@, i as int, e);
                }
                entries.set(i, e);
            },
            None => {
                let e = (owned(task_id), now);
                proof {
                    lemma_push_entry(entries@, e);
                }
                entries.push(e);
            },
        }
        self.entries = entries;
    }
}

impl View for ProgressLog {
    type V = Map<Seq<char>, u128>;

    closed spec fn view(&self) -> Map<Seq<char>, u128> {
        times_of(self.entries@)
    }
}

/// The endpoint for a method and path.
pub fn route(method: HttpMethod, url: &str) -> (e: Endpoint)
    ensures
        e == route_spec(method, url@),
{
    let health = same_text(url, "/healthz");
    let notify = same_text(url, "/v1/notify");
    match method {
        HttpMethod::Get => if health {
            Endpoint::HealthCheck
        } else {
            Endpoint::NotFound
        },
        HttpMethod::Post => if health {
            Endpoint::HealthRequest
        } else if notify {
            Endpoint::Notify
        } else {
            Endpoint::NotFound
        },
        HttpMethod::Other => Endpoint::NotFound,
    }
}

/// A character with ASCII upper case folded to lower case.
fn to_ascii_lower(c: char) -> (r: char)
    ensures
        r == ascii_lower(c),
{
    if 'A' <= c && c <= 'Z' {
        let u = (c as u32) + 32;
        char_from_ascii(u as u8)
    } else {
        c
    }
}

/// The character of an ASCII byte.
fn char_from_ascii(b: u8) -> (c: char)
    requires
        b < 128,
    ensures
        c as u32 == b as u32,
{
    b as char
}

/// Whether `field` is `Content-Type` up to ASCII case.
fn is_content_type(field: &str) -> (r: bool)
    ensures
        r == is_content_type_field(field@),
{
    let a = chars_of(field);
    let b = chars_of("Content-Type");
    if a.len() != b.len() {
        return false;
    }
    let mut i: usize = 0;
    while i < a.len()
        invariant
            a@ == field@,
            b@ == "Content-Type"@,
            a.len() == b.len(),
            i <= a.len(),
            forall|j: int| 0 <= j < i ==> ascii_lower(#[trigger] a@[j]) == ascii_lower(b@[j]),
        decreases a.len() - i,
    {
        if to_ascii_lower(a[i]) != to_ascii_lower(b[i]) {
            return false;
        }
        i = i + 1;
    }
    true
}

/// Whether a header value names the JSON media type before any `;`.
fn names_json(value: &str) -> (r: bool)
    ensures
        r == media_type_is_json(value@),
{
    let v = chars_of(value);
    let json = chars_of("application/json");
    let n = json.len();
    if v.len() < n {
        return false;
    }
    let mut i: usize = 0;
    while i < n
        invariant
            v@ == value@,
            json@ == "application/json"@,
            n == json.len(),
            n <= v.len(),
            i <= n,
            forall|j: int| 0 <= j < i ==> v@[j] == json@[j],
        decreases n - i,
    {
        if v[i] != json[i] {
            proof {
                assert(value@.take(n as int)[i as int] != json@[i as int]);
            }
            return false;
        }
        i = i + 1;
    }
    assert(value@.take(n as int) =~= json@);
    v.len() == n || v[n] == ';'
}

/// Whether the first `Content-Type` header, in the order given, names JSON.
pub fn content_type_is_json(headers: &Vec<(String, String)>) -> (r: bool)
    ensures
        r == content_type_is_json_spec(headers@),
{
    let mut i: usize = 0;
    while i < headers.len()
        invariant
            i <= headers@.len(),
            forall|j: int| 0 <= j < i ==> !is_content_type_field(#[trigger] headers@[j].0@),
        decreases headers.len() - i,
    {
        if is_content_type(headers[i].0.as_str()) {
            let r = names_json(headers[i].1.as_str());
            proof {
                if content_type_is_json_spec(headers@) {
                    let k = choose|k: int|
                        0 <= k < headers@.len() && is_content_type_field(#[trigger] headers@[k].0@)
                            && (forall|j: int|
                            0 <= j < k ==> !is_content_type_field(#[trigger] headers@[j].0@))
                            && media_type_is_json(headers@[k].1@);
                    if k < i {
                    } else if k > i {
                        assert(!is_content_type_field(headers@[i as int].0@));
                    }
                }
            }
            return r;
        }
        i = i + 1;
    }
    false
}

/// The message for a request over the size limit.
fn too_large() -> (m: String)
    ensures
        m@ == too_large_message(),
{
    let mut m = owned("request exceeds ");
    let digits = decimal_string(MAX_REQUEST_BYTES as u64);
    m.append(digits.as_str());
    m.append(" bytes");
    m
}

/// Checks a request's declared length and headers before its body is read:
/// the length to read, or the message that refuses the request.
pub fn check_request_head(body_length: Option<usize>, headers: &Vec<(String, String)>) -> (r:
    Result<usize, String>)
    ensures
        match (r, request_head_outcome(body_length, headers@)) {
            (Ok(n), Ok(m)) => n == m,
            (Err(e), Err(m)) => e@ == m,
            _ => false,
        },
{
    match body_length {
        None => Err(owned("Content-Length is required")),
        Some(length) => {
            if length > MAX_REQUEST_BYTES {
                Err(too_large())
            } else if !content_type_is_json(headers) {
                Err(owned("Content-Type must be application/json"))
            } else {
                Ok(length)
            }
        },
    }
}

/// Checks what reading the body gave: its length, or the read error.
pub fn check_request_body(read: Result<usize, String>) -> (r: Result<(), String>)
    ensures
        r is Ok <==> (read matches Ok(n) && n <= MAX_REQUEST_BYTES),
        r matches Err(e) ==> match read {
            Ok(_) => e@ == too_large_message(),
            Err(detail) => e@ == "cannot read request: "@ + detail@,
        },
{
    match read {
        Err(detail) => {
            let mut m = owned("cannot read request: ");
            m.append(detail.as_str());
            Err(m)
        },
        Ok(n) => if n > MAX_REQUEST_BYTES {
            Err(too_large())
        } else {
            Ok(())
        },
    }
}

/// The message for a body that is no valid request; `detail` is the
/// parser's description.
pub fn invalid_request(detail: &str) -> (m: String)
    ensures
        m@ == "invalid request: "@ + detail@,
{
    let mut m = owned("invalid request: ");
    m.append(detail);
    m
}

/// Whether a progress mail recorded at `previous` is more recent than
/// `interval_secs` at `now` (times in nanoseconds).
pub fn progress_is_too_soon(previous: Option<u128>, now: u128, interval_secs: u64) -> (r: bool)
    ensures
        r == too_soon(previous, now, interval_secs),
{
    match previous {
        Some(p) => {
            let elapsed: u128 = if now >= p {
                now - p
            } else {
                0
            };
            elapsed < (interval_secs as u128) * 1_000_000_000
        },
        None => false,
    }
}

/// The answer to `GET /healthz`.
pub fn health_check() -> (r: Response)
    ensures
        r.ok,
        r.message@ == "service is ready"@,
{
    Response::ok("service is ready")
}

/// The answer to a path the service does not serve.
pub fn not_found() -> (r: Response)
    ensures
        !r.ok,
        r.message@ == "not found"@,
{
    Response::error("not found")
}

/// The HTTP status that carries `response`: 200 when it is a success, 400
/// otherwise. (Unknown paths are answered 404.)
pub fn http_status(response: &Response) -> (code: u16)
    ensures
        code == if response.ok {
            200u16
        } else {
            400u16
        },
{
    if response.ok {
        200
    } else {
        400
    }
}

/// The answer to `POST /healthz`; `parsed` is the request read from the
/// body, or the message that refused it.
pub fn handle_health_request(parsed: Result<Request, String>) -> (r: Response)
    ensures
        (r.ok, r.message@) == health_reply(parsed),
{
    match parsed {
        Err(m) => Response::error(m.as_str()),
        Ok(Request::Health) => Response::ok("service is ready"),
        Ok(Request::Notify(_)) => Response::error("health endpoint only accepts health requests"),
    }
}

/// What to do with `POST /v1/notify`: answer at once (a refusal, or a held
/// back progress mail), or send the mail. `log` holds the last progress
/// mail of each task; `now` is the time in nanoseconds.
pub fn handle_notify_request(
    parsed: Result<Request, String>,
    log: &ProgressLog,
    interval_secs: u64,
    now: u128,
) -> (a: Action)
    ensures
        match (a, notify_reply(parsed, log@, interval_secs, now)) {
            (Action::Reply(r), Some((ok, message))) => r.ok == ok && r.message@ == message,
            (Action::Deliver(n), None) => parsed == Ok::<Request, String>(Request::Notify(n)),
            _ => false,
        },
{
    match parsed {
        Err(m) => Action::Reply(Response::error(m.as_str())),
        Ok(Request::Health) => Action::Reply(
            Response::error("notify endpoint only accepts notify requests"),
        ),
        Ok(Request::Notify(notification)) => {
            match notification.validate() {
                Err(m) => {
                    return Action::Reply(Response::error(m.as_str()));
                },
                Ok(()) => {},
            }
            let is_progress = match notification.status {
                Status::Progress => true,
                _ => false,
            };
            if is_progress && progress_is_too_soon(
                log.last_progress(notification.task_id.as_str()),
                now,
                interval_secs,
            ) {
                return Action::Reply(
                    Response::ok("progress notification suppressed by service interval"),
                );
            }
            Action::Deliver(notification)
        },
    }
}

/// The answer once the mail for `notification` went out with `outcome` at
/// `now`; a sent progress mail is recorded, a sent final mail forgets the
/// task, and a failed send changes nothing.
pub fn after_delivery(
    log: &mut ProgressLog,
    notification: &Notification,
    outcome: Result<(), String>,
    now: u128,
) -> (r: Response)
    ensures
        outcome is Ok ==> final(log)@ == log_after_sending(
            old(log)@,
            notification.task_id@,
            notification.status,
            now,
        ),
        outcome is Err ==> final(log)@ == old(log)@,
        r.ok == outcome is Ok,
        r.message@ == match outcome {
            Ok(()) => "notification sent"@,
            Err(m) => m@,
        },
{
    match outcome {
        Err(m) => Response::error(m.as_str()),
        Ok(()) => {
            match notification.status {
                Status::Progress => log.record(notification.task_id.as_str(), now),
                Status::Completed | Status::Failed => log.forget(notification.task_id.as_str()),
                Status::Started => {},
            }
            Response::ok("notification sent")
        },
    }
}

/// The URL of a path of the local service, for the command-line client.
pub fn client_url(path: &str) -> (url: String)
    ensures
        url@ == "http://127.0.0.1:9109"@ + path@,
{
    let mut url = owned("http://127.0.0.1:9109");
    url.append(path);
    url
}

/// The answer to a progress mail that is held back.
pub open spec fn held_back_reply() -> (bool, Seq<char>) {
    (true, "progress notification suppressed by service interval"@)
}

/// Started, completed and failed mails are never held back by the
/// interval: a valid one is always sent.
pub proof fn only_progress_is_held_back(
    n: Notification,
    log: Map<Seq<char>, u128>,
    interval_secs: u64,
    now: u128,
)
    requires
        n.status != Status::Progress,
        notification_is_valid(n),
    ensures
        notify_reply(Ok(Request::Notify(n)), log, interval_secs, now) is None,
{
}

/// After a progress mail for a task went out at `sent`, a valid progress
/// mail for the same task within the interval is held back, and one at or
/// after the end of the interval goes out.
pub proof fn progress_within_interval_is_held_back(
    log: Map<Seq<char>, u128>,
    sent: u128,
    n: Notification,
    interval_secs: u64,
    now: u128,
)
    requires
        n.status == Status::Progress,
        notification_is_valid(n),
        sent <= now,
    ensures
        notify_reply(
            Ok(Request::Notify(n)),
            log_after_sending(log, n.task_id@, Status::Progress, sent),
            interval_secs,
            now,
        ) == if now - sent < interval_secs * 1_000_000_000 {
            Some(held_back_reply())
        } else {
            None::<(bool, Seq<char>)>
        },
{
    let after = log_after_sending(log, n.task_id@, Status::Progress, sent);
    assert(after.contains_key(n.task_id@) && after[n.task_id@] == sent);
}

/// Once a task's completed or failed mail went out, its next progress mail
/// is not held back.
pub proof fn final_mail_ends_throttling(
    log: Map<Seq<char>, u128>,
    task_id: Seq<char>,
    final_status: Status,
    sent: u128,
    n: Notification,
    interval_secs: u64,
    now: u128,
)
    requires
        final_status == Status::Completed || final_status == Status::Failed,
        n.task_id@ == task_id,
        notification_is_valid(n),
    ensures
        notify_reply(
            Ok(Request::Notify(n)),
            log_after_sending(log, task_id, final_status, sent),
            interval_secs,
            now,
        ) is None,
{
    assert(!log_after_sending(log, task_id, final_status, sent).contains_key(task_id));
}

/// Mail for one task does not change how another task is throttled.
pub proof fn tasks_are_throttled_apart(
    log: Map<Seq<char>, u128>,
    sent_task: Seq<char>,
    status: Status,
    sent: u128,
    other: Seq<char>,
)
    requires
        sent_task != other,
    ensures
        log_after_sending(log, sent_task, status, sent).contains_key(other) == log.contains_key(
            other,
        ),
        log.contains_key(other) ==> log_after_sending(log, sent_task, status, sent)[other]
            == log[other],
{
}

/// One notify request whose body parsed as a notification, as the service
/// handled it: `handle_notify_request` looked at it at `start`, and when the
/// mail went out, `after_delivery` ran at `finish` with the send's outcome
/// (`delivered` when Cloudflare accepted the mail).
pub struct HandledNotify {
    pub notification: Notification,
    pub start: u128,
    pub finish: u128,
    pub delivered: bool,
}

/// Whether the service sends the mail for `e` when its log is `log`.
pub open spec fn mail_goes_out(
    e: HandledNotify,
    log: Map<Seq<char>, u128>,
    interval_secs: u64,
) -> bool {
    notify_reply(Ok(Request::Notify(e.notification)), log, interval_secs, e.start) is None
}

/// The progress log before the `k`-th of `events`, starting from an empty log.
pub open spec fn log_before(events: Seq<HandledNotify>, interval_secs: u64, k: nat) -> Map<
    Seq<char>,
    u128,
>
    decreases k,
{
    if k == 0 || k > events.len() {
        Map::<Seq<char>, u128>::empty()
    } else {
        let log = log_before(events, interval_secs, (k - 1) as nat);
        let e = events[k - 1];
        if mail_goes_out(e, log, interval_secs) && e.delivered {
            log_after_sending(log, e.notification.task_id@, e.notification.status, e.finish)
        } else {
            log
        }
    }
}

/// The service's clock never runs back: each request is handled after the
/// one before it, and finishes no earlier than it starts.
pub open spec fn in_clock_order(events: Seq<HandledNotify>) -> bool {
    &&& forall|m: int| 0 <= m < events.len() ==> #[trigger] events[m].start <= events[m].finish
    &&& forall|m: int| 0 <= m < events.len() - 1 ==> #[trigger] events[m].finish <= events[m + 1].start
}

/// The `m`-th event is a sent and accepted completed or failed mail for `task_id`.
pub open spec fn ends_task(
    events: Seq<HandledNotify>,
    interval_secs: u64,
    m: int,
    task_id: Seq<char>,
) -> bool {
    let e = events[m];
    &&& mail_goes_out(e, log_before(events, interval_secs, m as nat), interval_secs)
    &&& e.delivered
    &&& e.notification.task_id@ == task_id
    &&& (e.notification.status == Status::Completed || e.notification.status == Status::Failed)
}

proof fn lemma_progress_time_kept(
    events: Seq<HandledNotify>,
    interval_secs: u64,
    j: int,
    m: int,
    task_id: Seq<char>,
)
    requires
        0 <= j < m <= events.len(),
        in_clock_order(events),
        events[j].notification.status == Status::Progress,
        events[j].notification.task_id@ == task_id,
        events[j].delivered,
        mail_goes_out(events[j], log_before(events, interval_secs, j as nat), interval_secs),
        forall|q: int| j < q < m ==> !ends_task(events, interval_secs, q, task_id),
    ensures
        log_before(events, interval_secs, m as nat).contains_key(task_id),
        events[j].finish <= log_before(events, interval_secs, m as nat)[task_id],
        log_before(events, interval_secs, m as nat)[task_id] <= events[m - 1].finish,
    decreases m - j,
{
    if m == j + 1 {
    } else {
        lemma_progress_time_kept(events, interval_secs, j, m - 1, task_id);
        let prev = log_before(events, interval_secs, (m - 1) as nat);
        let e = events[m - 1];
        assert(events[m - 2].finish <= events[m - 1].start);
        assert(events[m - 1].start <= events[m - 1].finish);
        assert(!ends_task(events, interval_secs, m - 1, task_id));
        if mail_goes_out(e, prev, interval_secs) && e.delivered {
            if e.notification.task_id@ == task_id {
                assert(e.notification.status != Status::Completed && e.notification.status
                    != Status::Failed);
            }
        }
    }
}

/// Over any run of handled notify requests from an empty log: once a
/// progress mail for a task went out and was accepted, every later valid
/// progress mail for that task that starts within the interval of the first
/// one's start is held back (not sent), unless a completed or failed mail
/// for the task went out and was accepted in between.
pub proof fn progress_is_throttled_across_requests(
    events: Seq<HandledNotify>,
    interval_secs: u64,
    j: int,
    k: int,
)
    requires
        0 <= j < k < events.len(),
        in_clock_order(events),
        events[j].notification.status == Status::Progress,
        events[j].delivered,
        mail_goes_out(events[j], log_before(events, interval_secs, j as nat), interval_secs),
        events[k].notification.status == Status::Progress,
        events[k].notification.task_id@ == events[j].notification.task_id@,
        notification_is_valid(events[k].notification),
        events[k].start < events[j].start + interval_secs * 1_000_000_000,
        forall|q: int|
            j < q < k ==> !ends_task(events, interval_secs, q, events[j].notification.task_id@),
    ensures
        !mail_goes_out(events[k], log_before(events, interval_secs, k as nat), interval_secs),
        notify_reply(
            Ok(Request::Notify(events[k].notification)),
            log_before(events, interval_secs, k as nat),
            interval_secs,
            events[k].start,
        ) == Some(held_back_reply()),
{
    let t = events[j].notification.task_id@;
    lemma_progress_time_kept(events, interval_secs, j, k, t);
    assert(events[k - 1].finish <= events[k].start);
    assert(events[j].start <= events[j].finish);
}

/// Whatever its status, a notification that breaks a protocol rule is
/// refused with that rule's message and never sent; so every notification
/// the service sends keeps the protocol's size and line limits.
pub proof fn invalid_notifications_are_never_sent(
    n: Notification,
    log: Map<Seq<char>, u128>,
    interval_secs: u64,
    now: u128,
)
    ensures
        notification_problem(n) matches Some(m) ==> notify_reply(
            Ok(Request::Notify(n)),
            log,
            interval_secs,
            now,
        ) == Some((false, m)),
        notify_reply(Ok(Request::Notify(n)), log, interval_secs, now) is None ==> {
            &&& 1 <= utf8_len(n.task_id@) <= 128
            &&& !has_line_break(n.task_id@)
            &&& 1 <= utf8_len(n.summary@) <= 512
            &&& !has_line_break(n.summary@)
            &&& (n.details matches Some(d) ==> utf8_len(d@) <= 32768)
            &&& (n.progress matches Some(p) ==> p <= 100)
        },
{
    if notify_reply(Ok(Request::Notify(n)), log, interval_secs, now) is None {
        valid_notifications_are_bounded(n);
    }
}

/// The part of a header value before its first `;` (all of it when there
/// is none), as `split(';').next()` gives it.
pub open spec fn before_semicolon(v: Seq<char>) -> Seq<char>
    decreases v.len(),
{
    if v.len() == 0 {
        v
    } else if v[0] == ';' {
        Seq::<char>::empty()
    } else {
        seq![v[0]] + before_semicolon(v.drop_first())
    }
}

proof fn lemma_before_semicolon(v: Seq<char>)
    ensures
        before_semicolon(v).len() <= v.len(),
        v.take(before_semicolon(v).len() as int) == before_semicolon(v),
        forall|i: int| 0 <= i < before_semicolon(v).len() ==> #[trigger] before_semicolon(v)[i] != ';',
        before_semicolon(v).len() < v.len() ==> v[before_semicolon(v).len() as int] == ';',
    decreases v.len(),
{
    if v.len() > 0 && v[0] != ';' {
        let rest = v.drop_first();
        lemma_before_semicolon(rest);
        let b = before_semicolon(v);
        let br = before_semicolon(rest);
        assert(b == seq![v[0]] + br);
        assert(v.take(b.len() as int) =~= seq![v[0]] + rest.take(br.len() as int));
        assert forall|i: int| 0 <= i < b.len() implies #[trigger] b[i] != ';' by {
            if i > 0 {
                assert(b[i] == br[i - 1]);
            }
        }
        if b.len() < v.len() {
            assert(v[b.len() as int] == rest[br.len() as int]);
        }
    } else if v.len() > 0 {
        assert(v.take(0) =~= Seq::<char>::empty());
    }
}

/// A `Content-Type` value names JSON exactly when its part before the first
/// `;` is `application/json`; so `application/json` followed by `;` and any
/// parameters is accepted.
pub proof fn json_media_type_is_the_part_before_semicolon(v: Seq<char>, params: Seq<char>)
    ensures
        media_type_is_json(v) == (before_semicolon(v) == "application/json"@),
        media_type_is_json("application/json"@ + ";"@ + params),
{
    reveal_strlit("application/json");
    reveal_strlit(";");
    let json = "application/json"@;
    lemma_before_semicolon(v);
    let b = before_semicolon(v);
    if media_type_is_json(v) {
        assert forall|i: int| 0 <= i < json.len() implies #[trigger] json[i] != ';' by {}
        if b.len() < json.len() {
            assert(v[b.len() as int] == json[b.len() as int]);
        } else if b.len() > json.len() {
            assert(b[json.len() as int] == v[json.len() as int]);
        }
        assert(b =~= json);
    }
    if b == json {
        assert(v.take(json.len() as int) == json);
    }
    let w = json + ";"@ + params;
    assert(w.take(json.len() as int) =~= json);
    assert(w[json.len() as int] == ';');
}

} // verus!
