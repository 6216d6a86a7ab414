//! The Nextcloud backend: CalDAV requests, and what is made of the answers.
//!
//! CalDAV has no partial update: every edit fetches the current object, merges
//! the new fields on top of the event or task in it, and puts that back whole.

use vstd::prelude::*;

use crate::backend;
use crate::backend::{AccountData, AccountDataView, EventDraft, EventDraftView, TaskDraft, TaskDraftView};
use crate::compose;
use crate::compose::EventCtx;
use crate::config::{Account, AccountView};
use crate::dav;
use crate::dav::{CalendarInfo, InfoView};
use crate::ical;
use crate::ical::{IcalEvent, IcalTodo, PropertyV, TodoV, When};
use crate::ics;
use crate::model;
use crate::model::{Calendar, CalendarView, Event, EventView, Task, TaskList, TaskListView, TaskView};
use crate::text;
use crate::time;
use crate::time::{Date, Instant, Moment};

verus! {

// ---------------------------------------------------------------------
// Outside functions
// ---------------------------------------------------------------------

/// What base64's standard engine writes for the octets of a text.
pub uninterp spec fn base64_text(s: Seq<char>) -> Seq<char>;

/// `base64::engine::general_purpose::STANDARD.encode` on the octets of a text.
#[verifier::external_body]
pub(crate) fn encode_base64(s: &str) -> (r: String)
    ensures
        r@ == base64_text(s@),
{
    base64::Engine::encode(&base64::engine::general_purpose::STANDARD, s)
}

/// Whether a text has the form of a UUID: 36 lowercase hexadecimal digits and
/// hyphens.
pub open spec fn uuid_form(s: Seq<char>) -> bool {
    &&& s.len() == 36
    &&& forall|i: int|
        0 <= i < s.len() ==> (text::is_digit(#[trigger] s[i]) || 'a' <= s[i] <= 'f' || s[i] == '-')
}

/// `uuid::Uuid::new_v4().to_string()`: a random UUID in its hyphenated form.
/// Which one is chance; only the form is stated.
#[verifier::external_body]
pub(crate) fn fresh_uid() -> (r: String)
    ensures
        uuid_form(r@),
{
    uuid::Uuid::new_v4().to_string()
}

// ---------------------------------------------------------------------
// Connection
// ---------------------------------------------------------------------

/// What an account says of its server, before the password is read.
#[derive(Debug)]
pub struct Settings {
    pub account: String,
    pub server_url: String,
    pub username: String,
    pub app_password_file: String,
}

/// Resolved connection details of one account.
#[derive(Debug)]
pub struct Nc {
    pub base: String,
    pub username: String,
    pub password: String,
}

/// The model of an [`Nc`].
#[verifier::ext_equal]
pub struct NcView {
    pub base: Seq<char>,
    pub username: Seq<char>,
    pub password: Seq<char>,
}

impl View for Nc {
    type V = NcView;

    open spec fn view(&self) -> NcView {
        NcView { base: self.base@, username: self.username@, password: self.password@ }
    }
}

/// What is said of an account that lacks a field.
pub open spec fn missing(account: Seq<char>, field: Seq<char>) -> Seq<char> {
    "["@ + account + "] missing "@ + field
}

/// The first setting that an account lacks, if any.
pub open spec fn missing_setting(a: AccountView) -> Option<Seq<char>> {
    if a.server_url is None {
        Some("server_url"@)
    } else if a.username is None {
        Some("username"@)
    } else if a.app_password_file is None {
        Some("app_password_file"@)
    } else {
        None
    }
}

fn complain_missing(account: &str, field: &str) -> (r: String)
    ensures
        r@ == missing(account@, field@),
{
    let mut out = text::concat3("[", account, "] missing ");
    out.push_str(field);
    out
}

/// The settings of an account, or what it lacks.
pub fn settings(account: &Account) -> (r: Result<Settings, String>)
    ensures
        match r {
            Ok(s) => {
                &&& missing_setting(account.deep_view()) is None
                &&& s.account@ == account.name@
                &&& Some(s.server_url@) == account.deep_view().server_url
                &&& Some(s.username@) == account.deep_view().username
                &&& Some(s.app_password_file@) == account.deep_view().app_password_file
            },
            Err(e) => missing_setting(account.deep_view()) matches Some(field) && e@ == missing(
                account.name@,
                field,
            ),
        },
{
    let server_url = match &account.server_url {
        Some(s) => s.clone(),
        None => return Err(complain_missing(account.name.as_str(), "server_url")),
    };
    let username = match &account.username {
        Some(s) => s.clone(),
        None => return Err(complain_missing(account.name.as_str(), "username")),
    };
    let app_password_file = match &account.app_password_file {
        Some(s) => s.clone(),
        None => return Err(complain_missing(account.name.as_str(), "app_password_file")),
    };
    Ok(Settings { account: account.name.clone(), server_url, username, app_password_file })
}

/// Connection details from the settings and what reading the password file gave:
/// the password without white space around it, the address without slashes at
/// its end.
pub fn connect(s: &Settings, password: Result<String, String>) -> (r: Result<Nc, String>)
    ensures
        match (r, password) {
            (Ok(nc), Ok(p)) => nc@ == (NcView {
                base: text::without_trailing(s.server_url@, '/'),
                username: s.username@,
                password: text::trimmed(p@),
            }),
            (Err(e), Err(cause)) => e@ == "["@ + s.account@ + "] cannot read app_password_file: "@
                + cause@,
            _ => false,
        },
{
    match password {
        Ok(p) => Ok(
            Nc {
                base: text::trim_trailing(s.server_url.as_str(), '/'),
                username: s.username.clone(),
                password: text::trim(p.as_str()),
            },
        ),
        Err(cause) => {
            let mut out = text::concat3(
                "[",
                s.account.as_str(),
                "] cannot read app_password_file: ",
            );
            out.push_str(cause.as_str());
            Err(out)
        },
    }
}

/// The value of the Authorization header.
pub open spec fn authorization(nc: NcView) -> Seq<char> {
    "Basic "@ + base64_text(nc.username + ":"@ + nc.password)
}

/// The value of the Authorization header.
pub fn auth_header(nc: &Nc) -> (r: String)
    ensures
        r@ == authorization(nc@),
{
    let raw = text::concat3(nc.username.as_str(), ":", nc.password.as_str());
    text::concat("Basic ", encode_base64(raw.as_str()).as_str())
}

/// The path of the calendars of a user.
pub open spec fn calendars_path(nc: NcView) -> Seq<char> {
    "/remote.php/dav/calendars/"@ + nc.username + "/"@
}

/// The path of the calendars of the user.
pub fn calendars_url(nc: &Nc) -> (r: String)
    ensures
        r@ == calendars_path(nc@),
{
    text::concat3("/remote.php/dav/calendars/", nc.username.as_str(), "/")
}

/// The address of a path: itself where it is one, else behind the server's.
pub open spec fn resolved(nc: NcView, path: Seq<char>) -> Seq<char> {
    if "http"@.is_prefix_of(path) {
        path
    } else {
        nc.base + path
    }
}

/// The address of a path.
pub fn resolve(nc: &Nc, path: &str) -> (r: String)
    ensures
        r@ == resolved(nc@, path@),
{
    if text::starts_with(path, "http") {
        path.to_owned()
    } else {
        text::concat(nc.base.as_str(), path)
    }
}

/// Whether a status is one of success.
pub open spec fn success(status: u16) -> bool {
    200 <= status < 300
}

/// Whether a status is one of success.
pub fn ok(status: u16) -> (r: bool)
    ensures
        r == success(status),
{
    200 <= status && status < 300
}

// ---------------------------------------------------------------------
// Requests and replies
// ---------------------------------------------------------------------

/// One request to the server.
#[derive(Debug)]
pub struct Request {
    pub method: String,
    pub url: String,
    pub headers: Vec<(String, String)>,
    pub body: String,
}

/// The model of a [`Request`].
#[verifier::ext_equal]
pub struct RequestView {
    pub method: Seq<char>,
    pub url: Seq<char>,
    pub headers: Seq<(Seq<char>, Seq<char>)>,
    pub body: Seq<char>,
}

impl View for Request {
    type V = RequestView;

    open spec fn view(&self) -> RequestView {
        RequestView {
            method: self.method@,
            url: self.url@,
            headers: self.headers.deep_view(),
            body: self.body@,
        }
    }
}

/// The Content-Type header, where there is one.
pub open spec fn content_header(content_type: Option<Seq<char>>) -> Seq<(Seq<char>, Seq<char>)> {
    match content_type {
        Some(ct) => seq![("Content-Type"@, ct)],
        None => Seq::empty(),
    }
}

/// The Depth header of the methods that list.
pub open spec fn depth_header(method: Seq<char>) -> Seq<(Seq<char>, Seq<char>)> {
    if method == "PROPFIND"@ || method == "REPORT"@ {
        seq![("Depth"@, "1"@)]
    } else {
        Seq::empty()
    }
}

/// A request: authorized, with a content type where there is one, and with a
/// depth where it lists.
pub open spec fn request_of(
    nc: NcView,
    method: Seq<char>,
    path: Seq<char>,
    content_type: Option<Seq<char>>,
    body: Seq<char>,
) -> RequestView {
    RequestView {
        method,
        url: resolved(nc, path),
        headers: seq![("Authorization"@, authorization(nc))] + content_header(content_type)
            + depth_header(method),
        body,
    }
}

/// Builds one request. `path` is a full address or a path on the server.
pub fn request(
    nc: &Nc,
    method: &str,
    path: &str,
    content_type: Option<&str>,
    body: String,
) -> (r: Request)
    ensures
        r@ == request_of(nc@, method@, path@, content_type.deep_view(), body@),
{
    let mut headers: Vec<(String, String)> = Vec::new();
    headers.push(("Authorization".to_owned(), auth_header(nc)));
    if let Some(ct) = content_type {
        headers.push(("Content-Type".to_owned(), ct.to_owned()));
    }
    let ghost before = headers.deep_view();
    assert(before == seq![("Authorization"@, authorization(nc@))] + content_header(
        content_type.deep_view(),
    ));
    if text::same(method, "PROPFIND") || text::same(method, "REPORT") {
        headers.push(("Depth".to_owned(), "1".to_owned()));
        assert(headers.deep_view() == before.push(("Depth"@, "1"@)));
    }
    assert(headers.deep_view() == before + depth_header(method@));
    Request { method: method.to_owned(), url: resolve(nc, path), headers, body }
}

impl Request {
    /// What is said when the request could not be sent.
    pub fn failure(&self, cause: &str) -> (r: String)
        ensures
            r@ == self@.method + " "@ + self@.url + ": "@ + cause@,
    {
        let mut out = text::concat3(self.method.as_str(), " ", self.url.as_str());
        out.push_str(": ");
        out.push_str(cause);
        out
    }
}

/// What came of a request: status and body, or why there is none.
pub type Reply = Result<(u16, String), String>;

/// The model of a [`Reply`].
pub open spec fn reply_view(reply: Reply) -> Result<(u16, Seq<char>), Seq<char>> {
    match reply {
        Ok((status, body)) => Ok((status, body@)),
        Err(e) => Err(e@),
    }
}

/// `WHAT: HTTP STATUS`.
pub open spec fn http_error(what: Seq<char>, status: u16) -> Seq<char> {
    what + ": HTTP "@ + text::numeral(status as nat)
}

/// `METHOD HREF`.
pub open spec fn action(method: Seq<char>, href: Seq<char>) -> Seq<char> {
    method + " "@ + href
}

fn say_http_error(what: &str, status: u16) -> (r: String)
    ensures
        r@ == http_error(what@, status),
{
    text::concat3(what, ": HTTP ", text::decimal(status as u64).as_str())
}

fn say_action(method: &str, href: &str) -> (r: String)
    ensures
        r@ == action(method@, href@),
{
    text::concat3(method, " ", href)
}

// ---------------------------------------------------------------------
// Listing
// ---------------------------------------------------------------------

/// The body that asks for the calendars of a user.
pub open spec fn propfind_body() -> Seq<char> {
    "<?xml version=\"1.0\" encoding=\"utf-8\"?>\n<d:propfind xmlns:d=\"DAV:\" xmlns:cal=\"urn:ietf:params:xml:ns:caldav\">\n  <d:prop>\n    <d:displayname/>\n    <d:resourcetype/>\n    <cal:supported-calendar-component-set/>\n    <d:current-user-privilege-set/>\n  </d:prop>\n</d:propfind>"@
}

/// The content type of the requests that list.
pub open spec fn xml_type() -> Seq<char> {
    "application/xml; charset=utf-8"@
}

/// The request that lists the calendars of the user.
pub fn list_calendars_request(nc: &Nc) -> (r: Request)
    ensures
        r@ == request_of(nc@, "PROPFIND"@, calendars_path(nc@), Some(xml_type()), propfind_body()),
{
    request(
        nc,
        "PROPFIND",
        calendars_url(nc).as_str(),
        Some("application/xml; charset=utf-8"),
        "<?xml version=\"1.0\" encoding=\"utf-8\"?>\n<d:propfind xmlns:d=\"DAV:\" xmlns:cal=\"urn:ietf:params:xml:ns:caldav\">\n  <d:prop>\n    <d:displayname/>\n    <d:resourcetype/>\n    <cal:supported-calendar-component-set/>\n    <d:current-user-privilege-set/>\n  </d:prop>\n</d:propfind>".to_owned(),
    )
}

/// What a listing of calendars says: the calendars, or what went wrong.
pub open spec fn listing(reply: Result<(u16, Seq<char>), Seq<char>>) -> Result<
    Seq<InfoView>,
    Seq<char>,
> {
    match reply {
        Err(e) => Err(e),
        Ok((status, body)) => if !success(status) {
            Err(http_error("PROPFIND calendars"@, status))
        } else {
            match dav::xml_reading(body) {
                Ok(nodes) => Ok(dav::infos_of(nodes)),
                Err(e) => Err("bad PROPFIND response: "@ + e),
            }
        },
    }
}

/// Reads the calendars out of the reply to [`list_calendars_request`].
pub fn list_calendars(reply: Reply) -> (r: Result<Vec<CalendarInfo>, String>)
    ensures
        (match r {
            Ok(cals) => Ok(cals.deep_view()),
            Err(e) => Err(e@),
        }) == listing(reply_view(reply)),
{
    match reply {
        Err(e) => Err(e),
        Ok((status, body)) => if !ok(status) {
            Err(say_http_error("PROPFIND calendars", status))
        } else {
            match dav::parse_xml(body.as_str()) {
                Ok(nodes) => Ok(dav::calendar_infos(&nodes)),
                Err(e) => Err(text::concat("bad PROPFIND response: ", e.as_str())),
            }
        },
    }
}

/// The body that asks for the events between two instants.
pub open spec fn events_body(from: Instant, to: Instant) -> Seq<char> {
    "<?xml version=\"1.0\" encoding=\"utf-8\"?>\n<cal:calendar-query xmlns:d=\"DAV:\" xmlns:cal=\"urn:ietf:params:xml:ns:caldav\">\n  <d:prop>\n    <d:getetag/>\n    <cal:calendar-data/>\n  </d:prop>\n  <cal:filter>\n    <cal:comp-filter name=\"VCALENDAR\">\n      <cal:comp-filter name=\"VEVENT\">\n        <cal:time-range start=\""@
        + compose::utc_stamp(from) + "\" end=\""@ + compose::utc_stamp(to)
        + "\"/>\n      </cal:comp-filter>\n    </cal:comp-filter>\n  </cal:filter>\n</cal:calendar-query>"@
}

/// The body that asks for the events between two instants.
pub fn events_report_body(from: Instant, to: Instant) -> (r: String)
    requires
        from.valid(),
        to.valid(),
    ensures
        r@ == events_body(from, to),
{
    let mut out =
        "<?xml version=\"1.0\" encoding=\"utf-8\"?>\n<cal:calendar-query xmlns:d=\"DAV:\" xmlns:cal=\"urn:ietf:params:xml:ns:caldav\">\n  <d:prop>\n    <d:getetag/>\n    <cal:calendar-data/>\n  </d:prop>\n  <cal:filter>\n    <cal:comp-filter name=\"VCALENDAR\">\n      <cal:comp-filter name=\"VEVENT\">\n        <cal:time-range start=\"".to_owned();
    out.push_str(time::format_stamp(from).as_str());
    out.push_str("\" end=\"");
    out.push_str(time::format_stamp(to).as_str());
    out.push_str(
        "\"/>\n      </cal:comp-filter>\n    </cal:comp-filter>\n  </cal:filter>\n</cal:calendar-query>",
    );
    out
}

/// The body that asks for all tasks, done or not; which of them to show is left
/// to the reader.
pub open spec fn todos_body() -> Seq<char> {
    "<?xml version=\"1.0\" encoding=\"utf-8\"?>\n<cal:calendar-query xmlns:d=\"DAV:\" xmlns:cal=\"urn:ietf:params:xml:ns:caldav\">\n  <d:prop>\n    <d:getetag/>\n    <cal:calendar-data/>\n  </d:prop>\n  <cal:filter>\n    <cal:comp-filter name=\"VCALENDAR\">\n      <cal:comp-filter name=\"VTODO\"/>\n    </cal:comp-filter>\n  </cal:filter>\n</cal:calendar-query>"@
}

/// The body that asks for all tasks.
pub fn todos_report_body() -> (r: String)
    ensures
        r@ == todos_body(),
{
    "<?xml version=\"1.0\" encoding=\"utf-8\"?>\n<cal:calendar-query xmlns:d=\"DAV:\" xmlns:cal=\"urn:ietf:params:xml:ns:caldav\">\n  <d:prop>\n    <d:getetag/>\n    <cal:calendar-data/>\n  </d:prop>\n  <cal:filter>\n    <cal:comp-filter name=\"VCALENDAR\">\n      <cal:comp-filter name=\"VTODO\"/>\n    </cal:comp-filter>\n  </cal:filter>\n</cal:calendar-query>".to_owned()
}

/// What the body of a report says: addresses and calendar data, or what is wrong
/// with it.
pub open spec fn report_items(body: Seq<char>) -> Result<Seq<(Seq<char>, Seq<char>)>, Seq<char>> {
    match dav::xml_reading(body) {
        Ok(nodes) => Ok(dav::items_of(nodes)),
        Err(e) => Err("bad REPORT response: "@ + e),
    }
}

/// Extracts addresses and calendar data from the body of a report.
pub fn calendar_data_items(body: &str) -> (r: Result<Vec<(String, String)>, String>)
    ensures
        (match r {
            Ok(items) => Ok(items.deep_view()),
            Err(e) => Err(e@),
        }) == report_items(body@),
{
    match dav::parse_xml(body) {
        Ok(nodes) => Ok(dav::calendar_items(&nodes)),
        Err(e) => Err(text::concat("bad REPORT response: ", e.as_str())),
    }
}

// ---------------------------------------------------------------------
// Fetching
// ---------------------------------------------------------------------

/// What a report asks for.
#[derive(Clone, Copy, Debug, PartialEq, Eq, Structural)]
pub enum Part {
    Events,
    Tasks,
}

/// One report on one calendar, named by its position.
#[derive(Clone, Copy, Debug, PartialEq, Eq, Structural)]
pub struct Step {
    pub calendar: usize,
    pub part: Part,
}

/// The reports on one calendar: events where it takes them, then tasks where it
/// takes them.
pub open spec fn steps_for(info: InfoView, calendar: usize) -> Seq<Step> {
    (if info.supports_vevent {
        seq![Step { calendar, part: Part::Events }]
    } else {
        Seq::empty()
    }) + (if info.supports_vtodo {
        seq![Step { calendar, part: Part::Tasks }]
    } else {
        Seq::empty()
    })
}

/// The reports on calendars, in their order.
pub open spec fn steps(cals: Seq<InfoView>) -> Seq<Step>
    decreases cals.len(),
{
    if cals.len() == 0 {
        Seq::empty()
    } else {
        steps(cals.drop_last()) + steps_for(cals.last(), (cals.len() - 1) as usize)
    }
}

/// The reports on calendars.
pub fn plan(cals: &Vec<CalendarInfo>) -> (r: Vec<Step>)
    ensures
        r@ == steps(cals.deep_view()),
        forall|i: int| 0 <= i < r@.len() ==> (#[trigger] r@[i]).calendar < cals@.len(),
{
    let ghost all = cals.deep_view();
    let mut out: Vec<Step> = Vec::new();
    let mut i: usize = 0;
    while i < cals.len()
        invariant
            i <= cals@.len(),
            all == cals.deep_view(),
            out@ == steps(all.take(i as int)),
            forall|j: int| 0 <= j < out@.len() ==> (#[trigger] out@[j]).calendar < i,
        decreases cals.len() - i,
    {
        let ghost before = out@;
        assert(all.take(i + 1).drop_last() == all.take(i as int));
        assert(all.take(i + 1).last() == cals@[i as int].deep_view());
        if cals[i].supports_vevent {
            out.push(Step { calendar: i, part: Part::Events });
        }
        if cals[i].supports_vtodo {
            out.push(Step { calendar: i, part: Part::Tasks });
        }
        assert(out@ == before + steps_for(all[i as int], i));
        i += 1;
    }
    assert(all.take(i as int) == all);
    out
}

/// The body of a report.
pub open spec fn report_body(part: Part, from: Instant, to: Instant) -> Seq<char> {
    match part {
        Part::Events => events_body(from, to),
        Part::Tasks => todos_body(),
    }
}

/// The request of one report on a calendar.
pub fn report_request(
    nc: &Nc,
    cal: &CalendarInfo,
    part: Part,
    from: Instant,
    to: Instant,
) -> (r: Request)
    requires
        from.valid(),
        to.valid(),
    ensures
        r@ == request_of(
            nc@,
            "REPORT"@,
            cal.href@,
            Some(xml_type()),
            report_body(part, from, to),
        ),
{
    let body = match part {
        Part::Events => events_report_body(from, to),
        Part::Tasks => todos_report_body(),
    };
    request(nc, "REPORT", cal.href.as_str(), Some("application/xml; charset=utf-8"), body)
}

/// What the errors call a part.
pub open spec fn part_label(part: Part) -> Seq<char> {
    match part {
        Part::Events => " (events)"@,
        Part::Tasks => " (tasks)"@,
    }
}

/// What a report says: addresses and calendar data, or what went wrong.
pub open spec fn report_reading(
    account: Seq<char>,
    href: Seq<char>,
    part: Part,
    reply: Result<(u16, Seq<char>), Seq<char>>,
) -> Result<Seq<(Seq<char>, Seq<char>)>, Seq<char>> {
    match reply {
        Err(e) => Err(e),
        Ok((status, body)) => if success(status) {
            report_items(body)
        } else {
            Err(
                http_error("["@ + account + "] "@ + action("REPORT"@, href) + part_label(part), status),
            )
        },
    }
}

/// Reads the reply to a report.
fn read_report(account: &str, href: &str, part: Part, reply: Reply) -> (r: Result<
    Vec<(String, String)>,
    String,
>)
    ensures
        (match r {
            Ok(items) => Ok(items.deep_view()),
            Err(e) => Err(e@),
        }) == report_reading(account@, href@, part, reply_view(reply)),
{
    match reply {
        Err(e) => Err(e),
        Ok((status, body)) => if ok(status) {
            calendar_data_items(body.as_str())
        } else {
            let mut what = text::concat3("[", account, "] ");
            what.push_str(say_action("REPORT", href).as_str());
            what.push_str(
                match part {
                    Part::Events => " (events)",
                    Part::Tasks => " (tasks)",
                },
            );
            Err(say_http_error(what.as_str(), status))
        },
    }
}

/// The event of a calendar object, with its address.
pub open spec fn parsed_event(item: (Seq<char>, Seq<char>)) -> Option<(Seq<char>, ical::EventV)> {
    match ical::first_event(ical::calendar_reading(item.1)) {
        Some(ev) => Some((item.0, ev)),
        None => None,
    }
}

/// The events of calendar objects; those without an event are passed over.
pub open spec fn parsed_events(items: Seq<(Seq<char>, Seq<char>)>) -> Seq<
    (Seq<char>, ical::EventV),
> {
    items.filter_map(|item: (Seq<char>, Seq<char>)| parsed_event(item))
}

/// The task of a calendar object, with its address.
pub open spec fn parsed_todo(item: (Seq<char>, Seq<char>)) -> Option<(Seq<char>, TodoV)> {
    match ical::first_todo(ical::calendar_reading(item.1)) {
        Some(todo) => Some((item.0, todo)),
        None => None,
    }
}

/// The tasks of calendar objects; those without a task are passed over.
pub open spec fn parsed_todos(items: Seq<(Seq<char>, Seq<char>)>) -> Seq<(Seq<char>, TodoV)> {
    items.filter_map(|item: (Seq<char>, Seq<char>)| parsed_todo(item))
}

/// Parses the events of calendar objects.
fn parse_events(items: &Vec<(String, String)>) -> (r: Vec<(String, IcalEvent)>)
    ensures
        r.deep_view() == parsed_events(items.deep_view()),
{
    let ghost all = items.deep_view();
    let mut out: Vec<(String, IcalEvent)> = Vec::new();
    let mut i: usize = 0;
    while i < items.len()
        invariant
            i <= items@.len(),
            all == items.deep_view(),
            out.deep_view() == parsed_events(all.take(i as int)),
        decreases items.len() - i,
    {
        let ghost before = out.deep_view();
        assert(all.take(i + 1).drop_last() == all.take(i as int));
        assert(all.take(i + 1).last() == items@[i as int].deep_view());
        if let Some(ev) = ical::parse_first_event(items[i].1.as_str()) {
            let href = items[i].0.clone();
            out.push((href, ev));
            assert(out.deep_view() == before + seq![(href@, ev.deep_view())]);
        }
        i += 1;
    }
    assert(all.take(i as int) == all);
    out
}

/// Parses the tasks of calendar objects.
fn parse_todos(items: &Vec<(String, String)>) -> (r: Vec<(String, IcalTodo)>)
    ensures
        r.deep_view() == parsed_todos(items.deep_view()),
{
    let ghost all = items.deep_view();
    let mut out: Vec<(String, IcalTodo)> = Vec::new();
    let mut i: usize = 0;
    while i < items.len()
        invariant
            i <= items@.len(),
            all == items.deep_view(),
            out.deep_view() == parsed_todos(all.take(i as int)),
        decreases items.len() - i,
    {
        let ghost before = out.deep_view();
        assert(all.take(i + 1).drop_last() == all.take(i as int));
        assert(all.take(i + 1).last() == items@[i as int].deep_view());
        if let Some(todo) = ical::parse_first_todo(items[i].1.as_str()) {
            let href = items[i].0.clone();
            out.push((href, todo));
            assert(out.deep_view() == before + seq![(href@, todo.deep_view())]);
        }
        i += 1;
    }
    assert(all.take(i as int) == all);
    out
}

/// Whether the alarms of every event can be counted in minutes.
pub open spec fn countable(parsed: Seq<(Seq<char>, ical::EventV)>) -> bool {
    forall|i: int| 0 <= i < parsed.len() ==> model::alarms_fit((#[trigger] parsed[i]).1.alarms)
}

/// Decides [`countable`].
fn are_countable(parsed: &Vec<(String, IcalEvent)>) -> (r: bool)
    ensures
        r == countable(parsed.deep_view()),
{
    let ghost all = parsed.deep_view();
    let mut i: usize = 0;
    while i < parsed.len()
        invariant
            i <= parsed@.len(),
            all == parsed.deep_view(),
            forall|j: int| 0 <= j < i ==> model::alarms_fit((#[trigger] all[j]).1.alarms),
        decreases parsed.len() - i,
    {
        assert(all[i as int] == parsed@[i as int].deep_view());
        if !model::alarms_are_countable(&parsed[i].1) {
            assert(!model::alarms_fit(all[i as int].1.alarms));
            return false;
        }
        i += 1;
    }
    true
}

/// Whether each result is what can be made of the event at its position.
pub open spec fn event_results(
    account: Seq<char>,
    cal: CalendarView,
    parsed: Seq<(Seq<char>, ical::EventV)>,
    results: Seq<Option<EventView>>,
) -> bool {
    &&& results.len() == parsed.len()
    &&& forall|i: int| #![trigger results[i]]
        0 <= i < parsed.len() ==> model::ical_event_read(
            account,
            cal.id,
            cal.summary,
            parsed[i].0,
            parsed[i].1,
            results[i],
        ) && (results[i] matches Some(e) ==> e.wf())
}

/// Whether these are the events that calendar objects hold, in order.
pub open spec fn events_made(
    account: Seq<char>,
    cal: CalendarView,
    parsed: Seq<(Seq<char>, ical::EventV)>,
    made: Seq<EventView>,
) -> bool {
    exists|results: Seq<Option<EventView>>| #[trigger]
        event_results(account, cal, parsed, results) && made == backend::present(results)
}

/// Whether these are the tasks that calendar objects hold, in order.
pub open spec fn tasks_made(
    account: Seq<char>,
    list: TaskListView,
    parsed: Seq<(Seq<char>, TodoV)>,
    made: Seq<TaskView>,
) -> bool {
    &&& made.len() == parsed.len()
    &&& forall|i: int| #![trigger made[i]]
        0 <= i < parsed.len() ==> model::ical_task_read(
            account,
            list.id,
            list.title,
            parsed[i].0,
            parsed[i].1.properties,
            made[i],
        )
}

/// Builds the events that calendar objects hold.
fn make_events(account: &str, cal: &Calendar, parsed: &Vec<(String, IcalEvent)>) -> (r: Vec<Event>)
    requires
        countable(parsed.deep_view()),
    ensures
        events_made(account@, cal.deep_view(), parsed.deep_view(), r.deep_view()),
        backend::events_wf(r.deep_view()),
{
    let ghost all = parsed.deep_view();
    let ghost mut results: Seq<Option<EventView>> = Seq::empty();
    let mut out: Vec<Event> = Vec::new();
    let mut i: usize = 0;
    while i < parsed.len()
        invariant
            i <= parsed@.len(),
            all == parsed.deep_view(),
            countable(all),
            results.len() == i,
            forall|j: int| #![trigger results[j]]
                0 <= j < i ==> model::ical_event_read(
                    account@,
                    cal.deep_view().id,
                    cal.deep_view().summary,
                    all[j].0,
                    all[j].1,
                    results[j],
                ) && (results[j] matches Some(e) ==> e.wf()),
            out.deep_view() == backend::present(results),
            backend::events_wf(out.deep_view()),
        decreases parsed.len() - i,
    {
        let ghost before = out.deep_view();
        assert(all[i as int] == parsed@[i as int].deep_view());
        let made = Event::from_ical(
            account,
            cal.id.as_str(),
            cal.summary.as_str(),
            parsed[i].0.as_str(),
            &parsed[i].1,
        );
        let ghost next = results.push(made.deep_view());
        assert(next.drop_last() == results);
        assert(forall|j: int| 0 <= j < i ==> next[j] == results[j]);
        if let Some(ev) = made {
            out.push(ev);
            assert(out.deep_view() == before + seq![ev.deep_view()]);
        }
        proof {
            results = next;
        }
        i += 1;
    }
    assert(event_results(account@, cal.deep_view(), all, results));
    out
}

/// Builds the tasks that calendar objects hold.
fn make_tasks(account: &str, list: &TaskList, parsed: &Vec<(String, IcalTodo)>) -> (r: Vec<Task>)
    ensures
        tasks_made(account@, list.deep_view(), parsed.deep_view(), r.deep_view()),
{
    let ghost all = parsed.deep_view();
    let mut out: Vec<Task> = Vec::new();
    let mut i: usize = 0;
    while i < parsed.len()
        invariant
            i <= parsed@.len(),
            all == parsed.deep_view(),
            out@.len() == i,
            forall|j: int| #![trigger out.deep_view()[j]]
                0 <= j < i ==> model::ical_task_read(
                    account@,
                    list.deep_view().id,
                    list.deep_view().title,
                    all[j].0,
                    all[j].1.properties,
                    out.deep_view()[j],
                ),
        decreases parsed.len() - i,
    {
        let ghost before = out.deep_view();
        assert(all[i as int] == parsed@[i as int].deep_view());
        if let Some(task) = Task::from_ical(
            account,
            list.id.as_str(),
            list.title.as_str(),
            parsed[i].0.as_str(),
            &parsed[i].1,
        ) {
            out.push(task);
            assert(out.deep_view() == before.push(task.deep_view()));
        }
        i += 1;
    }
    out
}

/// The calendar of a collection.
pub open spec fn calendar_for(account: Seq<char>, info: InfoView) -> CalendarView {
    CalendarView {
        account,
        id: info.href,
        summary: info.displayname,
        access_role: if info.writable {
            "owner"@
        } else {
            "reader"@
        },
        default_reminder_mins: Seq::empty(),
        primary: false,
    }
}

/// The task list of a collection.
pub open spec fn tasklist_for(account: Seq<char>, info: InfoView) -> TaskListView {
    TaskListView { account, id: info.href, title: info.displayname }
}

/// The error of a report, where it failed.
pub open spec fn report_error(reading: Result<Seq<(Seq<char>, Seq<char>)>, Seq<char>>) -> Seq<
    Seq<char>,
> {
    match reading {
        Ok(_) => Seq::empty(),
        Err(e) => seq![e],
    }
}

/// The calendar objects of a report; none where it failed.
pub open spec fn report_objects(
    reading: Result<Seq<(Seq<char>, Seq<char>)>, Seq<char>>,
) -> Seq<(Seq<char>, Seq<char>)> {
    match reading {
        Ok(items) => items,
        Err(_) => Seq::empty(),
    }
}

/// Data and errors gathered so far.
#[verifier::ext_equal]
pub struct Gathered {
    pub data: AccountDataView,
    pub errors: Seq<Seq<char>>,
}

/// How a report changes what has been gathered: its calendar or task list is
/// added in any case, what it lists is added behind what is there, and what went
/// wrong is noted.
pub open spec fn absorbs(
    account: Seq<char>,
    info: InfoView,
    part: Part,
    reply: Result<(u16, Seq<char>), Seq<char>>,
    before: Gathered,
    after: Gathered,
) -> bool {
    let reading = report_reading(account, info.href, part, reply);
    let items = report_objects(reading);
    &&& after.errors == before.errors + report_error(reading)
    &&& match part {
        Part::Events => {
            &&& after.data.calendars == before.data.calendars.push(calendar_for(account, info))
            &&& exists|made: Seq<EventView>| #[trigger]
                events_made(account, calendar_for(account, info), parsed_events(items), made)
                    && after.data.events == before.data.events + made
            &&& after.data.tasklists == before.data.tasklists
            &&& after.data.tasks == before.data.tasks
        },
        Part::Tasks => {
            &&& after.data.tasklists == before.data.tasklists.push(tasklist_for(account, info))
            &&& exists|made: Seq<TaskView>| #[trigger]
                tasks_made(account, tasklist_for(account, info), parsed_todos(items), made)
                    && after.data.tasks == before.data.tasks + made
            &&& after.data.calendars == before.data.calendars
            &&& after.data.events == before.data.events
        },
    }
}

/// Whether the alarms that a report lists can be counted in minutes.
pub open spec fn report_countable(
    account: Seq<char>,
    info: InfoView,
    part: Part,
    reply: Result<(u16, Seq<char>), Seq<char>>,
) -> bool {
    part == Part::Events ==> countable(
        parsed_events(report_objects(report_reading(account, info.href, part, reply))),
    )
}

/// Takes the reply to a report in. Where an alarm lies so far from its event
/// that 64 bits do not hold the minutes, it says `false` and changes nothing.
pub fn absorb(
    account: &str,
    info: &CalendarInfo,
    part: Part,
    reply: Reply,
    data: &mut AccountData,
    errors: &mut Vec<String>,
) -> (r: bool)
    ensures
        r == report_countable(account@, info.deep_view(), part, reply_view(reply)),
        r ==> absorbs(
            account@,
            info.deep_view(),
            part,
            reply_view(reply),
            (Gathered { data: old(data).deep_view(), errors: old(errors).deep_view() }),
            (Gathered { data: final(data).deep_view(), errors: final(errors).deep_view() }),
        ),
        !r ==> *final(data) == *old(data) && *final(errors) == *old(errors),
        backend::events_wf(old(data).deep_view().events) ==> backend::events_wf(
            final(data).deep_view().events,
        ),
{
    let ghost d0 = data.deep_view();
    let ghost e0 = errors.deep_view();
    let reading = read_report(account, info.href.as_str(), part, reply);
    let ghost model_reading = report_reading(
        account@,
        info.deep_view().href,
        part,
        reply_view(reply),
    );
    let (items, error): (Vec<(String, String)>, Option<String>) = match reading {
        Ok(items) => (items, None),
        Err(e) => (Vec::new(), Some(e)),
    };
    assert(items.deep_view() == report_objects(model_reading));
    match part {
        Part::Events => {
            let parsed = parse_events(&items);
            if !are_countable(&parsed) {
                return false;
            }
            let calendar = Calendar {
                account: account.to_owned(),
                id: info.href.clone(),
                summary: info.displayname.clone(),
                access_role: if info.writable {
                    "owner".to_owned()
                } else {
                    "reader".to_owned()
                },
                default_reminder_mins: Vec::new(),
                primary: false,
            };
            assert(calendar.deep_view() =~= calendar_for(account@, info.deep_view()));
            let mut made = make_events(account, &calendar, &parsed);
            let ghost m = made.deep_view();
            data.events.append(&mut made);
            assert(data.events.deep_view() == d0.events + m);
            data.calendars.push(calendar);
            assert(data.calendars.deep_view() == d0.calendars.push(
                calendar_for(account@, info.deep_view()),
            ));
        },
        Part::Tasks => {
            let parsed = parse_todos(&items);
            let list = TaskList {
                account: account.to_owned(),
                id: info.href.clone(),
                title: info.displayname.clone(),
            };
            let mut made = make_tasks(account, &list, &parsed);
            let ghost m = made.deep_view();
            data.tasks.append(&mut made);
            assert(data.tasks.deep_view() == d0.tasks + m);
            data.tasklists.push(list);
            assert(data.tasklists.deep_view() == d0.tasklists.push(
                tasklist_for(account@, info.deep_view()),
            ));
        },
    }
    if let Some(e) = error {
        errors.push(e);
        assert(errors.deep_view() == e0 + seq![e@]);
    } else {
        assert(errors.deep_view() == e0 + Seq::<Seq<char>>::empty());
    }
    true
}

/// The points in time between two midnights, where there are both.
pub open spec fn spanned(start: Option<Moment>, end: Option<Moment>) -> Option<(Instant, Instant)> {
    match (start, end) {
        (Some(m), Some(n)) => Some((m.at(), n.at())),
        _ => None,
    }
}

/// The points in time between two midnights, where there are both.
pub fn span(start: Option<Moment>, end: Option<Moment>) -> (r: Option<(Instant, Instant)>)
    ensures
        r == spanned(start, end),
{
    match (start, end) {
        (Some(m), Some(n)) => Some((m.instant(), n.instant())),
        _ => None,
    }
}

/// The local midnights that bound the days from `from` up to `to`, as points in
/// time; none where the local clock shows no such midnight.
pub fn window(from: time::Date, to: time::Date) -> (r: Option<(Instant, Instant)>)
    requires
        from.valid(),
        to.valid(),
    ensures
        exists|start: Option<Moment>, end: Option<Moment>|
            {
                &&& #[trigger] time::shows(time::clock_reading(from, 0, 0), start)
                &&& #[trigger] time::shows(time::clock_reading(to, 0, 0), end)
                &&& r == spanned(start, end)
            },
        r matches Some((a, b)) ==> {
            &&& a.valid() && b.valid()
            &&& exists|m: Moment, n: Moment|
                {
                    &&& #[trigger] m.at() == a && m.local_date() == from && m.second_of_day() == 0
                    &&& #[trigger] n.at() == b && n.local_date() == to && n.second_of_day() == 0
                }
        },
{
    let start = time::day_start(from);
    let end = time::day_start(to);
    let r = span(start, end);
    assert(r matches Some((a, b)) ==> start->0.at() == a && end->0.at() == b);
    r
}

/// What has been gathered before the first report.
pub open spec fn nothing_gathered() -> Gathered {
    Gathered { data: backend::no_data(), errors: Seq::empty() }
}

/// Whether `states` are what has been gathered before and after each report in
/// turn.
pub open spec fn gathering(
    account: Seq<char>,
    cals: Seq<InfoView>,
    replies: Seq<Result<(u16, Seq<char>), Seq<char>>>,
    states: Seq<Gathered>,
) -> bool {
    &&& states.len() == replies.len() + 1
    &&& states[0] == nothing_gathered()
    &&& forall|i: int| #![trigger states[i]]
        0 <= i < replies.len() ==> absorbs(
            account,
            cals[steps(cals)[i].calendar as int],
            steps(cals)[i].part,
            replies[i],
            states[i],
            states[i + 1],
        )
}

/// The models of replies.
pub open spec fn replies_view(replies: Seq<Reply>) -> Seq<Result<(u16, Seq<char>), Seq<char>>> {
    replies.map_values(|r: Reply| reply_view(r))
}

/// Whether the alarms that all reports list can be counted in minutes.
pub open spec fn all_countable(
    account: Seq<char>,
    cals: Seq<InfoView>,
    replies: Seq<Result<(u16, Seq<char>), Seq<char>>>,
) -> bool {
    forall|i: int| #![trigger replies[i]]
        0 <= i < replies.len() ==> report_countable(
            account,
            cals[steps(cals)[i].calendar as int],
            steps(cals)[i].part,
            replies[i],
        )
}

/// One report taken in: how it changes what has been gathered.
#[verifier::opaque]
spec fn took(
    account: Seq<char>,
    cals: Seq<InfoView>,
    i: int,
    reply: Result<(u16, Seq<char>), Seq<char>>,
    before: Gathered,
    after: Gathered,
) -> bool {
    let step = steps(cals)[i];
    &&& report_countable(account, cals[step.calendar as int], step.part, reply)
    &&& absorbs(account, cals[step.calendar as int], step.part, reply, before, after)
}

proof fn lemma_took(
    account: Seq<char>,
    cals: Seq<InfoView>,
    replies: Seq<Result<(u16, Seq<char>), Seq<char>>>,
    states: Seq<Gathered>,
)
    requires
        states.len() == replies.len() + 1,
        states[0] == nothing_gathered(),
        forall|j: int| #![trigger states[j]]
            0 <= j < replies.len() ==> took(account, cals, j, replies[j], states[j], states[j + 1]),
    ensures
        gathering(account, cals, replies, states),
        all_countable(account, cals, replies),
{
    assert forall|i: int| #![trigger states[i]] 0 <= i < replies.len() implies absorbs(
        account,
        cals[steps(cals)[i].calendar as int],
        steps(cals)[i].part,
        replies[i],
        states[i],
        states[i + 1],
    ) by {
        reveal(took);
    }
    assert forall|i: int| #![trigger replies[i]] 0 <= i < replies.len() implies report_countable(
        account,
        cals[steps(cals)[i].calendar as int],
        steps(cals)[i].part,
        replies[i],
    ) by {
        assert(took(account, cals, i, replies[i], states[i], states[i + 1]));
        reveal(took);
    }
}

/// The Nextcloud backend.
#[derive(Clone, Copy, Debug, PartialEq, Eq, Structural)]
pub struct NextcloudBackend;

impl NextcloudBackend {
    /// Everything shown for an account, from the replies to the reports that
    /// [`plan`] lists. A report that failed leaves what the others gave, and its
    /// error is noted. `None` where an alarm lies so far from its event that 64
    /// bits do not hold the minutes.
    pub fn fetch_account(
        &self,
        account: &Account,
        cals: &Vec<CalendarInfo>,
        replies: Vec<Reply>,
    ) -> (r: Option<(AccountData, Vec<String>)>)
        requires
            replies@.len() == steps(cals.deep_view()).len(),
        ensures
            match r {
                Some((data, errors)) => {
                    &&& all_countable(account.name@, cals.deep_view(), replies_view(replies@))
                    &&& exists|states: Seq<Gathered>|
                        {
                            &&& #[trigger] gathering(
                                account.name@,
                                cals.deep_view(),
                                replies_view(replies@),
                                states,
                            )
                            &&& data.deep_view() == backend::sorted_data(states.last().data)
                            &&& errors.deep_view() == states.last().errors
                        }
                    &&& backend::events_wf(data.deep_view().events)
                },
                None => !all_countable(account.name@, cals.deep_view(), replies_view(replies@)),
            },
    {
        let ghost views = replies_view(replies@);
                let ghost infos = cals.deep_view();
        let plan = plan(cals);
        let mut queue = replies;
        let mut data = AccountData::default();
        let mut errors: Vec<String> = Vec::new();
        let ghost mut states: Seq<Gathered> = seq![nothing_gathered()];
        assert(errors.deep_view() == Seq::<Seq<char>>::empty());
        let n = plan.len();
        let mut i: usize = 0;
        while i < n
            invariant
                i <= n == plan@.len() == replies@.len(),
                queue@ == replies@.skip(i as int),
                views == replies_view(replies@),
                infos == cals.deep_view(),
                plan@ == steps(infos),
                forall|j: int| 0 <= j < plan@.len() ==> (#[trigger] plan@[j]).calendar < cals@.len(),
                backend::events_wf(data.deep_view().events),
                states.len() == i + 1,
                states[0] == nothing_gathered(),
                states.last() == (Gathered {
                    data: data.deep_view(),
                    errors: errors.deep_view(),
                }),
                forall|j: int| #![trigger states[j]]
                    0 <= j < i ==> took(account.name@, infos, j, views[j], states[j], states[j + 1]),
            decreases n - i,
        {
            let reply = queue.remove(0);
            assert(reply == replies@[i as int]);
            assert(queue@ == replies@.skip(i + 1));
            assert(views[i as int] == reply_view(reply));
            let step = plan[i];
            assert(infos[step.calendar as int] == cals@[step.calendar as int].deep_view());
            let taken = absorb(
                account.name.as_str(),
                &cals[step.calendar],
                step.part,
                reply,
                &mut data,
                &mut errors,
            );
            if !taken {
                assert(!report_countable(
                    account.name@,
                    infos[steps(infos)[i as int].calendar as int],
                    steps(infos)[i as int].part,
                    views[i as int],
                ));
                return None;
            }
            let ghost next = states.push(
                Gathered { data: data.deep_view(), errors: errors.deep_view() },
            );
            assert(took(
                account.name@,
                infos,
                i as int,
                views[i as int],
                states.last(),
                next.last(),
            )) by {
                reveal(took);
            }
            assert forall|j: int| #![trigger next[j]] 0 <= j < i + 1 implies took(
                account.name@,
                infos,
                j,
                views[j],
                next[j],
                next[j + 1],
            ) by {
                if j < i {
                    assert(next[j] == states[j]);
                    assert(next[j + 1] == states[j + 1]);
                } else {
                    assert(next[j] == states.last());
                }
            }
            proof {
                states = next;
            }
            i += 1;
        }
        proof {
            lemma_took(account.name@, infos, views, states);
        }
        backend::sort_data(&mut data);
        Some((data, errors))
    }
}

// ---------------------------------------------------------------------
// Changes
// ---------------------------------------------------------------------

/// What an edit comes to once the current object has been asked for.
#[derive(Debug)]
pub enum Edit {
    /// The object to put.
    Put(Request),
    /// The current object could not be had, and why.
    Failed(String),
    /// The sequence number cannot go up.
    OutOfRange,
}

/// The model of an [`Edit`].
pub enum EditView {
    Put(RequestView),
    Failed(Seq<char>),
    OutOfRange,
}

impl View for Edit {
    type V = EditView;

    open spec fn view(&self) -> EditView {
        match self {
            Edit::Put(r) => EditView::Put(r@),
            Edit::Failed(e) => EditView::Failed(e@),
            Edit::OutOfRange => EditView::OutOfRange,
        }
    }
}

/// The request that fetches an object.
pub open spec fn get_request(nc: NcView, href: Seq<char>) -> RequestView {
    request_of(nc, "GET"@, href, None, Seq::empty())
}

/// The request that deletes an object.
pub open spec fn delete_request(nc: NcView, href: Seq<char>) -> RequestView {
    request_of(nc, "DELETE"@, href, None, Seq::empty())
}

/// The request that puts an object.
pub open spec fn put_request(nc: NcView, href: Seq<char>, ics: Seq<char>) -> RequestView {
    request_of(nc, "PUT"@, href, Some("text/calendar; charset=utf-8"@), ics)
}

/// The body of a GET: the text of the object, or what went wrong.
pub open spec fn fetched(href: Seq<char>, reply: Result<(u16, Seq<char>), Seq<char>>) -> Result<
    Seq<char>,
    Seq<char>,
> {
    match reply {
        Err(e) => Err(e),
        Ok((status, body)) => if success(status) {
            Ok(body)
        } else {
            Err(http_error(action("GET"@, href), status))
        },
    }
}

/// The current event: what the reply to a GET holds, or what went wrong.
pub open spec fn current_event(
    href: Seq<char>,
    reply: Result<(u16, Seq<char>), Seq<char>>,
) -> Result<ical::EventV, Seq<char>> {
    match fetched(href, reply) {
        Err(e) => Err(e),
        Ok(body) => match ical::first_event(ical::calendar_reading(body)) {
            Some(ev) => Ok(ev),
            None => Err(action("GET"@, href) + ": no VEVENT in response"@),
        },
    }
}

/// The current task: what the reply to a GET holds, or what went wrong.
pub open spec fn current_todo(
    href: Seq<char>,
    reply: Result<(u16, Seq<char>), Seq<char>>,
) -> Result<TodoV, Seq<char>> {
    match fetched(href, reply) {
        Err(e) => Err(e),
        Ok(body) => match ical::first_todo(ical::calendar_reading(body)) {
            Some(todo) => Ok(todo),
            None => Err(action("GET"@, href) + ": no VTODO in response"@),
        },
    }
}

/// Reads the body of a GET.
fn get_body(href: &str, reply: Reply) -> (r: Result<String, String>)
    ensures
        (match r {
            Ok(body) => Ok(body@),
            Err(e) => Err(e@),
        }) == fetched(href@, reply_view(reply)),
{
    match reply {
        Err(e) => Err(e),
        Ok((status, body)) => if ok(status) {
            Ok(body)
        } else {
            Err(say_http_error(say_action("GET", href).as_str(), status))
        },
    }
}

/// Reads the current event out of the reply to a GET.
pub fn get_event(href: &str, reply: Reply) -> (r: Result<IcalEvent, String>)
    ensures
        (match r {
            Ok(ev) => Ok(ev.deep_view()),
            Err(e) => Err(e@),
        }) == current_event(href@, reply_view(reply)),
{
    match get_body(href, reply) {
        Err(e) => Err(e),
        Ok(body) => match ical::parse_first_event(body.as_str()) {
            Some(ev) => Ok(ev),
            None => Err(
                text::concat(say_action("GET", href).as_str(), ": no VEVENT in response"),
            ),
        },
    }
}

/// Reads the current task out of the reply to a GET.
pub fn get_todo(href: &str, reply: Reply) -> (r: Result<IcalTodo, String>)
    ensures
        (match r {
            Ok(todo) => Ok(todo.deep_view()),
            Err(e) => Err(e@),
        }) == current_todo(href@, reply_view(reply)),
{
    match get_body(href, reply) {
        Err(e) => Err(e),
        Ok(body) => match ical::parse_first_todo(body.as_str()) {
            Some(todo) => Ok(todo),
            None => Err(
                text::concat(say_action("GET", href).as_str(), ": no VTODO in response"),
            ),
        },
    }
}

/// The request that puts an object.
pub fn put_ics_request(nc: &Nc, href: &str, ics: String) -> (r: Request)
    ensures
        r@ == put_request(nc@, href@, ics@),
{
    request(nc, "PUT", href, Some("text/calendar; charset=utf-8"), ics)
}

/// What came of a PUT: success on a status of success alone.
pub open spec fn put_outcome(
    href: Seq<char>,
    reply: Result<(u16, Seq<char>), Seq<char>>,
) -> Result<(), Seq<char>> {
    match reply {
        Err(e) => Err(e),
        Ok((status, _)) => if success(status) {
            Ok(())
        } else {
            Err(http_error(action("PUT"@, href), status))
        },
    }
}

/// What came of a DELETE: success also where the object is already gone.
pub open spec fn delete_outcome(
    href: Seq<char>,
    reply: Result<(u16, Seq<char>), Seq<char>>,
) -> Result<(), Seq<char>> {
    match reply {
        Err(e) => Err(e),
        Ok((status, _)) => if success(status) || status == 404 {
            Ok(())
        } else {
            Err(http_error(action("DELETE"@, href), status))
        },
    }
}

/// Reads the reply to a PUT.
pub fn put_ics(href: &str, reply: Reply) -> (r: Result<(), String>)
    ensures
        (match r {
            Ok(_) => Ok(()),
            Err(e) => Err(e@),
        }) == put_outcome(href@, reply_view(reply)),
{
    match reply {
        Err(e) => Err(e),
        Ok((status, _)) => if ok(status) {
            Ok(())
        } else {
            Err(say_http_error(say_action("PUT", href).as_str(), status))
        },
    }
}

/// Reads the reply to a DELETE; an object that is already gone is no failure.
pub fn delete(href: &str, reply: Reply) -> (r: Result<(), String>)
    ensures
        (match r {
            Ok(_) => Ok(()),
            Err(e) => Err(e@),
        }) == delete_outcome(href@, reply_view(reply)),
{
    match reply {
        Err(e) => Err(e),
        Ok((status, _)) => if ok(status) || status == 404 {
            Ok(())
        } else {
            Err(say_http_error(say_action("DELETE", href).as_str(), status))
        },
    }
}

/// The address of a new object in a collection.
pub open spec fn item_href(collection: Seq<char>, uid: Seq<char>) -> Seq<char> {
    if collection.len() > 0 && collection.last() == '/' {
        collection + uid + ".ics"@
    } else {
        collection + "/"@ + uid + ".ics"@
    }
}

/// The address of a new object in a collection.
pub fn new_item_href(collection_href: &str, uid: &str) -> (r: String)
    ensures
        r@ == item_href(collection_href@, uid@),
{
    let cs = text::chars_of(collection_href);
    let mut out = collection_href.to_owned();
    if !(cs.len() > 0 && cs[cs.len() - 1] == '/') {
        out.push_str("/");
    }
    out.push_str(uid);
    out.push_str(".ics");
    out
}

/// The UID of a task; empty where it has none.
pub open spec fn todo_uid(props: Seq<PropertyV>) -> Seq<char> {
    match ical::value_of(props, "UID"@) {
        Some(uid) => uid,
        None => Seq::empty(),
    }
}

/// The draft of a task as it stands.
pub open spec fn draft_of(task: TaskView) -> TaskDraftView {
    TaskDraftView {
        title: task.title,
        notes: match task.notes {
            Some(notes) => notes,
            None => Seq::empty(),
        },
        due: task.due,
    }
}

/// The request that puts a new event.
pub open spec fn new_event_request(
    nc: NcView,
    calendar_id: Seq<char>,
    d: EventDraftView,
    uid: Seq<char>,
    now: Instant,
) -> RequestView {
    put_request(
        nc,
        item_href(calendar_id, uid),
        compose::vevent_text(d, compose::create_ctx(uid), now),
    )
}

/// What an edit of an event comes to.
pub open spec fn event_edit(
    nc: NcView,
    event_id: Seq<char>,
    d: EventDraftView,
    reply: Result<(u16, Seq<char>), Seq<char>>,
    now: Instant,
) -> EditView {
    match current_event(event_id, reply) {
        Err(e) => EditView::Failed(e),
        Ok(ev) => if compose::sequence_of(ev.properties) < u32::MAX {
            EditView::Put(
                put_request(
                    nc,
                    event_id,
                    compose::vevent_text(d, compose::edit_ctx(ev), now),
                ),
            )
        } else {
            EditView::OutOfRange
        },
    }
}

/// The request that puts a task that is still to do.
pub open spec fn open_task_request(
    nc: NcView,
    href: Seq<char>,
    d: TaskDraftView,
    uid: Seq<char>,
    now: Instant,
) -> RequestView {
    put_request(nc, href, compose::vtodo_text(d, uid, "NEEDS-ACTION"@, Seq::empty(), now))
}

/// What an edit of a task comes to: the draft on top of what it does not say. The
/// task is still to do afterwards.
pub open spec fn task_edit(
    nc: NcView,
    task_id: Seq<char>,
    d: TaskDraftView,
    reply: Result<(u16, Seq<char>), Seq<char>>,
    now: Instant,
) -> EditView {
    match current_todo(task_id, reply) {
        Err(e) => EditView::Failed(e),
        Ok(todo) => EditView::Put(
            put_request(
                nc,
                task_id,
                compose::vtodo_text(
                    d,
                    todo_uid(todo.properties),
                    "NEEDS-ACTION"@,
                    compose::kept_text(todo, true, d.due is Some, Seq::empty()),
                    now,
                ),
            ),
        ),
    }
}

/// The day that a task is due on, where it says a day and no time.
pub open spec fn plain_due(props: Seq<PropertyV>) -> Option<Date> {
    match model::moment_at(props, "DUE"@) {
        When::Day(day) => Some(day),
        _ => None,
    }
}

/// The draft that completing a task writes: the task as it stands. A due time is
/// kept as it is, beside the draft.
pub open spec fn completed_draft(props: Seq<PropertyV>, task: TaskView) -> TaskDraftView {
    TaskDraftView { due: plain_due(props), ..draft_of(task) }
}

/// The request that completing a task comes to: the task as it stands, with the
/// status COMPLETED and the time of completion, and all that it says beside them.
pub open spec fn completion(
    nc: NcView,
    task_id: Seq<char>,
    todo: TodoV,
    task: TaskView,
    done: Instant,
    now: Instant,
) -> RequestView {
    let d = completed_draft(todo.properties, task);
    put_request(
        nc,
        task_id,
        compose::vtodo_text(
            d,
            todo_uid(todo.properties),
            "COMPLETED"@,
            compose::kept_text(todo, d.due is Some, d.due is Some, compose::completed_props(done)),
            now,
        ),
    )
}

/// Whether `r` is what completing a task can come to, whatever the local zone
/// and the time.
pub open spec fn completes(
    nc: NcView,
    account: Seq<char>,
    tasklist_id: Seq<char>,
    task_id: Seq<char>,
    todo: TodoV,
    r: EditView,
) -> bool {
    exists|task: TaskView, done: Instant, now: Instant|
        {
            &&& model::ical_task_read(account, tasklist_id, ""@, task_id, todo.properties, task)
            &&& done.valid() && now.valid()
            &&& r == EditView::Put(#[trigger] completion(nc, task_id, todo, task, done, now))
        }
}

/// Copies the UID of a task.
fn read_todo_uid(todo: &IcalTodo) -> (r: String)
    ensures
        r@ == todo_uid(todo.deep_view().properties),
{
    match ical::ical_value(&todo.properties, "UID") {
        Some(uid) => uid.to_owned(),
        None => String::new(),
    }
}

impl NextcloudBackend {
    /// The request that creates an event under a given UID at a given time.
    pub fn insert_event_at(
        &self,
        nc: &Nc,
        calendar_id: &str,
        draft: &EventDraft,
        uid: String,
        now: Instant,
    ) -> (r: Request)
        requires
            draft.deep_view().ready(),
            now.valid(),
        ensures
            r@ == new_event_request(nc@, calendar_id@, draft.deep_view(), uid@, now),
    {
        let href = new_item_href(calendar_id, uid.as_str());
        let ics = compose::build_vevent(draft, &EventCtx::for_create(uid), now);
        put_ics_request(nc, href.as_str(), ics)
    }

    /// The path of a new event and the request that creates it there, under a new
    /// UID. Path and reply go to [`put_ics`].
    pub fn insert_event(&self, nc: &Nc, calendar_id: &str, draft: &EventDraft) -> (r: (
        String,
        Request,
    ))
        requires
            draft.deep_view().ready(),
        ensures
            exists|uid: Seq<char>, now: Instant|
                {
                    &&& uuid_form(uid) && now.valid()
                    &&& r.0@ == item_href(calendar_id@, uid)
                    &&& r.1@ == #[trigger] new_event_request(
                        nc@,
                        calendar_id@,
                        draft.deep_view(),
                        uid,
                        now,
                    )
                },
    {
        let uid = fresh_uid();
        let now = time::utc_now();
        let ghost u = uid@;
        let href = new_item_href(calendar_id, uid.as_str());
        let request = self.insert_event_at(nc, calendar_id, draft, uid, now);
        assert(request@ == new_event_request(nc@, calendar_id@, draft.deep_view(), u, now));
        (href, request)
    }

    /// The request that an edit of an event starts with.
    pub fn patch_event(&self, nc: &Nc, event_id: &str) -> (r: Request)
        ensures
            r@ == get_request(nc@, event_id@),
    {
        request(nc, "GET", event_id, None, String::new())
    }

    /// What an edit of an event comes to, given the reply to its first request
    /// and the time.
    pub fn patch_event_at(
        &self,
        nc: &Nc,
        event_id: &str,
        draft: &EventDraft,
        reply: Reply,
        now: Instant,
    ) -> (r: Edit)
        requires
            draft.deep_view().ready(),
            now.valid(),
        ensures
            r@ == event_edit(nc@, event_id@, draft.deep_view(), reply_view(reply), now),
    {
        match get_event(event_id, reply) {
            Err(e) => Edit::Failed(e),
            Ok(existing) => if compose::read_sequence(&existing) < u32::MAX {
                let ctx = EventCtx::for_edit(&existing);
                Edit::Put(
                    put_ics_request(nc, event_id, compose::build_vevent(draft, &ctx, now)),
                )
            } else {
                Edit::OutOfRange
            },
        }
    }

    /// What an edit of an event comes to, given the reply to its first request.
    pub fn patch_event_with(
        &self,
        nc: &Nc,
        event_id: &str,
        draft: &EventDraft,
        reply: Reply,
    ) -> (r: Edit)
        requires
            draft.deep_view().ready(),
        ensures
            exists|now: Instant|
                now.valid() && r@ == #[trigger] event_edit(
                    nc@,
                    event_id@,
                    draft.deep_view(),
                    reply_view(reply),
                    now,
                ),
    {
        let now = time::utc_now();
        self.patch_event_at(nc, event_id, draft, reply, now)
    }

    /// The request that deletes an event. The reply goes to [`delete`].
    pub fn delete_event(&self, nc: &Nc, event_id: &str) -> (r: Request)
        ensures
            r@ == delete_request(nc@, event_id@),
    {
        request(nc, "DELETE", event_id, None, String::new())
    }

    /// The request that creates a task under a given UID at a given time.
    pub fn insert_task_at(
        &self,
        nc: &Nc,
        tasklist_id: &str,
        draft: &TaskDraft,
        uid: &str,
        now: Instant,
    ) -> (r: Request)
        requires
            draft.deep_view().ready(),
            now.valid(),
        ensures
            r@ == open_task_request(
                nc@,
                item_href(tasklist_id@, uid@),
                draft.deep_view(),
                uid@,
                now,
            ),
    {
        let href = new_item_href(tasklist_id, uid);
        proof {
            reveal_strlit("");
        }
        assert(""@ == Seq::<char>::empty());
        let ics = compose::build_vtodo(draft, uid, "NEEDS-ACTION", "", now);
        put_ics_request(nc, href.as_str(), ics)
    }

    /// The path of a new task and the request that creates it there, under a new
    /// UID. Path and reply go to [`put_ics`].
    pub fn insert_task(&self, nc: &Nc, tasklist_id: &str, draft: &TaskDraft) -> (r: (
        String,
        Request,
    ))
        requires
            draft.deep_view().ready(),
        ensures
            exists|uid: Seq<char>, now: Instant|
                {
                    &&& uuid_form(uid) && now.valid()
                    &&& r.0@ == item_href(tasklist_id@, uid)
                    &&& r.1@ == #[trigger] open_task_request(
                        nc@,
                        item_href(tasklist_id@, uid),
                        draft.deep_view(),
                        uid,
                        now,
                    )
                },
    {
        let uid = fresh_uid();
        let now = time::utc_now();
        let href = new_item_href(tasklist_id, uid.as_str());
        let request = self.insert_task_at(nc, tasklist_id, draft, uid.as_str(), now);
        (href, request)
    }

    /// The request that an edit of a task starts with.
    pub fn update_task(&self, nc: &Nc, task_id: &str) -> (r: Request)
        ensures
            r@ == get_request(nc@, task_id@),
    {
        request(nc, "GET", task_id, None, String::new())
    }

    /// What an edit of a task comes to, given the reply to its first request and
    /// the time.
    pub fn update_task_at(
        &self,
        nc: &Nc,
        task_id: &str,
        draft: &TaskDraft,
        reply: Reply,
        now: Instant,
    ) -> (r: Edit)
        requires
            draft.deep_view().ready(),
            now.valid(),
        ensures
            r@ == task_edit(nc@, task_id@, draft.deep_view(), reply_view(reply), now),
    {
        match get_todo(task_id, reply) {
            Err(e) => Edit::Failed(e),
            Ok(existing) => {
                let uid = read_todo_uid(&existing);
                let kept = compose::kept_lines(&existing, true, draft.due.is_some());
                let ics = compose::build_vtodo(
                    draft,
                    uid.as_str(),
                    "NEEDS-ACTION",
                    kept.as_str(),
                    now,
                );
                Edit::Put(put_ics_request(nc, task_id, ics))
            },
        }
    }

    /// What an edit of a task comes to, given the reply to its first request.
    /// What the draft does not say is kept; the task is still to do afterwards.
    pub fn update_task_with(&self, nc: &Nc, task_id: &str, draft: &TaskDraft, reply: Reply) -> (r:
        Edit)
        requires
            draft.deep_view().ready(),
        ensures
            exists|now: Instant|
                now.valid() && r@ == #[trigger] task_edit(
                    nc@,
                    task_id@,
                    draft.deep_view(),
                    reply_view(reply),
                    now,
                ),
    {
        let now = time::utc_now();
        self.update_task_at(nc, task_id, draft, reply, now)
    }

    /// The request that completing a task starts with.
    pub fn complete_task(&self, nc: &Nc, task_id: &str) -> (r: Request)
        ensures
            r@ == get_request(nc@, task_id@),
    {
        request(nc, "GET", task_id, None, String::new())
    }

    /// The request that completing a task comes to, given the current object, the
    /// task in it and the time.
    pub fn complete_task_at(
        &self,
        nc: &Nc,
        task_id: &str,
        existing: &IcalTodo,
        task: Task,
        done: Instant,
        now: Instant,
    ) -> (r: Request)
        requires
            done.valid(),
            now.valid(),
        ensures
            r@ == completion(nc@, task_id@, existing.deep_view(), task.deep_view(), done, now),
    {
        let due = match model::read_moment_at(&existing.properties, "DUE") {
            When::Day(day) => Some(day),
            _ => None,
        };
        let draft = TaskDraft {
            title: task.title,
            notes: match task.notes {
                Some(notes) => notes,
                None => String::new(),
            },
            due,
        };
        assert(draft.deep_view() =~= completed_draft(
            existing.deep_view().properties,
            task.deep_view(),
        ));
        let uid = read_todo_uid(existing);
        let kept = compose::kept_and_completed_lines(
            existing,
            due.is_some(),
            due.is_some(),
            done,
        );
        let ics = compose::build_vtodo(&draft, uid.as_str(), "COMPLETED", kept.as_str(), now);
        put_ics_request(nc, task_id, ics)
    }

    /// What completing a task comes to, given the reply to its first request.
    pub fn complete_task_with(
        &self,
        nc: &Nc,
        account: &Account,
        tasklist_id: &str,
        task_id: &str,
        reply: Reply,
    ) -> (r: Edit)
        ensures
            match current_todo(task_id@, reply_view(reply)) {
                Err(e) => r@ == EditView::Failed(e),
                Ok(todo) => completes(nc@, account.name@, tasklist_id@, task_id@, todo, r@),
            },
    {
        match get_todo(task_id, reply) {
            Err(e) => Edit::Failed(e),
            Ok(existing) => {
                match Task::from_ical(account.name.as_str(), tasklist_id, "", task_id, &existing) {
                    None => {
                        let mut out = text::concat3(
                            "[",
                            account.name.as_str(),
                            "] cannot parse existing task at ",
                        );
                        out.push_str(task_id);
                        Edit::Failed(out)
                    },
                    Some(task) => {
                        let done = time::utc_now();
                        let now = time::utc_now();
                        let ghost t = task.deep_view();
                        let r = self.complete_task_at(nc, task_id, &existing, task, done, now);
                        assert(r@ == completion(
                            nc@,
                            task_id@,
                            existing.deep_view(),
                            t,
                            done,
                            now,
                        ));
                        Edit::Put(r)
                    },
                }
            },
        }
    }

    /// The request that deletes a task. The reply goes to [`delete`].
    pub fn delete_task(&self, nc: &Nc, task_id: &str) -> (r: Request)
        ensures
            r@ == delete_request(nc@, task_id@),
    {
        request(nc, "DELETE", task_id, None, String::new())
    }
}

// ---------------------------------------------------------------------
// Laws
// ---------------------------------------------------------------------

/// Deleting what is already gone succeeds.
pub proof fn law_deleting_what_is_gone_succeeds(href: Seq<char>, body: Seq<char>)
    ensures
        delete_outcome(href, Ok((404u16, body))) is Ok,
{
}

/// A report that fails leaves everything that has been gathered, adds its
/// calendar all the same, and notes one error.
pub proof fn law_failed_report_keeps_the_rest(
    account: Seq<char>,
    info: InfoView,
    part: Part,
    reply: Result<(u16, Seq<char>), Seq<char>>,
    before: Gathered,
    after: Gathered,
)
    requires
        absorbs(account, info, part, reply, before, after),
        report_reading(account, info.href, part, reply) is Err,
    ensures
        after.data.events == before.data.events,
        after.data.tasks == before.data.tasks,
        part == Part::Events ==> after.data.calendars == before.data.calendars.push(
            calendar_for(account, info),
        ),
        part == Part::Tasks ==> after.data.tasklists == before.data.tasklists.push(
            tasklist_for(account, info),
        ),
        after.errors.len() == before.errors.len() + 1,
{
    let none = Seq::<(Seq<char>, Seq<char>)>::empty();
    match part {
        Part::Events => {
            let made = choose|made: Seq<EventView>| #[trigger]
                events_made(account, calendar_for(account, info), parsed_events(none), made)
                    && after.data.events == before.data.events + made;
            assert(parsed_events(none).len() == 0);
            let results = choose|results: Seq<Option<EventView>>| #[trigger]
                event_results(account, calendar_for(account, info), parsed_events(none), results)
                    && made == backend::present(results);
            assert(results.len() == 0);
            assert(made.len() == 0);
            assert(before.data.events + made == before.data.events);
        },
        Part::Tasks => {
            let made = choose|made: Seq<TaskView>| #[trigger]
                tasks_made(account, tasklist_for(account, info), parsed_todos(none), made)
                    && after.data.tasks == before.data.tasks + made;
            assert(parsed_todos(none).len() == 0);
            assert(made.len() == 0);
            assert(before.data.tasks + made == before.data.tasks);
        },
    }
}

/// A new object lies in its collection: its address starts with the
/// collection's.
pub proof fn law_new_object_lies_in_its_collection(collection: Seq<char>, uid: Seq<char>)
    ensures
        collection.is_prefix_of(item_href(collection, uid)),
{
    assert(item_href(collection, uid).subrange(0, collection.len() as int) == collection);
}

} // verus!
