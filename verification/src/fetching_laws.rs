//! Laws of fetching: what is asked of a server, and what is made of the documents that
//! it answers with.

use vstd::prelude::*;

use crate::backend;
use crate::backend::AccountDataView;
use crate::caldav;
use crate::caldav::{Gathered, NcView, Part, RequestView, Step};
use crate::config;
use crate::config::{AccountView, Found, Provider};
use crate::dav;
use crate::dav::{InfoView, XmlV};
use crate::ical;
use crate::ical::{EventV, TodoV};
use crate::model;
use crate::model::{CalendarView, EventView, TaskListView, TaskView};
use crate::nextcloud_laws;
use crate::text;
use crate::time;
use crate::time::{Instant, Moment};

verus! {

// ---------------------------------------------------------------------
// Documents
// ---------------------------------------------------------------------

/// Whether a node is an element of a name in a namespace.
pub open spec fn is_tag(n: XmlV, ns: Seq<char>, name: Seq<char>) -> bool {
    n.namespace == Some(ns) && n.name == name
}

/// Whether the node at `k` is the first element of a name.
pub open spec fn first_tag(nodes: Seq<XmlV>, ns: Seq<char>, name: Seq<char>, k: int) -> bool {
    &&& 0 <= k < nodes.len()
    &&& is_tag(nodes[k], ns, name)
    &&& forall|j: int| 0 <= j < k ==> !is_tag(#[trigger] nodes[j], ns, name)
}

/// Whether the node at `k` and what lies in it reach up to `to`: all behind it are
/// deeper, and what stands at `to` is not.
pub open spec fn reaches(nodes: Seq<XmlV>, k: int, to: int) -> bool {
    &&& 0 <= k < to <= nodes.len()
    &&& forall|j: int| k < j < to ==> (#[trigger] nodes[j]).depth > nodes[k].depth
    &&& to < nodes.len() ==> nodes[to].depth <= nodes[k].depth
}

/// Whether the node at `i` is a child of the one at `k`, which reaches up to `to`.
pub open spec fn child(nodes: Seq<XmlV>, k: int, to: int, i: int) -> bool {
    k < i < to && nodes[i].depth == nodes[k].depth + 1
}

proof fn lemma_deeper(nodes: Seq<XmlV>, depth: usize, k: int)
    requires
        0 <= k <= nodes.len(),
        forall|j: int| 0 <= j < k ==> (#[trigger] nodes[j]).depth > depth,
        k < nodes.len() ==> nodes[k].depth <= depth,
    ensures
        dav::deeper(nodes, depth) == k,
    decreases k,
{
    if k > 0 {
        assert(nodes[0].depth > depth);
        let rest = nodes.drop_first();
        assert forall|j: int| 0 <= j < k - 1 implies (#[trigger] rest[j]).depth > depth by {
            assert(rest[j] == nodes[j + 1]);
        }
        if k < nodes.len() {
            assert(rest[k - 1] == nodes[k]);
        }
        lemma_deeper(rest, depth, k - 1);
    }
}

/// The tree of a node is the node and all that follows and is deeper, up to the first
/// node that is not.
pub proof fn law_tree(nodes: Seq<XmlV>, k: int, to: int)
    requires
        reaches(nodes, k, to),
    ensures
        dav::head_tree(nodes.skip(k)) == nodes.subrange(k, to),
{
    let part = nodes.skip(k);
    let rest = part.drop_first();
    assert(part[0] == nodes[k]);
    assert forall|j: int| 0 <= j < to - k - 1 implies (#[trigger] rest[j]).depth > nodes[k].depth by {
        assert(rest[j] == nodes[k + 1 + j]);
    }
    if to < nodes.len() {
        assert(rest[to - k - 1] == nodes[to]);
    }
    lemma_deeper(rest, nodes[k].depth, to - k - 1);
    assert(part.take(to - k) == nodes.subrange(k, to));
}

/// The first element of a name is found wherever it stands, with all that lies in it,
/// and its text with it; where there is none, nothing is found.
pub proof fn law_first_element(nodes: Seq<XmlV>, ns: Seq<char>, name: Seq<char>, k: int, to: int)
    ensures
        first_tag(nodes, ns, name, k) ==> dav::text_in(nodes, ns, name) == nodes[k].text,
        first_tag(nodes, ns, name, k) && reaches(nodes, k, to) ==> dav::first_in(nodes, ns, name)
            == Some(nodes.subrange(k, to)),
        (forall|j: int| !#[trigger] first_tag(nodes, ns, name, j)) ==> {
            &&& dav::first_in(nodes, ns, name) is None
            &&& dav::text_in(nodes, ns, name) is None
        },
    decreases nodes.len(),
{
    if nodes.len() > 0 {
        if is_tag(nodes[0], ns, name) {
            assert(first_tag(nodes, ns, name, 0));
            if first_tag(nodes, ns, name, k) {
                assert(k == 0);
                assert(nodes.skip(0) == nodes);
                let end = lemma_reaches(nodes, 0, 1);
                law_tree(nodes, 0, end);
                if reaches(nodes, k, to) {
                    law_tree(nodes, 0, to);
                }
            }
        } else {
            let rest = nodes.drop_first();
            law_first_element(rest, ns, name, k - 1, to - 1);
            if first_tag(nodes, ns, name, k) {
                assert(rest[k - 1] == nodes[k]);
                assert forall|j: int| 0 <= j < k - 1 implies !is_tag(
                    #[trigger] rest[j],
                    ns,
                    name,
                ) by {
                    assert(rest[j] == nodes[j + 1]);
                }
                if reaches(nodes, k, to) {
                    assert forall|j: int| k - 1 < j < to - 1 implies (#[trigger] rest[j]).depth
                        > rest[k - 1].depth by {
                        assert(rest[j] == nodes[j + 1]);
                    }
                    if to < nodes.len() {
                        assert(rest[to - 1] == nodes[to]);
                    }
                    assert(rest.subrange(k - 1, to - 1) == nodes.subrange(k, to));
                }
            }
            if forall|j: int| !#[trigger] first_tag(nodes, ns, name, j) {
                assert forall|j: int| !#[trigger] first_tag(rest, ns, name, j) by {
                    if first_tag(rest, ns, name, j) {
                        assert forall|i: int| 0 <= i < j + 1 implies !is_tag(
                            #[trigger] nodes[i],
                            ns,
                            name,
                        ) by {
                            if i > 0 {
                                assert(nodes[i] == rest[i - 1]);
                            }
                        }
                        assert(first_tag(nodes, ns, name, j + 1));
                    }
                }
            }
        }
    }
}

/// The value of an attribute is that of the first one of its name.
pub proof fn law_attribute(attributes: Seq<(Seq<char>, Seq<char>)>, name: Seq<char>, k: int)
    ensures
        0 <= k < attributes.len() && attributes[k].0 == name && (forall|j: int|
            0 <= j < k ==> (#[trigger] attributes[j]).0 != name) ==> dav::attribute(
            attributes,
            name,
        ) == Some(attributes[k].1),
        (forall|j: int| 0 <= j < attributes.len() ==> (#[trigger] attributes[j]).0 != name)
            ==> dav::attribute(attributes, name) is None,
    decreases attributes.len(),
{
    if attributes.len() > 0 {
        let rest = attributes.drop_first();
        law_attribute(rest, name, k - 1);
        assert(forall|j: int| 0 <= j < rest.len() ==> rest[j] == attributes[j + 1]);
    }
}

// ---------------------------------------------------------------------
// Calendars of a multistatus
// ---------------------------------------------------------------------

/// A response describes a calendar where its resource type has a child that says so.
pub proof fn law_calendar_collection(response: Seq<XmlV>, k: int, to: int)
    ensures
        first_tag(response, "DAV:"@, "resourcetype"@, k) && reaches(response, k, to) ==> (
        dav::is_calendar(response) <==> exists|i: int| #[trigger]
            child(response, k, to, i) && is_tag(
                response[i],
                "urn:ietf:params:xml:ns:caldav"@,
                "calendar"@,
            )),
        (forall|j: int| !#[trigger] first_tag(response, "DAV:"@, "resourcetype"@, j))
            ==> !dav::is_calendar(response),
{
    law_first_element(response, "DAV:"@, "resourcetype"@, k, to);
    if first_tag(response, "DAV:"@, "resourcetype"@, k) && reaches(response, k, to) {
        let tree = response.subrange(k, to);
        assert forall|i: int| #[trigger] child(response, k, to, i) implies dav::child_of_head(
            tree,
            i - k,
        ) && tree[i - k] == response[i] by {}
        assert forall|i: int| #[trigger] dav::child_of_head(tree, i) implies child(
            response,
            k,
            to,
            i + k,
        ) && tree[i] == response[i + k] by {}
    }
}

/// A collection takes a component where its set of components has a child of that
/// name.
pub proof fn law_components(response: Seq<XmlV>, component: Seq<char>, k: int, to: int)
    ensures
        first_tag(
            response,
            "urn:ietf:params:xml:ns:caldav"@,
            "supported-calendar-component-set"@,
            k,
        ) && reaches(response, k, to) ==> (dav::supports(response, component) <==> exists|i: int|
         #[trigger]
            child(response, k, to, i) && is_tag(
                response[i],
                "urn:ietf:params:xml:ns:caldav"@,
                "comp"@,
            ) && dav::attribute(response[i].attributes, "name"@) == Some(component)),
        (forall|j: int|
            !#[trigger] first_tag(
                response,
                "urn:ietf:params:xml:ns:caldav"@,
                "supported-calendar-component-set"@,
                j,
            )) ==> !dav::supports(response, component),
{
    let ns = "urn:ietf:params:xml:ns:caldav"@;
    let name = "supported-calendar-component-set"@;
    law_first_element(response, ns, name, k, to);
    if first_tag(response, ns, name, k) && reaches(response, k, to) {
        let tree = response.subrange(k, to);
        assert forall|i: int| #[trigger] child(response, k, to, i) implies dav::child_of_head(
            tree,
            i - k,
        ) && tree[i - k] == response[i] by {}
        assert forall|i: int| #[trigger] dav::child_of_head(tree, i) implies child(
            response,
            k,
            to,
            i + k,
        ) && tree[i] == response[i + k] by {}
    }
}

/// Whether the element at `j`, which reaches up to `end`, is a privilege to write.
pub open spec fn grants(nodes: Seq<XmlV>, j: int, end: int) -> bool {
    &&& is_tag(nodes[j], "DAV:"@, "privilege"@)
    &&& exists|i: int| #[trigger]
        child(nodes, j, end, i) && (nodes[i].name == "write"@ || nodes[i].name == "write-content"@
            || nodes[i].name == "all"@)
}

proof fn lemma_grants(nodes: Seq<XmlV>, j: int, end: int)
    requires
        reaches(nodes, j, end),
    ensures
        grants(nodes, j, end) <==> is_tag(nodes[j], "DAV:"@, "privilege"@) && dav::grants_write(
            dav::head_tree(nodes.skip(j)),
        ),
{
    law_tree(nodes, j, end);
    let tree = nodes.subrange(j, end);
    assert forall|i: int| #[trigger] child(nodes, j, end, i) implies dav::child_of_head(tree, i - j)
        && tree[i - j] == nodes[i] by {}
    assert forall|i: int| #[trigger] dav::child_of_head(tree, i) implies child(nodes, j, end, i + j)
        && tree[i] == nodes[i + j] by {}
}

/// Every node reaches somewhere.
proof fn lemma_reaches(nodes: Seq<XmlV>, k: int, to: int) -> (end: int)
    requires
        0 <= k < to <= nodes.len(),
        forall|j: int| k < j < to ==> (#[trigger] nodes[j]).depth > nodes[k].depth,
    ensures
        reaches(nodes, k, end),
        to <= end,
    decreases nodes.len() - to,
{
    if to < nodes.len() && nodes[to].depth > nodes[k].depth {
        lemma_reaches(nodes, k, to + 1)
    } else {
        to
    }
}

/// The user may write where one of the privileges in the privilege set is one to
/// write, whichever it is.
pub proof fn law_privileges(set: Seq<XmlV>, j: int, end: int)
    ensures
        reaches(set, j, end) && grants(set, j, end) ==> dav::any_grants_write(set),
        (forall|i: int, to: int| #[trigger] reaches(set, i, to) ==> !grants(set, i, to))
            ==> !dav::any_grants_write(set),
{
    if reaches(set, j, end) && grants(set, j, end) {
        lemma_grants(set, j, end);
        assert(dav::tagged(set[j], dav::dav(), "privilege"@));
    }
    if (forall|i: int, to: int| #[trigger] reaches(set, i, to) ==> !grants(set, i, to))
        && dav::any_grants_write(set) {
        let i = choose|i: int|
            0 <= i < set.len() && dav::tagged(#[trigger] set[i], dav::dav(), "privilege"@)
                && dav::grants_write(dav::head_tree(set.skip(i)));
        let to = lemma_reaches(set, i, i + 1);
        lemma_grants(set, i, to);
    }
}

/// What is known of a calendar is what its response says: its address, which it must
/// have; that it is a calendar, which it must be; its name; whether the user may
/// write; and which components it takes.
pub proof fn law_calendar_of_a_response(response: Seq<XmlV>, k: int, to: int)
    ensures
        dav::info_of(response) is Some <==> dav::text_in(response, "DAV:"@, "href"@) is Some
            && dav::is_calendar(response),
        dav::info_of(response) matches Some(info) ==> {
            &&& dav::text_in(response, "DAV:"@, "href"@) == Some(info.href)
            &&& info.displayname == match dav::text_in(response, "DAV:"@, "displayname"@) {
                Some(s) => s,
                None => Seq::empty(),
            }
            &&& info.supports_vevent == dav::supports(response, "VEVENT"@)
            &&& info.supports_vtodo == dav::supports(response, "VTODO"@)
            &&& first_tag(response, "DAV:"@, "current-user-privilege-set"@, k) && reaches(
                response,
                k,
                to,
            ) ==> info.writable == dav::any_grants_write(response.subrange(k, to))
            &&& (forall|j: int|
                !#[trigger] first_tag(response, "DAV:"@, "current-user-privilege-set"@, j))
                ==> !info.writable
        },
{
    law_first_element(response, "DAV:"@, "current-user-privilege-set"@, k, to);
}

/// A calendar object is the address and the data that its response says; without one
/// of them it is none.
pub proof fn law_object_of_a_response(response: Seq<XmlV>)
    ensures
        dav::item_of(response) == match (
            dav::text_in(response, "DAV:"@, "href"@),
            dav::text_in(response, "urn:ietf:params:xml:ns:caldav"@, "calendar-data"@),
        ) {
            (Some(href), Some(data)) => Some((href, data)),
            _ => None,
        },
{
}

proof fn lemma_filter_map_behind<A, B>(first: A, rest: Seq<A>, f: spec_fn(A) -> Option<B>)
    ensures
        (seq![first] + rest).filter_map(f) == (match f(first) {
            Some(b) => seq![b],
            None => Seq::empty(),
        }) + rest.filter_map(f),
    decreases rest.len(),
{
    let all = seq![first] + rest;
    if rest.len() == 0 {
        assert(all == seq![first]);
        assert(all.drop_last() == Seq::<A>::empty());
        assert(all.drop_last().filter_map(f) == Seq::<B>::empty());
        assert(rest.filter_map(f) == Seq::<B>::empty());
        assert(all.last() == first);
    } else {
        lemma_filter_map_behind(first, rest.drop_last(), f);
        assert(all.drop_last() == seq![first] + rest.drop_last());
        assert(all.last() == rest.last());
        let head = match f(first) {
            Some(b) => seq![b],
            None => Seq::empty(),
        };
        let tail = rest.drop_last().filter_map(f);
        if f(rest.last()) is Some {
            let b = f(rest.last())->0;
            assert(head + tail + seq![b] == head + (tail + seq![b]));
        }
    }
}

/// A multistatus lists the calendars of its responses, each of them, in their order.
pub proof fn law_calendars_of_a_multistatus(nodes: Seq<XmlV>, to: int)
    ensures
        dav::infos_of(Seq::empty()).len() == 0,
        nodes.len() > 0 && !is_tag(nodes[0], "DAV:"@, "response"@) ==> dav::infos_of(nodes)
            == dav::infos_of(nodes.drop_first()),
        reaches(nodes, 0, to) && is_tag(nodes[0], "DAV:"@, "response"@) ==> dav::infos_of(nodes)
            == (match dav::info_of(nodes.subrange(0, to)) {
            Some(info) => seq![info],
            None => Seq::empty(),
        }) + dav::infos_of(nodes.drop_first()),
{
    if nodes.len() > 0 {
        let rest = dav::trees(nodes.drop_first(), "DAV:"@, "response"@);
        if is_tag(nodes[0], "DAV:"@, "response"@) {
            if reaches(nodes, 0, to) {
                law_tree(nodes, 0, to);
                assert(nodes.skip(0) == nodes);
                lemma_filter_map_behind(
                    nodes.subrange(0, to),
                    rest,
                    |t: Seq<XmlV>| dav::info_of(t),
                );
            }
        } else {
            assert(dav::trees(nodes, "DAV:"@, "response"@) == rest);
        }
    }
}

/// A multistatus lists the objects of its responses, each of them, in their order.
pub proof fn law_objects_of_a_multistatus(nodes: Seq<XmlV>, to: int)
    ensures
        dav::items_of(Seq::empty()).len() == 0,
        nodes.len() > 0 && !is_tag(nodes[0], "DAV:"@, "response"@) ==> dav::items_of(nodes)
            == dav::items_of(nodes.drop_first()),
        reaches(nodes, 0, to) && is_tag(nodes[0], "DAV:"@, "response"@) ==> dav::items_of(nodes)
            == (match dav::item_of(nodes.subrange(0, to)) {
            Some(item) => seq![item],
            None => Seq::empty(),
        }) + dav::items_of(nodes.drop_first()),
{
    if nodes.len() > 0 {
        let rest = dav::trees(nodes.drop_first(), "DAV:"@, "response"@);
        if is_tag(nodes[0], "DAV:"@, "response"@) {
            if reaches(nodes, 0, to) {
                law_tree(nodes, 0, to);
                assert(nodes.skip(0) == nodes);
                lemma_filter_map_behind(
                    nodes.subrange(0, to),
                    rest,
                    |t: Seq<XmlV>| dav::item_of(t),
                );
            }
        } else {
            assert(dav::trees(nodes, "DAV:"@, "response"@) == rest);
        }
    }
}

// ---------------------------------------------------------------------
// The server
// ---------------------------------------------------------------------

/// Taking characters off the end takes all of them and nothing else.
pub proof fn law_trailing(kept: Seq<char>, tail: Seq<char>, c: char)
    requires
        kept.len() > 0 ==> kept.last() != c,
        forall|i: int| 0 <= i < tail.len() ==> tail[i] == c,
    ensures
        text::without_trailing(kept + tail, c) == kept,
    decreases tail.len(),
{
    if tail.len() == 0 {
        assert(kept + tail == kept);
    } else {
        assert((kept + tail).last() == tail.last());
        assert((kept + tail).drop_last() == kept + tail.drop_last());
        law_trailing(kept, tail.drop_last(), c);
    }
}

/// A prefix is taken off where it is there, and only there.
pub proof fn law_prefix(p: Seq<char>, rest: Seq<char>, s: Seq<char>)
    ensures
        text::after_prefix(p + rest, p) == Some(rest),
        text::after_prefix(s, p) matches Some(r) ==> s == p + r,
{
    assert((p + rest).subrange(0, p.len() as int) == p);
    assert((p + rest).skip(p.len() as int) == rest);
    if p.is_prefix_of(s) {
        assert(s == p + s.skip(p.len() as int));
    }
}

/// Texts are the same, whatever the case of their letters, where each character is the
/// same or the two are one letter of ASCII in either case.
pub proof fn law_case(a: Seq<char>, b: Seq<char>)
    ensures
        text::same_ignoring_ascii_case(a, b) <==> a.len() == b.len() && forall|i: int|
            0 <= i < a.len() ==> one_letter(#[trigger] a[i], b[i]),
{
    if text::same_ignoring_ascii_case(a, b) {
        assert forall|i: int| 0 <= i < a.len() implies one_letter(#[trigger] a[i], b[i]) by {
            assert(text::ascii_lower(a[i]) == text::ascii_lower(b[i]));
        }
    }
    if a.len() == b.len() && forall|i: int| 0 <= i < a.len() ==> one_letter(#[trigger] a[i], b[i]) {
        assert forall|i: int| 0 <= i < a.len() implies #[trigger] text::ascii_lower(a[i])
            == text::ascii_lower(b[i]) by {
            assert(one_letter(a[i], b[i]));
        }
    }
}

/// Whether two characters are the same or one letter of ASCII in either case.
pub open spec fn one_letter(a: char, b: char) -> bool {
    a == b || ('A' <= a <= 'Z' && b as int == a as int + 32) || ('A' <= b <= 'Z' && a as int == b
        as int + 32)
}

/// An account lacks the first of its three settings that it does not name, and what is
/// said of it names the account and the setting.
pub proof fn law_settings(a: AccountView, field: Seq<char>)
    ensures
        caldav::missing_setting(a) is None <==> a.server_url is Some && a.username is Some
            && a.app_password_file is Some,
        a.server_url is None ==> caldav::missing_setting(a) == Some("server_url"@),
        a.server_url is Some && a.username is None ==> caldav::missing_setting(a) == Some(
            "username"@,
        ),
        a.server_url is Some && a.username is Some && a.app_password_file is None
            ==> caldav::missing_setting(a) == Some("app_password_file"@),
        caldav::missing(a.name, field) == "["@ + a.name + "] missing "@ + field,
{
}

/// The calendars of a user are asked for with their names, their types, what they take
/// and what the user may do with them.
pub proof fn law_calendars_are_asked_for(nc: NcView)
    ensures
        caldav::calendars_path(nc) == "/remote.php/dav/calendars/"@ + nc.username + "/"@,
        caldav::request_of(
            nc,
            "PROPFIND"@,
            caldav::calendars_path(nc),
            Some(caldav::xml_type()),
            caldav::propfind_body(),
        ) == (RequestView {
            method: "PROPFIND"@,
            url: nextcloud_laws::address(
                nc,
                "/remote.php/dav/calendars/"@ + nc.username + "/"@,
            ),
            headers: seq![
                ("Authorization"@, nextcloud_laws::password_header(nc)),
                ("Content-Type"@, "application/xml; charset=utf-8"@),
                ("Depth"@, "1"@),
            ],
            body: "<?xml version=\"1.0\" encoding=\"utf-8\"?>\n<d:propfind xmlns:d=\"DAV:\" xmlns:cal=\"urn:ietf:params:xml:ns:caldav\">\n  <d:prop>\n    <d:displayname/>\n    <d:resourcetype/>\n    <cal:supported-calendar-component-set/>\n    <d:current-user-privilege-set/>\n  </d:prop>\n</d:propfind>"@,
        }),
{
    nextcloud_laws::law_requests(
        nc,
        "PROPFIND"@,
        caldav::calendars_path(nc),
        caldav::xml_type(),
        caldav::propfind_body(),
    );
    let r = caldav::request_of(
        nc,
        "PROPFIND"@,
        caldav::calendars_path(nc),
        Some(caldav::xml_type()),
        caldav::propfind_body(),
    );
    assert(r.headers == seq![
        ("Authorization"@, nextcloud_laws::password_header(nc)),
        ("Content-Type"@, "application/xml; charset=utf-8"@),
        ("Depth"@, "1"@),
    ]);
}

/// What a report asks a calendar for: the events between two points in time, from the
/// first to the second, or all tasks, done or not.
pub proof fn law_reports_ask(nc: NcView, href: Seq<char>, part: Part, from: Instant, to: Instant)
    ensures
        caldav::request_of(
            nc,
            "REPORT"@,
            href,
            Some(caldav::xml_type()),
            caldav::report_body(part, from, to),
        ) == (RequestView {
            method: "REPORT"@,
            url: nextcloud_laws::address(nc, href),
            headers: seq![
                ("Authorization"@, nextcloud_laws::password_header(nc)),
                ("Content-Type"@, "application/xml; charset=utf-8"@),
                ("Depth"@, "1"@),
            ],
            body: if part == Part::Events {
                "<?xml version=\"1.0\" encoding=\"utf-8\"?>\n<cal:calendar-query xmlns:d=\"DAV:\" xmlns:cal=\"urn:ietf:params:xml:ns:caldav\">\n  <d:prop>\n    <d:getetag/>\n    <cal:calendar-data/>\n  </d:prop>\n  <cal:filter>\n    <cal:comp-filter name=\"VCALENDAR\">\n      <cal:comp-filter name=\"VEVENT\">\n        <cal:time-range start=\""@
                    + nextcloud_laws::stamp(from.secs, from.nanos) + "\" end=\""@
                    + nextcloud_laws::stamp(to.secs, to.nanos)
                    + "\"/>\n      </cal:comp-filter>\n    </cal:comp-filter>\n  </cal:filter>\n</cal:calendar-query>"@
            } else {
                "<?xml version=\"1.0\" encoding=\"utf-8\"?>\n<cal:calendar-query xmlns:d=\"DAV:\" xmlns:cal=\"urn:ietf:params:xml:ns:caldav\">\n  <d:prop>\n    <d:getetag/>\n    <cal:calendar-data/>\n  </d:prop>\n  <cal:filter>\n    <cal:comp-filter name=\"VCALENDAR\">\n      <cal:comp-filter name=\"VTODO\"/>\n    </cal:comp-filter>\n  </cal:filter>\n</cal:calendar-query>"@
            },
        }),
{
    nextcloud_laws::law_requests(
        nc,
        "REPORT"@,
        href,
        caldav::xml_type(),
        caldav::report_body(part, from, to),
    );
    let r = caldav::request_of(
        nc,
        "REPORT"@,
        href,
        Some(caldav::xml_type()),
        caldav::report_body(part, from, to),
    );
    assert(r.headers == seq![
        ("Authorization"@, nextcloud_laws::password_header(nc)),
        ("Content-Type"@, "application/xml; charset=utf-8"@),
        ("Depth"@, "1"@),
    ]);
}

/// A listing of calendars is read where its status is one of success and its body is
/// a document; else what went wrong is said.
pub proof fn law_listing(status: u16, body: Seq<char>, e: Seq<char>)
    ensures
        caldav::listing(Err(e)) == Err::<Seq<InfoView>, Seq<char>>(e),
        !(200 <= status < 300) ==> caldav::listing(Ok((status, body))) == Err::<
            Seq<InfoView>,
            Seq<char>,
        >("PROPFIND calendars"@ + ": HTTP "@ + text::numeral(status as nat)),
        200 <= status < 300 ==> caldav::listing(Ok((status, body))) == match dav::xml_reading(
            body,
        ) {
            Ok(nodes) => Ok(dav::infos_of(nodes)),
            Err(cause) => Err("bad PROPFIND response: "@ + cause),
        },
{
}

/// A report is read where its status is one of success and its body is a document;
/// else what went wrong is said, with the account, the calendar and what was asked
/// for.
pub proof fn law_report(
    account: Seq<char>,
    href: Seq<char>,
    part: Part,
    status: u16,
    body: Seq<char>,
    e: Seq<char>,
)
    ensures
        caldav::report_reading(account, href, part, Err(e)) == Err::<
            Seq<(Seq<char>, Seq<char>)>,
            Seq<char>,
        >(e),
        !(200 <= status < 300) ==> caldav::report_reading(account, href, part, Ok((status, body)))
            == Err::<Seq<(Seq<char>, Seq<char>)>, Seq<char>>(
            "["@ + account + "] "@ + ("REPORT"@ + " "@ + href) + (if part == Part::Events {
                " (events)"@
            } else {
                " (tasks)"@
            }) + ": HTTP "@ + text::numeral(status as nat),
        ),
        200 <= status < 300 ==> caldav::report_reading(account, href, part, Ok((status, body)))
            == match dav::xml_reading(body) {
            Ok(nodes) => Ok(dav::items_of(nodes)),
            Err(cause) => Err("bad REPORT response: "@ + cause),
        },
{
}

/// Every calendar is asked for its events where it takes events, and then for its
/// tasks where it takes tasks, one calendar after the other.
pub proof fn law_every_calendar_is_asked(cals: Seq<InfoView>, info: InfoView)
    requires
        cals.len() <= usize::MAX,
    ensures
        caldav::steps(Seq::empty()).len() == 0,
        caldav::steps(cals.push(info)) == caldav::steps(cals) + (if info.supports_vevent {
            seq![Step { calendar: cals.len() as usize, part: Part::Events }]
        } else {
            Seq::empty()
        }) + (if info.supports_vtodo {
            seq![Step { calendar: cals.len() as usize, part: Part::Tasks }]
        } else {
            Seq::empty()
        }),
{
    assert(cals.push(info).drop_last() == cals);
}

/// The days that are asked for lie between the two midnights, where there are both.
pub proof fn law_span(start: Option<Moment>, end: Option<Moment>)
    ensures
        start is None || end is None ==> caldav::spanned(start, end) is None,
        start is Some && end is Some ==> caldav::spanned(start, end) == Some(
            (
                Instant { secs: start->0.secs, nanos: start->0.nanos },
                Instant { secs: end->0.secs, nanos: end->0.nanos },
            ),
        ),
{
}

// ---------------------------------------------------------------------
// What is made of the reports
// ---------------------------------------------------------------------

/// Each object of a report that has an event counts with its first one, and with its
/// own address; the others are passed over.
pub proof fn law_events_of_objects(
    items: Seq<(Seq<char>, Seq<char>)>,
    href: Seq<char>,
    data: Seq<char>,
)
    ensures
        caldav::parsed_events(Seq::empty()).len() == 0,
        caldav::parsed_events(items.push((href, data))) == match ical::calendar_reading(data) {
            Some(cal) => if cal.events.len() > 0 {
                caldav::parsed_events(items).push((href, cal.events[0]))
            } else {
                caldav::parsed_events(items)
            },
            None => caldav::parsed_events(items),
        },
{
    assert(items.push((href, data)).drop_last() == items);
    assert(items.push((href, data)).last() == (href, data));
    let before = caldav::parsed_events(items);
    if caldav::parsed_event((href, data)) is Some {
        let x = caldav::parsed_event((href, data))->0;
        assert(before + seq![x] == before.push(x));
    }
}

/// Each object of a report that has a task counts with its first one, and with its
/// own address; the others are passed over.
pub proof fn law_tasks_of_objects(
    items: Seq<(Seq<char>, Seq<char>)>,
    href: Seq<char>,
    data: Seq<char>,
)
    ensures
        caldav::parsed_todos(Seq::empty()).len() == 0,
        caldav::parsed_todos(items.push((href, data))) == match ical::calendar_reading(data) {
            Some(cal) => if cal.todos.len() > 0 {
                caldav::parsed_todos(items).push((href, cal.todos[0]))
            } else {
                caldav::parsed_todos(items)
            },
            None => caldav::parsed_todos(items),
        },
{
    assert(items.push((href, data)).drop_last() == items);
    assert(items.push((href, data)).last() == (href, data));
    let before = caldav::parsed_todos(items);
    if caldav::parsed_todo((href, data)) is Some {
        let x = caldav::parsed_todo((href, data))->0;
        assert(before + seq![x] == before.push(x));
    }
}

/// Of what was made of objects, all that is something is kept, in its order.
pub proof fn law_what_is_present(results: Seq<Option<EventView>>, r: Option<EventView>)
    ensures
        backend::present(Seq::empty()).len() == 0,
        backend::present(results.push(r)) == match r {
            Some(e) => backend::present(results).push(e),
            None => backend::present(results),
        },
{
    assert(results.push(r).drop_last() == results);
    let before = backend::present(results);
    if r is Some {
        assert(before + seq![r->0] == before.push(r->0));
    }
}

/// Whether these are events that objects can be read as, one for one.
pub open spec fn read_as(
    account: Seq<char>,
    info: InfoView,
    objects: Seq<(Seq<char>, EventV)>,
    results: Seq<Option<EventView>>,
) -> bool {
    &&& results.len() == objects.len()
    &&& forall|i: int|
        0 <= i < objects.len() ==> model::ical_event_read(
            account,
            info.href,
            info.displayname,
            objects[i].0,
            objects[i].1,
            #[trigger] results[i],
        )
}

/// A report on the events of a calendar adds the calendar, whatever came of the report:
/// its own to whoever may write, else one to read; behind the events that are there it
/// adds those that its objects hold; a failure is noted, and nothing else changes.
pub proof fn law_events_are_taken_in(
    account: Seq<char>,
    info: InfoView,
    reply: Result<(u16, Seq<char>), Seq<char>>,
    before: Gathered,
    after: Gathered,
)
    requires
        caldav::absorbs(account, info, Part::Events, reply, before, after),
    ensures
        after.data.calendars == before.data.calendars.push(
            CalendarView {
                account,
                id: info.href,
                summary: info.displayname,
                access_role: if info.writable {
                    "owner"@
                } else {
                    "reader"@
                },
                default_reminder_mins: Seq::empty(),
                primary: false,
            },
        ),
        after.data.tasklists == before.data.tasklists,
        after.data.tasks == before.data.tasks,
        match caldav::report_reading(account, info.href, Part::Events, reply) {
            Err(e) => {
                &&& after.errors == before.errors.push(e)
                &&& after.data.events == before.data.events
            },
            Ok(items) => {
                &&& after.errors == before.errors
                &&& exists|results: Seq<Option<EventView>>| #[trigger]
                    read_as(account, info, caldav::parsed_events(items), results)
                        && after.data.events == before.data.events + backend::present(results)
            },
        },
{
    let reading = caldav::report_reading(account, info.href, Part::Events, reply);
    let items = caldav::report_objects(reading);
    let cal = caldav::calendar_for(account, info);
    let parsed = caldav::parsed_events(items);
    let made = choose|made: Seq<EventView>| #[trigger]
        caldav::events_made(account, cal, parsed, made) && after.data.events == before.data.events
            + made;
    let results = choose|results: Seq<Option<EventView>>| #[trigger]
        caldav::event_results(account, cal, parsed, results) && made == backend::present(results);
    match reading {
        Err(e) => {
            assert(before.errors + seq![e] == before.errors.push(e));
            assert(parsed.len() == 0);
            assert(made.len() == 0);
            assert(before.data.events + made == before.data.events);
        },
        Ok(_) => {
            assert(before.errors + Seq::<Seq<char>>::empty() == before.errors);
            assert(read_as(account, info, parsed, results));
        },
    }
}

/// Whether these are tasks that objects can be read as, one for one.
pub open spec fn tasks_read_as(
    account: Seq<char>,
    info: InfoView,
    objects: Seq<(Seq<char>, TodoV)>,
    made: Seq<TaskView>,
) -> bool {
    &&& made.len() == objects.len()
    &&& forall|i: int|
        0 <= i < objects.len() ==> model::ical_task_read(
            account,
            info.href,
            info.displayname,
            objects[i].0,
            objects[i].1.properties,
            #[trigger] made[i],
        )
}

/// A report on the tasks of a calendar adds a task list, whatever came of the report;
/// behind the tasks that are there it adds those that its objects hold; a failure is
/// noted, and nothing else changes.
pub proof fn law_tasks_are_taken_in(
    account: Seq<char>,
    info: InfoView,
    reply: Result<(u16, Seq<char>), Seq<char>>,
    before: Gathered,
    after: Gathered,
)
    requires
        caldav::absorbs(account, info, Part::Tasks, reply, before, after),
    ensures
        after.data.tasklists == before.data.tasklists.push(
            TaskListView { account, id: info.href, title: info.displayname },
        ),
        after.data.calendars == before.data.calendars,
        after.data.events == before.data.events,
        match caldav::report_reading(account, info.href, Part::Tasks, reply) {
            Err(e) => {
                &&& after.errors == before.errors.push(e)
                &&& after.data.tasks == before.data.tasks
            },
            Ok(items) => {
                &&& after.errors == before.errors
                &&& exists|made: Seq<TaskView>| #[trigger]
                    tasks_read_as(account, info, caldav::parsed_todos(items), made)
                        && after.data.tasks == before.data.tasks + made
            },
        },
{
    let reading = caldav::report_reading(account, info.href, Part::Tasks, reply);
    let items = caldav::report_objects(reading);
    let list = caldav::tasklist_for(account, info);
    let parsed = caldav::parsed_todos(items);
    let made = choose|made: Seq<TaskView>| #[trigger]
        caldav::tasks_made(account, list, parsed, made) && after.data.tasks == before.data.tasks
            + made;
    match reading {
        Err(e) => {
            assert(before.errors + seq![e] == before.errors.push(e));
            assert(parsed.len() == 0);
            assert(made.len() == 0);
            assert(before.data.tasks + made == before.data.tasks);
        },
        Ok(_) => {
            assert(before.errors + Seq::<Seq<char>>::empty() == before.errors);
            assert(tasks_read_as(account, info, parsed, made));
        },
    }
}

/// Gathering starts with nothing, and takes in each report in turn: the one at a place
/// is on the calendar and for the part that the plan has at that place.
pub proof fn law_every_report_is_taken_in(
    account: Seq<char>,
    cals: Seq<InfoView>,
    replies: Seq<Result<(u16, Seq<char>), Seq<char>>>,
    states: Seq<Gathered>,
    i: int,
)
    requires
        caldav::gathering(account, cals, replies, states),
        0 <= i < replies.len(),
    ensures
        states.len() == replies.len() + 1,
        states[0].errors.len() == 0,
        states[0].data.calendars.len() == 0,
        states[0].data.events.len() == 0,
        states[0].data.tasklists.len() == 0,
        states[0].data.tasks.len() == 0,
        caldav::absorbs(
            account,
            cals[caldav::steps(cals)[i].calendar as int],
            caldav::steps(cals)[i].part,
            replies[i],
            states[i],
            states[i + 1],
        ),
{
    assert(states[i] == states[i]);
}

/// What has been gathered stays: nothing that one report gave is lost by a later one.
pub proof fn law_what_is_gathered_stays(
    account: Seq<char>,
    cals: Seq<InfoView>,
    replies: Seq<Result<(u16, Seq<char>), Seq<char>>>,
    states: Seq<Gathered>,
    i: int,
    j: int,
)
    requires
        caldav::gathering(account, cals, replies, states),
        0 <= i <= j < states.len(),
    ensures
        states[i].errors.is_prefix_of(states[j].errors),
        states[i].data.calendars.is_prefix_of(states[j].data.calendars),
        states[i].data.events.is_prefix_of(states[j].data.events),
        states[i].data.tasklists.is_prefix_of(states[j].data.tasklists),
        states[i].data.tasks.is_prefix_of(states[j].data.tasks),
    decreases j - i,
{
    if i < j {
        law_what_is_gathered_stays(account, cals, replies, states, i, j - 1);
        law_every_report_is_taken_in(account, cals, replies, states, j - 1);
        let step = caldav::steps(cals)[j - 1];
        let info = cals[step.calendar as int];
        let before = states[j - 1];
        let after = states[j];
        match step.part {
            Part::Events => law_events_are_taken_in(account, info, replies[j - 1], before, after),
            Part::Tasks => law_tasks_are_taken_in(account, info, replies[j - 1], before, after),
        }
    }
}

/// Sorting changes the order of the events and nothing else.
pub proof fn law_sorted_data(data: AccountDataView)
    ensures
        backend::sorted_data(data).calendars == data.calendars,
        backend::sorted_data(data).tasklists == data.tasklists,
        backend::sorted_data(data).tasks == data.tasks,
        backend::sorted_data(data).events == backend::by_start(data.events),
        backend::sorted_data(data).events.to_multiset() == data.events.to_multiset(),
{
    backend::law_events_are_sorted(data.events);
}

/// The alarms of a report can be counted where none of those that count lies too far
/// from its event.
pub proof fn law_countable(
    account: Seq<char>,
    info: InfoView,
    reply: Result<(u16, Seq<char>), Seq<char>>,
)
    ensures
        caldav::report_countable(account, info, Part::Tasks, reply),
        caldav::report_reading(account, info.href, Part::Events, reply) is Err
            ==> caldav::report_countable(account, info, Part::Events, reply),
        caldav::report_reading(account, info.href, Part::Events, reply) matches Ok(items) ==> (
        caldav::report_countable(account, info, Part::Events, reply) <==> forall|i: int, j: int|
            0 <= i < caldav::parsed_events(items).len() && 0 <= j < caldav::parsed_events(
                items,
            )[i].1.alarms.len() ==> ical::alarm_meaning(
                #[trigger] caldav::parsed_events(items)[i].1.alarms[j],
            ) != ical::Minutes::TooLong),
{
    let reading = caldav::report_reading(account, info.href, Part::Events, reply);
    match reading {
        Err(_) => {
            assert(caldav::parsed_events(caldav::report_objects(reading)).len() == 0);
        },
        Ok(items) => {
            let parsed = caldav::parsed_events(items);
            if forall|i: int, j: int|
                0 <= i < parsed.len() && 0 <= j < parsed[i].1.alarms.len() ==> ical::alarm_meaning(
                    #[trigger] parsed[i].1.alarms[j],
                ) != ical::Minutes::TooLong {
                assert(caldav::countable(parsed));
            }
            if caldav::countable(parsed) {
                assert forall|i: int, j: int|
                    0 <= i < parsed.len() && 0 <= j < parsed[i].1.alarms.len() implies ical::alarm_meaning(
                    #[trigger] parsed[i].1.alarms[j],
                ) != ical::Minutes::TooLong by {
                    assert(model::alarms_fit(parsed[i].1.alarms));
                }
            }
        },
    }
}

/// All that was fetched can be counted where each report can.
pub proof fn law_all_countable(
    account: Seq<char>,
    cals: Seq<InfoView>,
    replies: Seq<Result<(u16, Seq<char>), Seq<char>>>,
    i: int,
)
    ensures
        caldav::all_countable(account, cals, replies) && 0 <= i < replies.len()
            ==> caldav::report_countable(
            account,
            cals[caldav::steps(cals)[i].calendar as int],
            caldav::steps(cals)[i].part,
            replies[i],
        ),
        (forall|j: int| #![trigger replies[j]]
            0 <= j < replies.len() ==> caldav::report_countable(
                account,
                cals[caldav::steps(cals)[j].calendar as int],
                caldav::steps(cals)[j].part,
                replies[j],
            )) ==> caldav::all_countable(account, cals, replies),
{
}

// ---------------------------------------------------------------------
// The configuration
// ---------------------------------------------------------------------

/// Whether a field is there and says something.
pub open spec fn given(field: Option<Seq<char>>) -> bool {
    field matches Some(v) && v.len() > 0
}

/// An account of Google needs a directory and credentials, one of Nextcloud an address,
/// a user and a password file; what is there but empty is missing. The first that is
/// missing is named.
pub proof fn law_needed_fields(a: AccountView, field: Seq<char>)
    ensures
        a.provider == Provider::Google ==> {
            &&& !given(a.config_dir) ==> config::missing_field(a) == Some("config_dir"@)
            &&& given(a.config_dir) && !given(a.credentials_file) ==> config::missing_field(a)
                == Some("credentials_file"@)
            &&& given(a.config_dir) && given(a.credentials_file) ==> config::missing_field(
                a,
            ) is None
        },
        a.provider == Provider::Nextcloud ==> {
            &&& !given(a.server_url) ==> config::missing_field(a) == Some("server_url"@)
            &&& given(a.server_url) && !given(a.username) ==> config::missing_field(a) == Some(
                "username"@,
            )
            &&& given(a.server_url) && given(a.username) && !given(a.app_password_file)
                ==> config::missing_field(a) == Some("app_password_file"@)
            &&& given(a.server_url) && given(a.username) && given(a.app_password_file)
                ==> config::missing_field(a) is None
        },
        config::complaint(a, field) == "account '"@ + a.name + "' (provider="@ + (if a.provider
            == Provider::Google {
            "Google"@
        } else {
            "Nextcloud"@
        }) + ") is missing required field '"@ + field + "'"@,
{
}

/// A configuration is taken where it has accounts and each has what it needs; else what
/// is said names the file and what is wrong.
pub proof fn law_loading(path: Seq<char>, found: Found)
    ensures
        config::load_notice(path, found) is None <==> (found matches Found::Parsed(cfg)
            && cfg.accounts@.len() > 0 && forall|i: int|
            0 <= i < cfg.accounts@.len() ==> config::missing_field(
                #[trigger] cfg.accounts.deep_view()[i],
            ) is None),
        found is Nothing ==> config::load_notice(path, found) == Some(
            "waycal: no config at "@ + path
                + " — running plain calendar. Add [[accounts]] entries there to enable Google Calendar/Tasks."@,
        ),
        found matches Found::Unreadable(e) ==> config::load_notice(path, found) == Some(
            "waycal: cannot read "@ + path + ": "@ + e@,
        ),
        found matches Found::Malformed(e) ==> config::load_notice(path, found) == Some(
            "waycal: invalid config "@ + path + ": "@ + e@,
        ),
        found matches Found::Parsed(cfg) ==> (cfg.accounts@.len() == 0 ==> config::load_notice(
            path,
            found,
        ) == Some("waycal: "@ + path + " has no [[accounts]] — running plain calendar"@)),
        found matches Found::Parsed(cfg) ==> (cfg.accounts@.len() > 0 && config::validation(
            cfg.accounts.deep_view(),
        ) is Some ==> config::load_notice(path, found) == Some(
            "waycal: invalid config "@ + path + ": "@ + config::validation(
                cfg.accounts.deep_view(),
            )->0,
        )),
{
    if found is Parsed {
        let cfg = found->Parsed_0;
        config::law_validation_is_complete(cfg.accounts.deep_view());
    }
}

} // verus!
