//! WebDAV answers: the nodes of an XML document, and the calendars and calendar
//! objects that a multistatus lists.

use vstd::prelude::*;

use crate::text;

verus! {

/// A node of a document. The nodes of a document stand in document order, each
/// with its depth, so that a node is followed by its descendants.
#[derive(Debug)]
pub struct XmlNode {
    pub depth: usize,
    pub namespace: Option<String>,
    /// The local name of an element; empty for other nodes.
    pub name: String,
    /// Local names and values.
    pub attributes: Vec<(String, String)>,
    /// The text of a text node or a comment, or of an element's first child where
    /// that is a text node.
    pub text: Option<String>,
}

/// The model of an [`XmlNode`].
#[verifier::ext_equal]
pub struct XmlV {
    pub depth: usize,
    pub namespace: Option<Seq<char>>,
    pub name: Seq<char>,
    pub attributes: Seq<(Seq<char>, Seq<char>)>,
    pub text: Option<Seq<char>>,
}

impl DeepView for XmlNode {
    type V = XmlV;

    open spec fn deep_view(&self) -> XmlV {
        XmlV {
            depth: self.depth,
            namespace: self.namespace.deep_view(),
            name: self.name@,
            attributes: self.attributes.deep_view(),
            text: self.text.deep_view(),
        }
    }
}

/// What `roxmltree::Document::parse` makes of a text: the nodes of the document
/// in document order, or the error's message.
pub uninterp spec fn xml_reading(text: Seq<char>) -> Result<Seq<XmlV>, Seq<char>>;

/// `roxmltree::Document::parse` and `Document::descendants`: every node from the
/// root on, its depth counted by `Node::ancestors`, its expanded name, local
/// attribute names and values, and `Node::text`.
#[verifier::external_body]
pub(crate) fn parse_xml(text: &str) -> (r: Result<Vec<XmlNode>, String>)
    ensures
        (match r {
            Ok(nodes) => Ok(nodes.deep_view()),
            Err(e) => Err(e@),
        }) == xml_reading(text@),
{
    let doc = roxmltree::Document::parse(text).map_err(|e| e.to_string())?;
    let node = |n: roxmltree::Node| XmlNode {
        depth: n.ancestors().count(),
        namespace: n.tag_name().namespace().map(str::to_owned),
        name: n.tag_name().name().to_owned(),
        attributes: n.attributes().map(|a| (a.name().to_owned(), a.value().to_owned())).collect(),
        text: n.text().map(str::to_owned),
    };
    Ok(doc.descendants().map(node).collect())
}

// ---------------------------------------------------------------------
// Trees
// ---------------------------------------------------------------------

/// How many of the leading nodes are deeper than `depth`.
pub open spec fn deeper(nodes: Seq<XmlV>, depth: usize) -> nat
    decreases nodes.len(),
{
    if nodes.len() == 0 || nodes[0].depth <= depth {
        0
    } else {
        1 + deeper(nodes.drop_first(), depth)
    }
}

/// The first node with its descendants.
pub open spec fn head_tree(nodes: Seq<XmlV>) -> Seq<XmlV> {
    if nodes.len() == 0 {
        nodes
    } else {
        nodes.take(1 + deeper(nodes.drop_first(), nodes[0].depth) as int)
    }
}

/// Whether a node is an element of a name in a namespace.
pub open spec fn tagged(n: XmlV, ns: Seq<char>, name: Seq<char>) -> bool {
    n.namespace == Some(ns) && n.name == name
}

/// The first element of a name among nodes, with its descendants.
pub open spec fn first_in(nodes: Seq<XmlV>, ns: Seq<char>, name: Seq<char>) -> Option<Seq<XmlV>>
    decreases nodes.len(),
{
    if nodes.len() == 0 {
        None
    } else if tagged(nodes[0], ns, name) {
        Some(head_tree(nodes))
    } else {
        first_in(nodes.drop_first(), ns, name)
    }
}

/// The text of the first element of a name among nodes.
pub open spec fn text_in(nodes: Seq<XmlV>, ns: Seq<char>, name: Seq<char>) -> Option<Seq<char>> {
    match first_in(nodes, ns, name) {
        Some(tree) => tree[0].text,
        None => None,
    }
}

/// Whether a node is a child of the first one.
pub open spec fn child_of_head(tree: Seq<XmlV>, i: int) -> bool {
    0 < i < tree.len() && tree[i].depth == tree[0].depth + 1
}

/// All elements of a name, each with its descendants, in document order.
pub open spec fn trees(nodes: Seq<XmlV>, ns: Seq<char>, name: Seq<char>) -> Seq<Seq<XmlV>>
    decreases nodes.len(),
{
    if nodes.len() == 0 {
        Seq::empty()
    } else {
        (if tagged(nodes[0], ns, name) {
            seq![head_tree(nodes)]
        } else {
            Seq::empty()
        }) + trees(nodes.drop_first(), ns, name)
    }
}

/// The value of the first attribute of a local name.
pub open spec fn attribute(
    attributes: Seq<(Seq<char>, Seq<char>)>,
    name: Seq<char>,
) -> Option<Seq<char>>
    decreases attributes.len(),
{
    if attributes.len() == 0 {
        None
    } else if attributes[0].0 == name {
        Some(attributes[0].1)
    } else {
        attribute(attributes.drop_first(), name)
    }
}

proof fn lemma_deeper(nodes: Seq<XmlV>, depth: usize, k: int)
    requires
        0 <= k <= nodes.len(),
        forall|j: int| 0 <= j < k ==> (#[trigger] nodes[j]).depth > depth,
        k < nodes.len() ==> nodes[k].depth <= depth,
    ensures
        deeper(nodes, depth) == k,
    decreases k,
{
    if k > 0 {
        assert(nodes[0].depth > depth);
        let rest = nodes.drop_first();
        assert forall|j: int| 0 <= j < k - 1 implies (#[trigger] rest[j]).depth > depth by {
            assert(rest[j] == nodes[j + 1]);
        }
        lemma_deeper(rest, depth, k - 1);
    }
}

/// The end of the tree of the node at `i`, within the nodes up to `to`.
fn tree_end(nodes: &Vec<XmlNode>, i: usize, to: usize) -> (r: usize)
    requires
        i < to <= nodes@.len(),
    ensures
        i < r <= to,
        nodes.deep_view().subrange(i as int, r as int) == head_tree(
            nodes.deep_view().subrange(i as int, to as int),
        ),
{
    let ghost all = nodes.deep_view();
    let ghost part = all.subrange(i as int, to as int);
    let depth = nodes[i].depth;
    let mut j: usize = i + 1;
    while j < to && nodes[j].depth > depth
        invariant
            i < j <= to <= nodes@.len(),
            all == nodes.deep_view(),
            forall|k: int| i < k < j ==> (#[trigger] all[k]).depth > depth,
        decreases to - j,
    {
        assert(all[j as int] == nodes@[j as int].deep_view());
        j += 1;
    }
    proof {
        let rest = part.drop_first();
        assert(part[0] == all[i as int] && all[i as int] == nodes@[i as int].deep_view());
        assert forall|k: int| 0 <= k < j - i - 1 implies (#[trigger] rest[k]).depth > depth by {
            assert(rest[k] == all[i + 1 + k]);
        }
        if j < to {
            assert(rest[j - i - 1] == all[j as int]);
            assert(all[j as int] == nodes@[j as int].deep_view());
        }
        lemma_deeper(rest, depth, j - i - 1);
        assert(part.take(j - i) == all.subrange(i as int, j as int));
    }
    j
}

impl XmlNode {
    /// Whether the node is an element of a name in a namespace.
    pub fn has_tag_name(&self, ns: &str, name: &str) -> (r: bool)
        ensures
            r == tagged(self.deep_view(), ns@, name@),
    {
        match &self.namespace {
            Some(own) => text::same(own.as_str(), ns) && text::same(self.name.as_str(), name),
            None => false,
        }
    }

    /// The value of the first attribute of a local name.
    pub fn attribute(&self, name: &str) -> (r: Option<&str>)
        ensures
            r.deep_view() == attribute(self.deep_view().attributes, name@),
    {
        let ghost all = self.attributes.deep_view();
        let mut i: usize = 0;
        assert(all.skip(0) == all);
        while i < self.attributes.len()
            invariant
                i <= self.attributes@.len(),
                all == self.attributes.deep_view(),
                attribute(all, name@) == attribute(all.skip(i as int), name@),
            decreases self.attributes.len() - i,
        {
            assert(all.skip(i as int)[0] == self.attributes@[i as int].deep_view());
            assert(all.skip(i as int).drop_first() == all.skip(i + 1));
            if text::same(self.attributes[i].0.as_str(), name) {
                return Some(self.attributes[i].1.as_str());
            }
            i += 1;
        }
        None
    }
}

/// The bounds of the tree of the first element of a name within `from..to`.
fn find_tree(nodes: &Vec<XmlNode>, from: usize, to: usize, ns: &str, name: &str) -> (r: Option<
    (usize, usize),
>)
    requires
        from <= to <= nodes@.len(),
    ensures
        match r {
            Some((a, b)) => from <= a < b <= to && first_in(
                nodes.deep_view().subrange(from as int, to as int),
                ns@,
                name@,
            ) == Some(nodes.deep_view().subrange(a as int, b as int)),
            None => first_in(
                nodes.deep_view().subrange(from as int, to as int),
                ns@,
                name@,
            ) is None,
        },
{
    let ghost all = nodes.deep_view();
    let mut i: usize = from;
    while i < to
        invariant
            from <= i <= to <= nodes@.len(),
            all == nodes.deep_view(),
            first_in(all.subrange(from as int, to as int), ns@, name@) == first_in(
                all.subrange(i as int, to as int),
                ns@,
                name@,
            ),
        decreases to - i,
    {
        let ghost part = all.subrange(i as int, to as int);
        assert(part[0] == nodes@[i as int].deep_view());
        assert(part.drop_first() == all.subrange(i + 1, to as int));
        if nodes[i].has_tag_name(ns, name) {
            let end = tree_end(nodes, i, to);
            return Some((i, end));
        }
        i += 1;
    }
    None
}

/// The text of the first element of a name within `from..to`.
fn find_text<'a>(nodes: &'a Vec<XmlNode>, from: usize, to: usize, ns: &str, name: &str) -> (r:
    Option<&'a str>)
    requires
        from <= to <= nodes@.len(),
    ensures
        r.deep_view() == text_in(nodes.deep_view().subrange(from as int, to as int), ns@, name@),
{
    match find_tree(nodes, from, to, ns, name) {
        Some((a, b)) => {
            let ghost all = nodes.deep_view();
            assert(all.subrange(a as int, b as int)[0] == nodes@[a as int].deep_view());
            crate::ical::borrowed(&nodes[a].text)
        },
        None => None,
    }
}

/// Decides [`child_of_head`] for the tree `from..to`.
fn is_child(nodes: &Vec<XmlNode>, from: usize, to: usize, i: usize) -> (r: bool)
    requires
        from < to <= nodes@.len(),
        from < i < to,
    ensures
        r == child_of_head(nodes.deep_view().subrange(from as int, to as int), i - from),
{
    let ghost tree = nodes.deep_view().subrange(from as int, to as int);
    assert(tree[0] == nodes@[from as int].deep_view());
    assert(tree[i - from] == nodes@[i as int].deep_view());
    nodes[i].depth > 0 && nodes[i].depth - 1 == nodes[from].depth
}

// ---------------------------------------------------------------------
// Calendars
// ---------------------------------------------------------------------

/// The namespace of WebDAV.
pub open spec fn dav() -> Seq<char> {
    "DAV:"@
}

/// The namespace of CalDAV.
pub open spec fn caldav() -> Seq<char> {
    "urn:ietf:params:xml:ns:caldav"@
}

/// A calendar collection on the server.
#[derive(Debug)]
pub struct CalendarInfo {
    pub href: String,
    pub displayname: String,
    pub writable: bool,
    pub supports_vevent: bool,
    pub supports_vtodo: bool,
}

/// The model of a [`CalendarInfo`].
#[verifier::ext_equal]
pub struct InfoView {
    pub href: Seq<char>,
    pub displayname: Seq<char>,
    pub writable: bool,
    pub supports_vevent: bool,
    pub supports_vtodo: bool,
}

impl DeepView for CalendarInfo {
    type V = InfoView;

    open spec fn deep_view(&self) -> InfoView {
        InfoView {
            href: self.href@,
            displayname: self.displayname@,
            writable: self.writable,
            supports_vevent: self.supports_vevent,
            supports_vtodo: self.supports_vtodo,
        }
    }
}

/// Whether the first node of a tree has a child of a name.
pub open spec fn has_child(tree: Seq<XmlV>, ns: Seq<char>, name: Seq<char>) -> bool {
    exists|i: int| #[trigger] child_of_head(tree, i) && tagged(tree[i], ns, name)
}

/// Whether a response describes a calendar collection.
pub open spec fn is_calendar(response: Seq<XmlV>) -> bool {
    first_in(response, dav(), "resourcetype"@) matches Some(rt) && has_child(
        rt,
        caldav(),
        "calendar"@,
    )
}

/// Whether a component set has a component of a name.
pub open spec fn has_component(set: Seq<XmlV>, component: Seq<char>) -> bool {
    exists|i: int| #[trigger]
        child_of_head(set, i) && tagged(set[i], caldav(), "comp"@) && attribute(
            set[i].attributes,
            "name"@,
        ) == Some(component)
}

/// Whether a response says that the collection takes a component.
pub open spec fn supports(response: Seq<XmlV>, component: Seq<char>) -> bool {
    first_in(response, caldav(), "supported-calendar-component-set"@) matches Some(set)
        && has_component(set, component)
}

/// Whether a privilege is one to write.
pub open spec fn write_name(name: Seq<char>) -> bool {
    name == "write"@ || name == "write-content"@ || name == "all"@
}

/// Whether a privilege element grants a privilege to write.
pub open spec fn grants_write(privilege: Seq<XmlV>) -> bool {
    exists|i: int| #[trigger] child_of_head(privilege, i) && write_name(privilege[i].name)
}

/// Whether any privilege element among nodes grants a privilege to write.
pub open spec fn any_grants_write(nodes: Seq<XmlV>) -> bool {
    exists|j: int|
        0 <= j < nodes.len() && tagged(#[trigger] nodes[j], dav(), "privilege"@) && grants_write(
            head_tree(nodes.skip(j)),
        )
}

/// Whether a response says that the user may write.
pub open spec fn is_writable(response: Seq<XmlV>) -> bool {
    first_in(response, dav(), "current-user-privilege-set"@) matches Some(set) && any_grants_write(
        set,
    )
}

/// The calendar that a response describes; none where it has no address or is no
/// calendar.
pub open spec fn info_of(response: Seq<XmlV>) -> Option<InfoView> {
    match text_in(response, dav(), "href"@) {
        None => None,
        Some(href) => if !is_calendar(response) {
            None
        } else {
            Some(
                InfoView {
                    href,
                    displayname: match text_in(response, dav(), "displayname"@) {
                        Some(s) => s,
                        None => Seq::empty(),
                    },
                    writable: is_writable(response),
                    supports_vevent: supports(response, "VEVENT"@),
                    supports_vtodo: supports(response, "VTODO"@),
                },
            )
        },
    }
}

/// The calendars that a multistatus lists.
pub open spec fn infos_of(nodes: Seq<XmlV>) -> Seq<InfoView> {
    trees(nodes, dav(), "response"@).filter_map(|t: Seq<XmlV>| info_of(t))
}

/// The address and calendar data of a response.
pub open spec fn item_of(response: Seq<XmlV>) -> Option<(Seq<char>, Seq<char>)> {
    match text_in(response, dav(), "href"@) {
        None => None,
        Some(href) => match text_in(response, caldav(), "calendar-data"@) {
            None => None,
            Some(data) => Some((href, data)),
        },
    }
}

/// The calendar objects that a multistatus lists.
pub open spec fn items_of(nodes: Seq<XmlV>) -> Seq<(Seq<char>, Seq<char>)> {
    trees(nodes, dav(), "response"@).filter_map(|t: Seq<XmlV>| item_of(t))
}

/// Decides [`has_child`] for the tree `from..to`.
fn finds_child(nodes: &Vec<XmlNode>, from: usize, to: usize, ns: &str, name: &str) -> (r: bool)
    requires
        from < to <= nodes@.len(),
    ensures
        r == has_child(nodes.deep_view().subrange(from as int, to as int), ns@, name@),
{
    let ghost tree = nodes.deep_view().subrange(from as int, to as int);
    let mut i: usize = from + 1;
    while i < to
        invariant
            from < i <= to <= nodes@.len(),
            tree == nodes.deep_view().subrange(from as int, to as int),
            forall|j: int|
                0 < j < i - from && #[trigger] child_of_head(tree, j) ==> !tagged(
                    tree[j],
                    ns@,
                    name@,
                ),
        decreases to - i,
    {
        assert(tree[i - from] == nodes@[i as int].deep_view());
        if is_child(nodes, from, to, i) && nodes[i].has_tag_name(ns, name) {
            assert(child_of_head(tree, i - from));
            return true;
        }
        i += 1;
    }
    false
}

/// Decides [`has_component`] for the tree `from..to`.
fn finds_component(nodes: &Vec<XmlNode>, from: usize, to: usize, component: &str) -> (r: bool)
    requires
        from < to <= nodes@.len(),
    ensures
        r == has_component(nodes.deep_view().subrange(from as int, to as int), component@),
{
    let ghost tree = nodes.deep_view().subrange(from as int, to as int);
    let mut i: usize = from + 1;
    while i < to
        invariant
            from < i <= to <= nodes@.len(),
            tree == nodes.deep_view().subrange(from as int, to as int),
            forall|j: int|
                0 < j < i - from && #[trigger] child_of_head(tree, j) ==> !(tagged(
                    tree[j],
                    caldav(),
                    "comp"@,
                ) && attribute(tree[j].attributes, "name"@) == Some(component@)),
        decreases to - i,
    {
        assert(tree[i - from] == nodes@[i as int].deep_view());
        if is_child(nodes, from, to, i) && nodes[i].has_tag_name(
            "urn:ietf:params:xml:ns:caldav",
            "comp",
        ) && text::is_text(nodes[i].attribute("name"), component) {
            assert(child_of_head(tree, i - from));
            return true;
        }
        i += 1;
    }
    false
}

/// Decides [`grants_write`] for the tree `from..to`.
fn finds_write(nodes: &Vec<XmlNode>, from: usize, to: usize) -> (r: bool)
    requires
        from < to <= nodes@.len(),
    ensures
        r == grants_write(nodes.deep_view().subrange(from as int, to as int)),
{
    let ghost tree = nodes.deep_view().subrange(from as int, to as int);
    let mut i: usize = from + 1;
    while i < to
        invariant
            from < i <= to <= nodes@.len(),
            tree == nodes.deep_view().subrange(from as int, to as int),
            forall|j: int|
                0 < j < i - from && #[trigger] child_of_head(tree, j) ==> !write_name(tree[j].name),
        decreases to - i,
    {
        assert(tree[i - from] == nodes@[i as int].deep_view());
        let name = nodes[i].name.as_str();
        if is_child(nodes, from, to, i) && (text::same(name, "write") || text::same(
            name,
            "write-content",
        ) || text::same(name, "all")) {
            assert(child_of_head(tree, i - from));
            return true;
        }
        i += 1;
    }
    false
}

/// Decides [`any_grants_write`] for the nodes `from..to`.
fn finds_write_privilege(nodes: &Vec<XmlNode>, from: usize, to: usize) -> (r: bool)
    requires
        from <= to <= nodes@.len(),
    ensures
        r == any_grants_write(nodes.deep_view().subrange(from as int, to as int)),
{
    let ghost all = nodes.deep_view();
    let ghost part = all.subrange(from as int, to as int);
    let mut i: usize = from;
    while i < to
        invariant
            from <= i <= to <= nodes@.len(),
            all == nodes.deep_view(),
            part == all.subrange(from as int, to as int),
            forall|j: int|
                0 <= j < i - from && tagged(#[trigger] part[j], dav(), "privilege"@)
                    ==> !grants_write(head_tree(part.skip(j))),
        decreases to - i,
    {
        assert(part[i - from] == nodes@[i as int].deep_view());
        assert(part.skip(i - from) == all.subrange(i as int, to as int));
        if nodes[i].has_tag_name("DAV:", "privilege") {
            let end = tree_end(nodes, i, to);
            if finds_write(nodes, i, end) {
                assert(tagged(part[i - from], dav(), "privilege"@));
                return true;
            }
        }
        i += 1;
    }
    false
}

/// Reads the calendar that the response `from..to` describes.
fn read_info(nodes: &Vec<XmlNode>, from: usize, to: usize) -> (r: Option<CalendarInfo>)
    requires
        from < to <= nodes@.len(),
    ensures
        r.deep_view() == info_of(nodes.deep_view().subrange(from as int, to as int)),
{
    let href = match find_text(nodes, from, to, "DAV:", "href") {
        Some(href) => href.to_owned(),
        None => return None,
    };
    let calendar = match find_tree(nodes, from, to, "DAV:", "resourcetype") {
        Some((a, b)) => finds_child(nodes, a, b, "urn:ietf:params:xml:ns:caldav", "calendar"),
        None => false,
    };
    if !calendar {
        return None;
    }
    let displayname = match find_text(nodes, from, to, "DAV:", "displayname") {
        Some(s) => s.to_owned(),
        None => String::new(),
    };
    let (supports_vevent, supports_vtodo) = match find_tree(
        nodes,
        from,
        to,
        "urn:ietf:params:xml:ns:caldav",
        "supported-calendar-component-set",
    ) {
        Some((a, b)) => (
            finds_component(nodes, a, b, "VEVENT"),
            finds_component(nodes, a, b, "VTODO"),
        ),
        None => (false, false),
    };
    let writable = match find_tree(nodes, from, to, "DAV:", "current-user-privilege-set") {
        Some((a, b)) => finds_write_privilege(nodes, a, b),
        None => false,
    };
    Some(CalendarInfo { href, displayname, writable, supports_vevent, supports_vtodo })
}

/// The trees of a list and of a further node.
proof fn lemma_trees_split(nodes: Seq<XmlV>, k: int, ns: Seq<char>, name: Seq<char>)
    requires
        0 <= k < nodes.len(),
    ensures
        trees(nodes.skip(k), ns, name) == (if tagged(nodes[k], ns, name) {
            seq![head_tree(nodes.skip(k))]
        } else {
            Seq::empty()
        }) + trees(nodes.skip(k + 1), ns, name),
{
    assert(nodes.skip(k)[0] == nodes[k]);
    assert(nodes.skip(k).drop_first() == nodes.skip(k + 1));
}

/// Reads the calendars that a multistatus lists.
pub fn calendar_infos(nodes: &Vec<XmlNode>) -> (r: Vec<CalendarInfo>)
    ensures
        r.deep_view() == infos_of(nodes.deep_view()),
{
    let ghost all = nodes.deep_view();
    let ghost whole = trees(all, dav(), "response"@);
    let ghost mut done: Seq<Seq<XmlV>> = Seq::empty();
    let mut out: Vec<CalendarInfo> = Vec::new();
    let n = nodes.len();
    let mut i: usize = 0;
    assert(all.skip(0) == all);
    assert(done + whole == whole);
    while i < n
        invariant
            i <= n == nodes@.len(),
            all == nodes.deep_view(),
            whole == done + trees(all.skip(i as int), dav(), "response"@),
            out.deep_view() == done.filter_map(|t: Seq<XmlV>| info_of(t)),
        decreases n - i,
    {
        proof {
            lemma_trees_split(all, i as int, dav(), "response"@);
        }
        let ghost rest = trees(all.skip(i + 1), dav(), "response"@);
        assert(all[i as int] == nodes@[i as int].deep_view());
        assert(all.skip(i as int) == all.subrange(i as int, n as int));
        if nodes[i].has_tag_name("DAV:", "response") {
            let end = tree_end(nodes, i, n);
            let ghost tree = all.subrange(i as int, end as int);
            let ghost before = out.deep_view();
            if let Some(info) = read_info(nodes, i, end) {
                out.push(info);
                assert(out.deep_view() == before + seq![info.deep_view()]);
            }
            assert(done.push(tree).drop_last() == done);
            assert(done + (seq![tree] + rest) == done.push(tree) + rest);
            proof {
                done = done.push(tree);
            }
        } else {
            assert(done + (Seq::<Seq<XmlV>>::empty() + rest) == done + rest);
        }
        i += 1;
    }
    assert(all.skip(i as int) == Seq::<XmlV>::empty());
    assert(whole == done);
    out
}

/// Reads the address and calendar data of the response `from..to`.
fn read_item(nodes: &Vec<XmlNode>, from: usize, to: usize) -> (r: Option<(String, String)>)
    requires
        from < to <= nodes@.len(),
    ensures
        r.deep_view() == item_of(nodes.deep_view().subrange(from as int, to as int)),
{
    match find_text(nodes, from, to, "DAV:", "href") {
        None => None,
        Some(href) => match find_text(
            nodes,
            from,
            to,
            "urn:ietf:params:xml:ns:caldav",
            "calendar-data",
        ) {
            None => None,
            Some(data) => Some((href.to_owned(), data.to_owned())),
        },
    }
}

/// Reads the calendar objects that a multistatus lists.
pub fn calendar_items(nodes: &Vec<XmlNode>) -> (r: Vec<(String, String)>)
    ensures
        r.deep_view() == items_of(nodes.deep_view()),
{
    let ghost all = nodes.deep_view();
    let ghost whole = trees(all, dav(), "response"@);
    let ghost mut done: Seq<Seq<XmlV>> = Seq::empty();
    let mut out: Vec<(String, String)> = Vec::new();
    let n = nodes.len();
    let mut i: usize = 0;
    assert(all.skip(0) == all);
    assert(done + whole == whole);
    while i < n
        invariant
            i <= n == nodes@.len(),
            all == nodes.deep_view(),
            whole == done + trees(all.skip(i as int), dav(), "response"@),
            out.deep_view() == done.filter_map(|t: Seq<XmlV>| item_of(t)),
        decreases n - i,
    {
        proof {
            lemma_trees_split(all, i as int, dav(), "response"@);
        }
        let ghost rest = trees(all.skip(i + 1), dav(), "response"@);
        assert(all[i as int] == nodes@[i as int].deep_view());
        assert(all.skip(i as int) == all.subrange(i as int, n as int));
        if nodes[i].has_tag_name("DAV:", "response") {
            let end = tree_end(nodes, i, n);
            let ghost tree = all.subrange(i as int, end as int);
            let ghost before = out.deep_view();
            if let Some(item) = read_item(nodes, i, end) {
                out.push(item);
                assert(out.deep_view() == before + seq![item.deep_view()]);
            }
            assert(done.push(tree).drop_last() == done);
            assert(done + (seq![tree] + rest) == done.push(tree) + rest);
            proof {
                done = done.push(tree);
            }
        } else {
            assert(done + (Seq::<Seq<XmlV>>::empty() + rest) == done + rest);
        }
        i += 1;
    }
    assert(all.skip(i as int) == Seq::<XmlV>::empty());
    assert(whole == done);
    out
}

} // verus!
