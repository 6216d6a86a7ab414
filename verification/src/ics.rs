//! iCalendar text: escaping of values and folding of content lines.

use vstd::prelude::*;

use crate::ical::PropertyV;
use crate::text;

verus! {

// ---------------------------------------------------------------------
// Escaping
// ---------------------------------------------------------------------

/// How one character of a TEXT value is written.
pub open spec fn escape_char(c: char) -> Seq<char> {
    if c == '\\' || c == ',' || c == ';' {
        seq!['\\', c]
    } else if c == '\n' {
        seq!['\\', 'n']
    } else {
        seq![c]
    }
}

/// A TEXT value as written: backslash, comma and semicolon behind a backslash,
/// a line feed as `\n`.
pub open spec fn escaped(s: Seq<char>) -> Seq<char>
    decreases s.len(),
{
    if s.len() == 0 {
        Seq::empty()
    } else {
        escape_char(s[0]) + escaped(s.drop_first())
    }
}

/// A TEXT value as read: `\n` and `\N` are a line feed, any other character
/// behind a backslash is itself, and a backslash at the very end is dropped.
pub open spec fn unescaped(s: Seq<char>) -> Seq<char>
    decreases s.len(),
{
    if s.len() == 0 {
        Seq::empty()
    } else if s[0] != '\\' {
        seq![s[0]] + unescaped(s.drop_first())
    } else if s.len() == 1 {
        Seq::empty()
    } else if s[1] == 'n' || s[1] == 'N' {
        seq!['\n'] + unescaped(s.skip(2))
    } else {
        seq![s[1]] + unescaped(s.skip(2))
    }
}

/// Escapes a TEXT value.
pub fn ics_escape(s: &str) -> (r: String)
    ensures
        r@ == escaped(s@),
{
    let cs = text::chars_of(s);
    let mut out = String::new();
    let mut i: usize = 0;
    assert(s@.skip(0) == s@);
    while i < cs.len()
        invariant
            cs@ == s@,
            i <= cs@.len(),
            escaped(s@) == out@ + escaped(s@.skip(i as int)),
        decreases cs.len() - i,
    {
        let ghost rest = s@.skip(i as int);
        assert(rest.drop_first() == s@.skip(i + 1));
        let ghost before = out@;
        let c = cs[i];
        if c == '\\' || c == ',' || c == ';' {
            out.push('\\');
            out.push(c);
        } else if c == '\n' {
            out.push('\\');
            out.push('n');
        } else {
            out.push(c);
        }
        assert(out@ == before + escape_char(c));
        assert(before + (escape_char(c) + escaped(s@.skip(i + 1))) == out@ + escaped(
            s@.skip(i + 1),
        ));
        i += 1;
    }
    assert(out@ + Seq::<char>::empty() == out@);
    out
}

/// Undoes TEXT escaping.
pub fn ical_unescape(s: &str) -> (r: String)
    ensures
        r@ == unescaped(s@),
{
    let cs = text::chars_of(s);
    let mut out = String::new();
    let mut i: usize = 0;
    assert(s@.skip(0) == s@);
    while i < cs.len()
        invariant
            cs@ == s@,
            i <= cs@.len(),
            unescaped(s@) == out@ + unescaped(s@.skip(i as int)),
        decreases cs.len() - i,
    {
        let ghost rest = s@.skip(i as int);
        assert(rest.drop_first() == s@.skip(i + 1));
        let ghost before = out@;
        if cs[i] != '\\' {
            out.push(cs[i]);
            assert(out@ + unescaped(s@.skip(i + 1)) == before + (seq![rest[0]] + unescaped(
                s@.skip(i + 1),
            )));
            i += 1;
        } else if i + 1 == cs.len() {
            i += 1;
            assert(rest.len() == 1);
        } else {
            assert(rest.skip(2) == s@.skip(i + 2));
            let c = if cs[i + 1] == 'n' || cs[i + 1] == 'N' {
                '\n'
            } else {
                cs[i + 1]
            };
            out.push(c);
            assert(out@ + unescaped(s@.skip(i + 2)) == before + (seq![c] + unescaped(
                s@.skip(i + 2),
            )));
            i += 2;
        }
    }
    assert(out@ + Seq::<char>::empty() == out@);
    out
}

/// Reading a value gives back the text that was written, whatever it holds.
pub proof fn law_unescape_undoes_escape(s: Seq<char>)
    ensures
        unescaped(escaped(s)) == s,
    decreases s.len(),
{
    if s.len() > 0 {
        let tail = escaped(s.drop_first());
        let all = escape_char(s[0]) + tail;
        law_unescape_undoes_escape(s.drop_first());
        assert(s == seq![s[0]] + s.drop_first());
        if escape_char(s[0]).len() == 2 {
            assert(all[0] == '\\');
            assert(all.skip(2) == tail);
        } else {
            assert(all[0] == s[0]);
            assert(all.drop_first() == tail);
        }
    } else {
        assert(s == Seq::<char>::empty());
    }
}

/// A written value stays on one line: it holds no line feed.
pub proof fn law_escaped_has_no_line_feed(s: Seq<char>)
    ensures
        !escaped(s).contains('\n'),
    decreases s.len(),
{
    if s.len() > 0 {
        law_escaped_has_no_line_feed(s.drop_first());
        let all = escape_char(s[0]) + escaped(s.drop_first());
        assert forall|i: int| 0 <= i < all.len() implies all[i] != '\n' by {
            if i >= escape_char(s[0]).len() {
                assert(all[i] == escaped(s.drop_first())[i - escape_char(s[0]).len()]);
            }
        }
    }
}

// ---------------------------------------------------------------------
// Folding
// ---------------------------------------------------------------------

/// The octets that a physical line may take.
pub const LINE_OCTETS: usize = 75;

/// The line break.
pub open spec fn crlf() -> Seq<char> {
    seq!['\r', '\n']
}

/// The break between two physical lines of one content line.
pub open spec fn fold_mark() -> Seq<char> {
    seq!['\r', '\n', ' ']
}

/// The pieces of a content line: each takes as many characters as fit, the
/// first in `budget` octets and the others in one octet less than a full line.
pub open spec fn pieces(line: Seq<char>, budget: int) -> Seq<Seq<char>>
    decreases line.len(),
{
    let k = text::fitting(line, budget) as int;
    if text::octets(line) <= budget || k <= 0 || k > line.len() {
        seq![line]
    } else {
        seq![line.take(k)] + pieces(line.skip(k), LINE_OCTETS - 1)
    }
}

/// The pieces of a content line as they stand in a file.
pub open spec fn line_pieces(line: Seq<char>) -> Seq<Seq<char>> {
    pieces(line, LINE_OCTETS as int)
}

/// A content line as written: its pieces on physical lines of their own, a
/// space before each but the first, and a line break at the end.
pub open spec fn folded(line: Seq<char>) -> Seq<char> {
    text::joined(line_pieces(line), fold_mark()) + crlf()
}

/// A content line as read: the text without fold marks and final line break.
pub open spec fn unfolded(s: Seq<char>) -> Seq<char>
    decreases s.len(),
{
    if s.len() == 0 {
        Seq::empty()
    } else if fold_mark().is_prefix_of(s) {
        unfolded(s.skip(3))
    } else if crlf().is_prefix_of(s) {
        unfolded(s.skip(2))
    } else {
        seq![s[0]] + unfolded(s.drop_first())
    }
}

/// What [`law_fold_limits`] and [`law_fold_rejoins`] say, for any budget.
pub proof fn lemma_pieces(line: Seq<char>, budget: int)
    requires
        4 <= budget <= LINE_OCTETS,
    ensures
        pieces(line, budget).len() > 0,
        text::flat(pieces(line, budget)) == line,
        text::octets(pieces(line, budget)[0]) <= budget,
        forall|i: int|
            1 <= i < pieces(line, budget).len() ==> text::octets(#[trigger] pieces(line, budget)[i])
                <= LINE_OCTETS - 1,
        line.len() > 0 ==> forall|i: int|
            0 <= i < pieces(line, budget).len() ==> (#[trigger] pieces(line, budget)[i]).len() > 0,
    decreases line.len(),
{
    text::lemma_fitting(line, budget);
    let k = text::fitting(line, budget) as int;
    if text::octets(line) <= budget || k <= 0 || k > line.len() {
        text::lemma_flat_one(line);
    } else {
        let rest = pieces(line.skip(k), LINE_OCTETS - 1);
        lemma_pieces(line.skip(k), LINE_OCTETS - 1);
        text::lemma_flat_one(line.take(k));
        text::lemma_flat_add(seq![line.take(k)], rest);
        assert(line.take(k) + line.skip(k) == line);
        let all = seq![line.take(k)] + rest;
        assert forall|i: int| 1 <= i < all.len() implies text::octets(#[trigger] all[i])
            <= LINE_OCTETS - 1 by {
            assert(all[i] == rest[i - 1]);
        }
        assert forall|i: int| 0 <= i < all.len() implies (#[trigger] all[i]).len() > 0 by {
            if i > 0 {
                assert(all[i] == rest[i - 1]);
            }
        }
    }
}

/// A physical line takes at most 75 octets, the space of a continuation line
/// counted in. No character is split: the pieces are sequences of characters.
pub proof fn law_fold_limits(line: Seq<char>)
    ensures
        text::octets(line_pieces(line)[0]) <= LINE_OCTETS,
        forall|i: int|
            1 <= i < line_pieces(line).len() ==> text::octets(
                seq![' '] + #[trigger] line_pieces(line)[i],
            ) <= LINE_OCTETS,
{
    lemma_pieces(line, LINE_OCTETS as int);
    let ps = line_pieces(line);
    assert forall|i: int| 1 <= i < ps.len() implies text::octets(seq![' '] + #[trigger] ps[i])
        <= LINE_OCTETS by {
        text::lemma_octets_one(' ');
        text::lemma_octets_add(seq![' '], ps[i]);
    }
}

/// The pieces of a line make up the line again.
pub proof fn law_fold_rejoins(line: Seq<char>)
    ensures
        text::flat(line_pieces(line)) == line,
{
    lemma_pieces(line, LINE_OCTETS as int);
}

/// A line of at most 75 octets is written as it is.
pub proof fn law_short_line_is_not_folded(line: Seq<char>)
    requires
        text::octets(line) <= LINE_OCTETS,
    ensures
        folded(line) == line + crlf(),
{
    assert(line_pieces(line) == seq![line]);
}

/// Unfolding a piece without line feeds in front of other text takes the piece
/// over unchanged.
proof fn lemma_unfold_plain(a: Seq<char>, b: Seq<char>)
    requires
        !a.contains('\n'),
        a.len() > 0 && b.len() > 0 ==> b[0] != '\n',
    ensures
        unfolded(a + b) == a + unfolded(b),
    decreases a.len(),
{
    if a.len() == 0 {
        assert(a + b == b);
        assert(a + unfolded(b) == unfolded(b));
    } else {
        let s = a + b;
        let t = a.drop_first();
        assert(s.drop_first() == t + b);
        assert(forall|i: int| 0 <= i < t.len() ==> t[i] == a[i + 1]);
        assert(!t.contains('\n'));
        lemma_unfold_plain(t, b);
        assert(s.len() > 1 ==> s[1] != '\n') by {
            if s.len() > 1 {
                if a.len() > 1 {
                    assert(s[1] == a[1]);
                } else {
                    assert(s[1] == b[0]);
                }
            }
        }
        if fold_mark().is_prefix_of(s) {
            assert(s.subrange(0, 3)[1] == s[1]);
            assert(fold_mark()[1] == '\n');
        }
        if crlf().is_prefix_of(s) {
            assert(s.subrange(0, 2)[1] == s[1]);
            assert(crlf()[1] == '\n');
        }
        assert(seq![s[0]] + (t + unfolded(b)) == a + unfolded(b));
    }
}

proof fn lemma_unfold_joined(ps: Seq<Seq<char>>, tail: Seq<char>)
    requires
        ps.len() > 0,
        forall|i: int| 0 <= i < ps.len() ==> !(#[trigger] ps[i]).contains('\n'),
        tail.len() > 0 ==> tail[0] != '\n',
    ensures
        unfolded(text::joined(ps, fold_mark()) + tail) == text::flat(ps) + unfolded(tail),
    decreases ps.len(),
{
    let last = ps.last();
    if ps.len() == 1 {
        assert(ps == seq![last]);
        text::lemma_flat_one(last);
        lemma_unfold_plain(last, tail);
    } else {
        let front = ps.drop_last();
        let mark = fold_mark();
        let next = mark + last + tail;
        assert(text::joined(ps, mark) + tail == text::joined(front, mark) + next);
        assert(next[0] == '\r');
        lemma_unfold_joined(front, next);
        assert(mark.is_prefix_of(next)) by {
            assert(next.subrange(0, 3) == mark);
        }
        assert(next.skip(3) == last + tail);
        lemma_unfold_plain(last, tail);
        assert(text::flat(front) + (last + unfolded(tail)) == text::flat(ps) + unfolded(tail));
    }
}

proof fn lemma_piece_chars(line: Seq<char>, budget: int, c: char)
    requires
        !line.contains(c),
    ensures
        forall|i: int| 0 <= i < pieces(line, budget).len() ==> !(#[trigger] pieces(line, budget)[i]).contains(c),
    decreases line.len(),
{
    let k = text::fitting(line, budget) as int;
    if !(text::octets(line) <= budget || k <= 0 || k > line.len()) {
        let (a, b) = (line.take(k), line.skip(k));
        assert(forall|i: int| 0 <= i < a.len() ==> a[i] == line[i]);
        assert(forall|i: int| 0 <= i < b.len() ==> b[i] == line[i + k]);
        assert(!a.contains(c) && !b.contains(c));
        lemma_piece_chars(b, LINE_OCTETS - 1, c);
        let all = seq![a] + pieces(b, LINE_OCTETS - 1);
        assert forall|i: int| 0 <= i < all.len() implies !(#[trigger] all[i]).contains(c) by {
            if i > 0 {
                assert(all[i] == pieces(b, LINE_OCTETS - 1)[i - 1]);
            }
        }
    }
}

/// Unfolding gives back every line that holds no line feed.
pub proof fn law_unfold_undoes_fold(line: Seq<char>)
    requires
        !line.contains('\n'),
    ensures
        unfolded(folded(line)) == line,
{
    law_fold_rejoins(line);
    lemma_pieces(line, LINE_OCTETS as int);
    lemma_piece_chars(line, LINE_OCTETS as int, '\n');
    lemma_unfold_joined(line_pieces(line), crlf());
    assert(crlf().len() == 2);
    assert(!fold_mark().is_prefix_of(crlf()));
    assert(crlf().is_prefix_of(crlf())) by {
        assert(crlf().subrange(0, 2) == crlf());
    }
    assert(unfolded(crlf()) == Seq::<char>::empty()) by {
        assert(crlf().skip(2) == Seq::<char>::empty());
        assert(unfolded(Seq::<char>::empty()) == Seq::<char>::empty());
    }
}

/// The end of the piece of `cs` that starts at `start`.
fn piece_end(cs: &Vec<char>, start: usize, budget: usize) -> (end: usize)
    requires
        start <= cs@.len(),
        budget <= LINE_OCTETS,
    ensures
        start <= end <= cs@.len(),
        end - start == text::fitting(cs@.skip(start as int), budget as int),
{
    let mut end: usize = start;
    let mut left: usize = budget;
    while end < cs.len() && text::width(cs[end]) <= left
        invariant
            start <= end <= cs@.len(),
            left <= budget,
            text::fitting(cs@.skip(start as int), budget as int) == (end - start) + text::fitting(
                cs@.skip(end as int),
                left as int,
            ),
        decreases cs.len() - end,
    {
        assert(cs@.skip(end as int).drop_first() == cs@.skip(end + 1));
        left -= text::width(cs[end]);
        end += 1;
    }
    end
}

/// Folds one content line: physical lines of at most 75 octets, each ended by a
/// line break, continuation lines behind one space.
#[verifier::rlimit(40)]
pub fn ics_fold(line: &str) -> (r: String)
    ensures
        r@ == folded(line@),
{
    let cs = text::chars_of(line);
    let mut out = String::new();
    let mut start: usize = 0;
    let mut budget: usize = LINE_OCTETS;
    let ghost mut done: Seq<Seq<char>> = Seq::empty();
    let ghost mark = fold_mark();
    assert(line@.skip(0) == line@);
    assert(done + line_pieces(line@) == line_pieces(line@));
    loop
        invariant_except_break
            out@ == if done.len() == 0 {
                Seq::empty()
            } else {
                text::joined(done, mark) + mark
            },
        invariant
            cs@ == line@,
            start <= cs@.len(),
            mark == fold_mark(),
            74 <= budget <= 75,
            line_pieces(line@) == done + pieces(line@.skip(start as int), budget as int),
        ensures
            out@ == folded(line@),
        decreases cs.len() - start,
    {
        let ghost rest = line@.skip(start as int);
        let end = piece_end(&cs, start, budget);
        let piece = text::string_of(&cs, start, end);
        proof {
            text::lemma_fitting(rest, budget as int);
            reveal_strlit("\r\n ");
            reveal_strlit("\r\n");
            assert("\r\n "@ == mark);
            assert("\r\n"@ == crlf());
            assert(piece@ == rest.take(end - start));
        }
        out.push_str(piece.as_str());
        let ghost next = done.push(piece@);
        assert(next.drop_last() == done);
        assert(out@ == text::joined(next, mark)) by {
            if done.len() > 0 {
                assert(next.last() == piece@);
            }
        }
        if end == cs.len() {
            assert(rest.take(end - start) == rest);
            assert(done + seq![rest] == next);
            out.push_str("\r\n");
            break;
        }
        out.push_str("\r\n ");
        proof {
            assert(rest.skip(end - start) == line@.skip(end as int));
            assert(done + (seq![piece@] + pieces(line@.skip(end as int), 74)) == next + pieces(
                line@.skip(end as int),
                74,
            ));
            done = next;
        }
        start = end;
        budget = LINE_OCTETS - 1;
    }
    out
}

/// A property line with its value escaped, folded.
pub fn ics_line(name: &str, value: &str) -> (r: String)
    ensures
        r@ == folded(name@ + seq![':'] + escaped(value@)),
{
    let mut line = name.to_owned();
    line.push(':');
    line.push_str(ics_escape(value).as_str());
    assert(line@ == name@ + seq![':'] + escaped(value@));
    ics_fold(line.as_str())
}

// ---------------------------------------------------------------------
// Content lines and components
// ---------------------------------------------------------------------

/// Whether a parameter value holds a character that ends an unquoted one.
pub open spec fn needs_quotes(v: Seq<char>) -> bool {
    v.contains(',') || v.contains(';') || v.contains(':')
}

/// A parameter value as written: in quotes where it needs them.
pub open spec fn param_value_text(v: Seq<char>) -> Seq<char> {
    if needs_quotes(v) {
        seq!['"'] + v + seq!['"']
    } else {
        v
    }
}

/// One parameter as written: `;KEY=VALUE,VALUE`.
pub open spec fn param_text(param: (Seq<char>, Seq<Seq<char>>)) -> Seq<char> {
    seq![';'] + param.0 + seq!['='] + text::joined(
        param.1.map_values(|v: Seq<char>| param_value_text(v)),
        seq![','],
    )
}

/// The parameters of a property as written.
pub open spec fn params_text(params: Option<Seq<(Seq<char>, Seq<Seq<char>>)>>) -> Seq<char> {
    match params {
        Some(params) => text::flat(params.map_values(|param| param_text(param))),
        None => Seq::empty(),
    }
}

/// The content line of a property, its value taken as it is.
pub open spec fn property_line(p: PropertyV) -> Seq<char> {
    p.name + params_text(p.params) + seq![':'] + match p.value {
        Some(v) => v,
        None => Seq::empty(),
    }
}

/// The folded content lines of properties.
pub open spec fn lines_text(props: Seq<PropertyV>) -> Seq<char> {
    text::flat(props.map_values(|p| folded(property_line(p))))
}

/// An alarm as written.
pub open spec fn alarm_text(props: Seq<PropertyV>) -> Seq<char> {
    "BEGIN:VALARM\r\n"@ + lines_text(props) + "END:VALARM\r\n"@
}

/// Alarms as written, one after the other.
pub open spec fn alarms_text(alarms: Seq<Seq<PropertyV>>) -> Seq<char> {
    text::flat(alarms.map_values(|a| alarm_text(a)))
}

/// A calendar of one event as written.
pub open spec fn event_text(props: Seq<PropertyV>, alarms: Seq<Seq<PropertyV>>) -> Seq<char> {
    event_head() + lines_text(props) + alarms_text(alarms) + event_tail()
}

/// A calendar of one task as written.
pub open spec fn todo_text(props: Seq<PropertyV>, alarms: Seq<Seq<PropertyV>>) -> Seq<char> {
    todo_head() + lines_text(props) + alarms_text(alarms) + todo_tail()
}

/// What stands before the properties of an event.
pub open spec fn event_head() -> Seq<char> {
    "BEGIN:VCALENDAR\r\nVERSION:2.0\r\nPRODID:-//waycal//caldav//EN\r\nBEGIN:VEVENT\r\n"@
}

/// What stands behind an event.
pub open spec fn event_tail() -> Seq<char> {
    "END:VEVENT\r\nEND:VCALENDAR\r\n"@
}

/// What stands before the properties of a task.
pub open spec fn todo_head() -> Seq<char> {
    "BEGIN:VCALENDAR\r\nVERSION:2.0\r\nPRODID:-//waycal//caldav//EN\r\nBEGIN:VTODO\r\n"@
}

/// What stands behind a task.
pub open spec fn todo_tail() -> Seq<char> {
    "END:VTODO\r\nEND:VCALENDAR\r\n"@
}

} // verus!
