//! Text primitives over `Seq<char>` models: slicing, trimming, comparison,
//! ASCII case folding and decimal numbers.

use vstd::prelude::*;
use vstd::utf8::*;

verus! {

/// `String::push` appends one character.
pub assume_specification[ String::push ](s: &mut String, c: char)
    ensures
        final(s)@ == old(s)@.push(c),
;

/// `String::push_str` appends a whole string slice.
pub assume_specification[ String::push_str ](s: &mut String, t: &str)
    ensures
        final(s)@ == old(s)@ + t@,
;

/// `==` on string slices holds exactly when both hold the same characters.
pub assume_specification[ <str as PartialEq>::eq ](a: &str, b: &str) -> (r: bool)
    ensures
        r == (a@ == b@),
;

/// What `str::to_lowercase` makes of a text: the Unicode lowercase mapping.
pub uninterp spec fn lowercase(s: Seq<char>) -> Seq<char>;

/// `str::to_lowercase`. Its result is a function of the text alone; the Unicode
/// tables behind it are not restated.
#[verifier::external_body]
pub(crate) fn to_lowercase(s: &str) -> (r: String)
    ensures
        r@ == lowercase(s@),
{
    s.to_lowercase()
}

// ---------------------------------------------------------------------
// Characters and slices
// ---------------------------------------------------------------------

/// The characters of a string slice.
pub fn chars_of(s: &str) -> (r: Vec<char>)
    ensures
        r@ == s@,
{
    let mut out: Vec<char> = Vec::new();
    for c in it: s.chars()
        invariant
            it.seq() == s@,
            out@ == s@.take(it.index() as int),
    {
        out.push(c);
    }
    out
}

/// Builds the string that holds `cs[from..to]`.
pub fn string_of(cs: &Vec<char>, from: usize, to: usize) -> (r: String)
    requires
        from <= to <= cs@.len(),
    ensures
        r@ == cs@.subrange(from as int, to as int),
{
    let mut out = String::new();
    let mut i: usize = from;
    while i < to
        invariant
            from <= i <= to <= cs@.len(),
            out@ == cs@.subrange(from as int, i as int),
        decreases to - i,
    {
        out.push(cs[i]);
        i += 1;
    }
    out
}

/// `true` exactly when both slices hold the same characters.
pub fn same(a: &str, b: &str) -> (r: bool)
    ensures
        r == (a@ == b@),
{
    *a == *b
}

/// `true` exactly when `o` holds the text `b`.
pub fn is_text(o: Option<&str>, b: &str) -> (r: bool)
    ensures
        r == (o is Some && o->0@ == b@),
{
    match o {
        Some(a) => same(a, b),
        None => false,
    }
}

/// The concatenation of two texts.
pub fn concat(a: &str, b: &str) -> (r: String)
    ensures
        r@ == a@ + b@,
{
    let mut out = a.to_owned();
    out.push_str(b);
    out
}

/// The concatenation of three texts.
pub fn concat3(a: &str, b: &str, c: &str) -> (r: String)
    ensures
        r@ == a@ + b@ + c@,
{
    let mut out = a.to_owned();
    out.push_str(b);
    out.push_str(c);
    out
}

/// `s` without the leading `p`, if it starts with `p`.
pub open spec fn after_prefix(s: Seq<char>, p: Seq<char>) -> Option<Seq<char>> {
    if p.is_prefix_of(s) {
        Some(s.skip(p.len() as int))
    } else {
        None
    }
}

/// Strips `p` from the front of `s`.
pub fn strip_prefix(s: &str, p: &str) -> (r: Option<String>)
    ensures
        r.deep_view() == after_prefix(s@, p@),
{
    let cs = chars_of(s);
    let ps = chars_of(p);
    if ps.len() > cs.len() {
        return None;
    }
    let mut i: usize = 0;
    while i < ps.len()
        invariant
            i <= ps@.len() <= cs@.len(),
            cs@.take(i as int) == ps@.take(i as int),
            cs@ == s@,
            ps@ == p@,
        decreases ps.len() - i,
    {
        if cs[i] != ps[i] {
            assert(!p@.is_prefix_of(s@)) by {
                if p@.is_prefix_of(s@) {
                    assert(s@.subrange(0, p@.len() as int)[i as int] == s@[i as int]);
                }
            }
            return None;
        }
        assert(cs@.take(i + 1) == cs@.take(i as int).push(cs@[i as int]));
        assert(ps@.take(i + 1) == ps@.take(i as int).push(ps@[i as int]));
        i += 1;
    }
    assert(ps@.take(i as int) == p@);
    assert(s@.subrange(0, p@.len() as int) == s@.take(p@.len() as int));
    let rest = string_of(&cs, ps.len(), cs.len());
    assert(rest@ == s@.skip(p@.len() as int));
    Some(rest)
}

/// `true` exactly when `s` starts with `p`.
pub fn starts_with(s: &str, p: &str) -> (r: bool)
    ensures
        r == p@.is_prefix_of(s@),
{
    match strip_prefix(s, p) {
        Some(_) => true,
        None => false,
    }
}

/// The position of the first `c` in `cs` at or after `from`, or `cs.len()`.
pub fn find_from(cs: &Vec<char>, from: usize, c: char) -> (r: usize)
    requires
        from <= cs@.len(),
    ensures
        from <= r <= cs@.len(),
        r < cs@.len() ==> cs@[r as int] == c,
        forall|j: int| from <= j < r ==> cs@[j] != c,
{
    let mut i: usize = from;
    while i < cs.len()
        invariant
            from <= i <= cs@.len(),
            forall|j: int| from <= j < i ==> cs@[j] != c,
        decreases cs.len() - i,
    {
        if cs[i] == c {
            return i;
        }
        i += 1;
    }
    i
}

// ---------------------------------------------------------------------
// White space
// ---------------------------------------------------------------------

/// The Unicode `White_Space` property.
pub open spec fn white(c: char) -> bool {
    let u = c as u32;
    ||| 0x9 <= u <= 0xd
    ||| u == 0x20
    ||| u == 0x85
    ||| u == 0xa0
    ||| u == 0x1680
    ||| 0x2000 <= u <= 0x200a
    ||| u == 0x2028
    ||| u == 0x2029
    ||| u == 0x202f
    ||| u == 0x205f
    ||| u == 0x3000
}

/// Decides the `White_Space` property.
pub fn is_white(c: char) -> (r: bool)
    ensures
        r == white(c),
{
    let u: u32 = c as u32;
    (0x9 <= u && u <= 0xd) || u == 0x20 || u == 0x85 || u == 0xa0 || u == 0x1680 || (0x2000 <= u
        && u <= 0x200a) || u == 0x2028 || u == 0x2029 || u == 0x202f || u == 0x205f || u == 0x3000
}

/// `s` without white space at either end.
pub open spec fn trimmed(s: Seq<char>) -> Seq<char>
    decreases s.len(),
{
    if s.len() > 0 && white(s[0]) {
        trimmed(s.drop_first())
    } else if s.len() > 0 && white(s.last()) {
        trimmed(s.drop_last())
    } else {
        s
    }
}

/// Removes white space at both ends.
pub fn trim(s: &str) -> (r: String)
    ensures
        r@ == trimmed(s@),
{
    let cs = chars_of(s);
    let mut a: usize = 0;
    let mut b: usize = cs.len();
    assert(cs@.subrange(0, b as int) == s@);
    while a < b && is_white(cs[a])
        invariant
            a <= b == cs@.len(),
            trimmed(s@) == trimmed(cs@.subrange(a as int, b as int)),
        decreases b - a,
    {
        let ghost w = cs@.subrange(a as int, b as int);
        assert(w.drop_first() == cs@.subrange(a + 1, b as int));
        a += 1;
    }
    while a < b && is_white(cs[b - 1])
        invariant
            a <= b <= cs@.len(),
            a < b ==> !white(cs@[a as int]),
            trimmed(s@) == trimmed(cs@.subrange(a as int, b as int)),
        decreases b - a,
    {
        let ghost w = cs@.subrange(a as int, b as int);
        assert(w[0] == cs@[a as int]);
        assert(w.drop_last() == cs@.subrange(a as int, b - 1));
        b -= 1;
    }
    string_of(&cs, a, b)
}

/// A text with no white space at either end trims to itself.
pub proof fn lemma_trimmed_fixed(s: Seq<char>)
    requires
        s.len() > 0 ==> !white(s[0]) && !white(s.last()),
    ensures
        trimmed(s) == s,
{
}

/// `Some` of the trimmed text, or `None` when nothing is left of it.
pub open spec fn non_blank(s: Seq<char>) -> Option<Seq<char>> {
    if trimmed(s).len() == 0 {
        None
    } else {
        Some(trimmed(s))
    }
}

/// Trims a text and drops it when it is blank.
pub fn non_blank_text(s: &str) -> (r: Option<String>)
    ensures
        r.deep_view() == non_blank(s@),
{
    let t = trim(s);
    if t.as_str().is_empty() {
        None
    } else {
        Some(t)
    }
}

/// `s` without any `c` at its end.
pub open spec fn without_trailing(s: Seq<char>, c: char) -> Seq<char>
    decreases s.len(),
{
    if s.len() > 0 && s.last() == c {
        without_trailing(s.drop_last(), c)
    } else {
        s
    }
}

/// Removes every `c` at the end of `s`.
pub fn trim_trailing(s: &str, c: char) -> (r: String)
    ensures
        r@ == without_trailing(s@, c),
{
    let cs = chars_of(s);
    let mut b: usize = cs.len();
    assert(cs@.subrange(0, b as int) == s@);
    while b > 0 && cs[b - 1] == c
        invariant
            b <= cs@.len(),
            without_trailing(s@, c) == without_trailing(cs@.subrange(0, b as int), c),
        decreases b,
    {
        assert(cs@.subrange(0, b as int).drop_last() == cs@.subrange(0, b - 1));
        b -= 1;
    }
    string_of(&cs, 0, b)
}

// ---------------------------------------------------------------------
// Comparison
// ---------------------------------------------------------------------

/// The ASCII lower case of a character; other characters stay.
pub open spec fn ascii_lower(c: char) -> char {
    if 'A' <= c <= 'Z' {
        ((c as u8) + 32) as u8 as char
    } else {
        c
    }
}

/// Whether two texts differ at most in the case of ASCII letters.
pub open spec fn same_ignoring_ascii_case(a: Seq<char>, b: Seq<char>) -> bool {
    &&& a.len() == b.len()
    &&& forall|i: int| 0 <= i < a.len() ==> #[trigger] ascii_lower(a[i]) == ascii_lower(b[i])
}

/// ASCII lower case of one character.
pub fn lower_ascii(c: char) -> (r: char)
    ensures
        r == ascii_lower(c),
{
    if 'A' <= c && c <= 'Z' {
        ((c as u8) + 32) as char
    } else {
        c
    }
}

/// Compares two texts without regard to ASCII case.
pub fn eq_ignore_ascii_case(a: &str, b: &str) -> (r: bool)
    ensures
        r == same_ignoring_ascii_case(a@, b@),
{
    let x = chars_of(a);
    let y = chars_of(b);
    if x.len() != y.len() {
        return false;
    }
    let mut i: usize = 0;
    while i < x.len()
        invariant
            i <= x@.len() == y@.len(),
            x@ == a@,
            y@ == b@,
            forall|j: int| 0 <= j < i ==> #[trigger] ascii_lower(x@[j]) == ascii_lower(y@[j]),
        decreases x.len() - i,
    {
        if lower_ascii(x[i]) != lower_ascii(y[i]) {
            assert(ascii_lower(a@[i as int]) != ascii_lower(b@[i as int]));
            return false;
        }
        i += 1;
    }
    true
}

/// Lexicographic order by code point, which is the order of `str`.
pub open spec fn text_lt(a: Seq<char>, b: Seq<char>) -> bool
    decreases a.len(),
{
    if b.len() == 0 {
        false
    } else if a.len() == 0 {
        true
    } else if a[0] != b[0] {
        a[0] < b[0]
    } else {
        text_lt(a.drop_first(), b.drop_first())
    }
}

/// Decides [`text_lt`].
pub fn less(a: &str, b: &str) -> (r: bool)
    ensures
        r == text_lt(a@, b@),
{
    let x = chars_of(a);
    let y = chars_of(b);
    let mut i: usize = 0;
    assert(x@.skip(0) == a@ && y@.skip(0) == b@);
    while i < x.len() && i < y.len() && x[i] == y[i]
        invariant
            i <= x@.len(),
            i <= y@.len(),
            text_lt(a@, b@) == text_lt(x@.skip(i as int), y@.skip(i as int)),
        decreases x.len() - i,
    {
        assert(x@.skip(i as int).drop_first() == x@.skip(i + 1));
        assert(y@.skip(i as int).drop_first() == y@.skip(i + 1));
        i += 1;
    }
    if i >= y.len() {
        false
    } else if i >= x.len() {
        true
    } else {
        x[i] < y[i]
    }
}

/// Nothing comes before itself.
pub proof fn lemma_text_lt_irreflexive(a: Seq<char>)
    ensures
        !text_lt(a, a),
    decreases a.len(),
{
    if a.len() > 0 {
        lemma_text_lt_irreflexive(a.drop_first());
    }
}

/// Two different texts are ordered one way or the other.
pub proof fn lemma_text_lt_total(a: Seq<char>, b: Seq<char>)
    ensures
        text_lt(a, b) || text_lt(b, a) || a == b,
    decreases a.len(),
{
    if a.len() > 0 && b.len() > 0 && a[0] == b[0] {
        lemma_text_lt_total(a.drop_first(), b.drop_first());
        if a.drop_first() == b.drop_first() {
            assert(a == seq![a[0]] + a.drop_first());
            assert(b == seq![b[0]] + b.drop_first());
        }
    } else if a.len() == 0 && b.len() == 0 {
        assert(a == b);
    }
}

/// The order is transitive.
pub proof fn lemma_text_lt_transitive(a: Seq<char>, b: Seq<char>, c: Seq<char>)
    requires
        text_lt(a, b),
        text_lt(b, c),
    ensures
        text_lt(a, c),
    decreases a.len(),
{
    if a.len() > 0 && a[0] == b[0] && b[0] == c[0] {
        lemma_text_lt_transitive(a.drop_first(), b.drop_first(), c.drop_first());
    }
}

// ---------------------------------------------------------------------
// UTF-8 length
// ---------------------------------------------------------------------

/// The number of octets that `s` takes in UTF-8.
pub open spec fn octets(s: Seq<char>) -> nat {
    encode_utf8(s).len()
}

/// The number of octets that one character takes.
pub fn width(c: char) -> (r: usize)
    ensures
        r == octets(seq![c]),
        1 <= r <= 4,
{
    proof {
        lemma_octets_one(c);
    }
    let u: u32 = c as u32;
    if u <= 0x7f {
        1
    } else if u <= 0x7ff {
        2
    } else if u <= 0xffff {
        3
    } else {
        4
    }
}

/// A single character takes one to four octets, by its code point.
pub proof fn lemma_octets_one(c: char)
    ensures
        octets(seq![c]) == if c as u32 <= 0x7f {
            1nat
        } else if c as u32 <= 0x7ff {
            2
        } else if c as u32 <= 0xffff {
            3
        } else {
            4
        },
{
    let s = seq![c];
    char_is_scalar(c);
    assert(s.drop_first() =~= Seq::<char>::empty());
    assert(encode_utf8(s.drop_first()) =~= Seq::<u8>::empty());
    assert(encode_utf8(s) == encode_scalar(c as u32) + encode_utf8(s.drop_first()));
}

/// Octet counts add up over concatenation.
pub proof fn lemma_octets_add(a: Seq<char>, b: Seq<char>)
    ensures
        octets(a + b) == octets(a) + octets(b),
    decreases a.len(),
{
    if a.len() == 0 {
        assert(a + b == b);
    } else {
        assert((a + b).drop_first() == a.drop_first() + b);
        lemma_octets_add(a.drop_first(), b);
    }
}

/// How many leading characters of `s` fit in `budget` octets.
pub open spec fn fitting(s: Seq<char>, budget: int) -> nat
    decreases s.len(),
{
    if s.len() == 0 || octets(seq![s[0]]) > budget {
        0
    } else {
        1 + fitting(s.drop_first(), budget - octets(seq![s[0]]))
    }
}

/// The prefix that fits takes no more than the budget, and all of the text fits
/// exactly when the text takes no more than the budget.
pub proof fn lemma_fitting(s: Seq<char>, budget: int)
    requires
        budget >= 0,
    ensures
        fitting(s, budget) <= s.len(),
        octets(s.take(fitting(s, budget) as int)) <= budget,
        fitting(s, budget) == s.len() <==> octets(s) <= budget,
        budget >= 4 && s.len() > 0 ==> fitting(s, budget) > 0,
        fitting(s, budget) < s.len() ==> octets(s.take(fitting(s, budget) as int + 1)) > budget,
    decreases s.len(),
{
    if s.len() == 0 {
        assert(s.take(0) == s);
    } else {
        let one = seq![s[0]];
        let rest = s.drop_first();
        lemma_octets_one(s[0]);
        assert(s == one + rest);
        lemma_octets_add(one, rest);
        let w = octets(one) as int;
        if w <= budget {
            lemma_fitting(rest, budget - w);
            let k = fitting(rest, budget - w) as int;
            assert(s.take(k + 1) == one + rest.take(k));
            lemma_octets_add(one, rest.take(k));
            if k < rest.len() {
                assert(s.take(k + 2) == one + rest.take(k + 1));
                lemma_octets_add(one, rest.take(k + 1));
            }
        } else {
            assert(s.take(0) == Seq::<char>::empty());
            assert(s.take(1) == one);
        }
    }
}

// ---------------------------------------------------------------------
// Decimal numbers
// ---------------------------------------------------------------------

/// Whether `c` is an ASCII digit.
pub open spec fn is_digit(c: char) -> bool {
    '0' <= c <= '9'
}

/// Whether every character is an ASCII digit.
pub open spec fn all_digits(s: Seq<char>) -> bool {
    forall|i: int| 0 <= i < s.len() ==> is_digit(#[trigger] s[i])
}

/// The character of a decimal digit.
pub open spec fn digit_char(d: int) -> char {
    (d + 48) as u8 as char
}

/// The decimal numeral of a natural number, without leading zeros.
pub open spec fn numeral(n: nat) -> Seq<char>
    decreases n,
{
    if n < 10 {
        seq![digit_char(n as int)]
    } else {
        numeral(n / 10).push(digit_char((n % 10) as int))
    }
}

/// The decimal numeral of an integer, with a minus sign where it is negative.
pub open spec fn signed_numeral(n: int) -> Seq<char> {
    if n < 0 {
        seq!['-'] + numeral((-n) as nat)
    } else {
        numeral(n as nat)
    }
}

/// Writes a natural number in decimal.
pub fn decimal(n: u64) -> (r: String)
    ensures
        r@ == numeral(n as nat),
    decreases n,
{
    if n < 10 {
        let mut out = String::new();
        out.push((n as u8 + 48) as char);
        out
    } else {
        let mut out = decimal(n / 10);
        out.push(((n % 10) as u8 + 48) as char);
        out
    }
}

/// Writes an integer in decimal.
pub fn signed_decimal(n: i64) -> (r: String)
    ensures
        r@ == signed_numeral(n as int),
{
    if n < 0 {
        let m: u64 = (-(n as i128)) as u64;
        proof {
            reveal_strlit("-");
        }
        assert("-"@ == seq!['-']);
        concat("-", decimal(m).as_str())
    } else {
        decimal(n as u64)
    }
}

/// The number that a string of digits stands for.
pub open spec fn digits_value(s: Seq<char>) -> nat
    decreases s.len(),
{
    if s.len() == 0 {
        0
    } else {
        (digits_value(s.drop_last()) * 10 + (s.last() as int - 48)) as nat
    }
}

/// The integer that an optional sign and at least one digit stand for.
pub open spec fn integer_value(s: Seq<char>) -> Option<int> {
    if s.len() == 0 {
        None
    } else if s[0] == '-' || s[0] == '+' {
        let rest = s.drop_first();
        if rest.len() == 0 || !all_digits(rest) {
            None
        } else if s[0] == '-' {
            Some(-(digits_value(rest) as int))
        } else {
            Some(digits_value(rest) as int)
        }
    } else if all_digits(s) {
        Some(digits_value(s) as int)
    } else {
        None
    }
}

/// Reads the digits `cs[from..]`; `None` where there are none, where another
/// character stands among them, or where the number exceeds 2^63.
fn read_digits(cs: &Vec<char>, from: usize) -> (r: Option<u64>)
    requires
        from <= cs@.len(),
    ensures
        ({
            let ds = cs@.skip(from as int);
            r == if ds.len() > 0 && all_digits(ds) && digits_value(ds) <= 0x8000_0000_0000_0000 {
                Some(digits_value(ds) as u64)
            } else {
                None
            }
        }),
{
    let ghost ds = cs@.skip(from as int);
    if from == cs.len() {
        return None;
    }
    let mut acc: u64 = 0;
    let mut over = false;
    let mut i: usize = from;
    while i < cs.len()
        invariant
            from <= i <= cs@.len(),
            ds == cs@.skip(from as int),
            all_digits(ds.take(i - from)),
            acc <= 0x8000_0000_0000_0000,
            !over ==> acc == digits_value(ds.take(i - from)),
            over ==> digits_value(ds.take(i - from)) > 0x8000_0000_0000_0000,
        decreases cs.len() - i,
    {
        let c = cs[i];
        assert(ds[i - from] == c);
        if !('0' <= c && c <= '9') {
            assert(!is_digit(ds[i - from]));
            return None;
        }
        let ghost before = ds.take(i - from);
        let ghost after = ds.take(i + 1 - from);
        assert(after.drop_last() == before);
        assert(after == before.push(c));
        let d: u64 = (c as u8 - 48) as u64;
        if !over {
            let wide: u128 = acc as u128 * 10 + d as u128;
            if wide > 0x8000_0000_0000_0000 {
                over = true;
            } else {
                acc = wide as u64;
            }
        }
        i += 1;
    }
    assert(ds.take(i - from) == ds);
    if over {
        None
    } else {
        Some(acc)
    }
}

/// Reads a signed decimal that fits `i64`.
pub fn parse_i64(s: &str) -> (r: Option<i64>)
    ensures
        r == match integer_value(s@) {
            Some(n) => if i64::MIN <= n <= i64::MAX {
                Some(n as i64)
            } else {
                None
            },
            None => None,
        },
{
    let cs = chars_of(s);
    if cs.len() == 0 {
        return None;
    }
    assert(s@.drop_first() == cs@.skip(1));
    assert(s@ == cs@.skip(0));
    if cs[0] == '-' {
        match read_digits(&cs, 1) {
            Some(n) => Some((-(n as i128)) as i64),
            None => None,
        }
    } else if cs[0] == '+' {
        match read_digits(&cs, 1) {
            Some(n) => if n <= 0x7fff_ffff_ffff_ffff {
                Some(n as i64)
            } else {
                None
            },
            None => None,
        }
    } else {
        match read_digits(&cs, 0) {
            Some(n) => if n <= 0x7fff_ffff_ffff_ffff {
                Some(n as i64)
            } else {
                None
            },
            None => None,
        }
    }
}

/// The natural number that an optional plus sign and at least one digit stand for.
pub open spec fn natural_value(s: Seq<char>) -> Option<nat> {
    let digits = if s.len() > 0 && s[0] == '+' {
        s.drop_first()
    } else {
        s
    };
    if digits.len() > 0 && all_digits(digits) {
        Some(digits_value(digits))
    } else {
        None
    }
}

/// Reads an unsigned decimal that fits `u32`.
pub fn parse_u32(s: &str) -> (r: Option<u32>)
    ensures
        r == match natural_value(s@) {
            Some(n) => if n <= u32::MAX {
                Some(n as u32)
            } else {
                None
            },
            None => None,
        },
{
    let cs = chars_of(s);
    assert(s@ == cs@.skip(0));
    let from: usize = if cs.len() > 0 && cs[0] == '+' {
        assert(s@.drop_first() == cs@.skip(1));
        1
    } else {
        0
    };
    match read_digits(&cs, from) {
        Some(n) => if n <= 0xffff_ffff {
            Some(n as u32)
        } else {
            None
        },
        None => None,
    }
}

// ---------------------------------------------------------------------
// Lists of texts
// ---------------------------------------------------------------------

/// The texts joined with `sep` between them.
pub open spec fn joined(parts: Seq<Seq<char>>, sep: Seq<char>) -> Seq<char>
    decreases parts.len(),
{
    if parts.len() == 0 {
        Seq::empty()
    } else if parts.len() == 1 {
        parts[0]
    } else {
        joined(parts.drop_last(), sep) + sep + parts.last()
    }
}

/// Joins texts with `sep` between them.
pub fn join(parts: &Vec<String>, sep: &str) -> (r: String)
    ensures
        r@ == joined(parts.deep_view(), sep@),
{
    let mut out = String::new();
    let ghost all = parts.deep_view();
    let mut i: usize = 0;
    while i < parts.len()
        invariant
            i <= parts@.len(),
            all == parts.deep_view(),
            out@ == joined(all.take(i as int), sep@),
        decreases parts.len() - i,
    {
        let ghost next = all.take(i + 1);
        assert(next.drop_last() == all.take(i as int));
        assert(next.last() == parts@[i as int]@);
        if i > 0 {
            out.push_str(sep);
        }
        out.push_str(parts[i].as_str());
        assert(i == 0 ==> out@ == next[0]);
        i += 1;
    }
    assert(all.take(i as int) == all);
    out
}

/// The texts one after the other.
pub open spec fn flat(parts: Seq<Seq<char>>) -> Seq<char>
    decreases parts.len(),
{
    if parts.len() == 0 {
        Seq::empty()
    } else {
        flat(parts.drop_last()) + parts.last()
    }
}

/// A single text is itself.
pub proof fn lemma_flat_one(s: Seq<char>)
    ensures
        flat(seq![s]) == s,
{
    assert(seq![s].drop_last() == Seq::<Seq<char>>::empty());
    assert(flat(seq![s].drop_last()) + s == s);
}

/// The texts of two lists follow each other.
pub proof fn lemma_flat_add(a: Seq<Seq<char>>, b: Seq<Seq<char>>)
    ensures
        flat(a + b) == flat(a) + flat(b),
    decreases b.len(),
{
    if b.len() == 0 {
        assert(a + b == a);
        assert(flat(a) + flat(b) == flat(a));
    } else {
        lemma_flat_add(a, b.drop_last());
        assert((a + b).drop_last() == a + b.drop_last());
        assert((a + b).last() == b.last());
        assert(flat(a) + (flat(b.drop_last()) + b.last()) == flat(a + b));
    }
}

/// Whether a list of texts holds `t`.
pub fn holds(list: &Vec<String>, t: &str) -> (r: bool)
    ensures
        r == list.deep_view().contains(t@),
{
    let mut i: usize = 0;
    while i < list.len()
        invariant
            i <= list@.len(),
            forall|j: int| 0 <= j < i ==> list.deep_view()[j] != t@,
        decreases list.len() - i,
    {
        if same(list[i].as_str(), t) {
            assert(list.deep_view()[i as int] == t@);
            return true;
        }
        i += 1;
    }
    false
}

} // verus!
