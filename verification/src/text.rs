//! Text as sequences of characters: the small vocabulary that the rest of the
//! crate states its contracts in, with an executable counterpart for each word.
use vstd::prelude::*;

verus! {

/// `String::push` appends one character to the end of the string.
pub assume_specification[ String::push ](text: &mut String, c: char)
    ensures
        final(text)@ == old(text)@.push(c),
;

/// `String::push_str` appends a whole slice to the end of the string.
pub assume_specification[ String::push_str ](text: &mut String, tail: &str)
    ensures
        final(text)@ == old(text)@ + tail@,
;

/// The characters with the Unicode `White_Space` property.
pub open spec fn is_space(c: char) -> bool {
    ||| '\u{9}' <= c <= '\u{d}'
    ||| c == ' '
    ||| c == '\u{85}'
    ||| c == '\u{a0}'
    ||| c == '\u{1680}'
    ||| '\u{2000}' <= c <= '\u{200a}'
    ||| c == '\u{2028}'
    ||| c == '\u{2029}'
    ||| c == '\u{202f}'
    ||| c == '\u{205f}'
    ||| c == '\u{3000}'
}

/// Whether `c` has the Unicode `White_Space` property.
pub fn is_space_char(c: char) -> (r: bool)
    ensures
        r == is_space(c),
{
    ('\u{9}' <= c && c <= '\u{d}') || c == ' ' || c == '\u{85}' || c == '\u{a0}' || c == '\u{1680}'
        || ('\u{2000}' <= c && c <= '\u{200a}') || c == '\u{2028}' || c == '\u{2029}' || c
        == '\u{202f}' || c == '\u{205f}' || c == '\u{3000}'
}

/// `text` without its leading white space.
pub open spec fn trimmed_start(text: Seq<char>) -> Seq<char>
    decreases text.len(),
{
    if text.len() > 0 && is_space(text[0]) {
        trimmed_start(text.drop_first())
    } else {
        text
    }
}

/// `text` without its trailing white space.
pub open spec fn trimmed_end(text: Seq<char>) -> Seq<char>
    decreases text.len(),
{
    if text.len() > 0 && is_space(text.last()) {
        trimmed_end(text.drop_last())
    } else {
        text
    }
}

/// `text` without white space at either end.
pub open spec fn trimmed(text: Seq<char>) -> Seq<char> {
    trimmed_end(trimmed_start(text))
}

/// `text` begins with `prefix`.
pub open spec fn has_prefix(text: Seq<char>, prefix: Seq<char>) -> bool {
    prefix.len() <= text.len() && text.take(prefix.len() as int) == prefix
}

/// `text` ends with `suffix`.
pub open spec fn has_suffix(text: Seq<char>, suffix: Seq<char>) -> bool {
    suffix.len() <= text.len() && text.skip(text.len() - suffix.len()) == suffix
}

/// `needle` stands in `text` at position `at`.
pub open spec fn occurs_at(text: Seq<char>, needle: Seq<char>, at: int) -> bool {
    0 <= at && at + needle.len() <= text.len() && text.subrange(at, at + needle.len()) == needle
}

/// `needle` stands somewhere in `text`.
pub open spec fn occurs_in(text: Seq<char>, needle: Seq<char>) -> bool {
    exists|at: int| occurs_at(text, needle, at)
}

/// Position of the first `c` in `text`, or the length of `text` without one.
pub open spec fn first_of(text: Seq<char>, c: char) -> int
    decreases text.len(),
{
    if text.len() == 0 || text[0] == c {
        0
    } else {
        1 + first_of(text.drop_first(), c)
    }
}

/// Position just behind the last `c` in `text`, or 0 without one.
pub open spec fn behind_last_of(text: Seq<char>, c: char) -> int
    decreases text.len(),
{
    if text.len() == 0 || text.last() == c {
        text.len() as int
    } else {
        behind_last_of(text.drop_last(), c)
    }
}

/// The texts one after the other with `sep` between neighbours.
pub open spec fn joined(parts: Seq<Seq<char>>, sep: Seq<char>) -> Seq<char>
    decreases parts.len(),
{
    if parts.len() == 0 {
        Seq::empty()
    } else if parts.len() == 1 {
        parts[0]
    } else {
        joined(parts.drop_last(), sep) + sep + parts.last()
    }
}

/// The decimal digit for `d`.
pub open spec fn digit_char(d: int) -> char {
    if d == 0 {
        '0'
    } else if d == 1 {
        '1'
    } else if d == 2 {
        '2'
    } else if d == 3 {
        '3'
    } else if d == 4 {
        '4'
    } else if d == 5 {
        '5'
    } else if d == 6 {
        '6'
    } else if d == 7 {
        '7'
    } else if d == 8 {
        '8'
    } else {
        '9'
    }
}

/// `n` in decimal, without leading zeros.
pub open spec fn decimal(n: nat) -> Seq<char>
    decreases n,
{
    if n < 10 {
        seq![digit_char(n as int)]
    } else {
        decimal(n / 10).push(digit_char((n % 10) as int))
    }
}

/// `n` in decimal, with a leading minus sign when it is negative.
pub open spec fn signed_decimal(n: int) -> Seq<char> {
    if n < 0 {
        seq!['-'] + decimal((-n) as nat)
    } else {
        decimal(n as nat)
    }
}

/// The value of a run of decimal digits; `None` when another character occurs.
pub open spec fn digits_value(text: Seq<char>) -> Option<nat>
    decreases text.len(),
{
    if text.len() == 0 {
        Some(0)
    } else {
        match digits_value(text.drop_last()) {
            Some(head) if '0' <= text.last() <= '9' => Some(
                (10 * head + (text.last() as int - '0' as int)) as nat,
            ),
            _ => None,
        }
    }
}

/// The unsigned integer that `text` spells: decimal digits, at least one, after
/// an optional plus sign, with a value of at most `max`.
pub open spec fn unsigned_value(text: Seq<char>, max: nat) -> Option<nat> {
    let digits = if text.len() > 0 && text[0] == '+' {
        text.drop_first()
    } else {
        text
    };
    match digits_value(digits) {
        Some(value) if digits.len() > 0 && value <= max => Some(value),
        _ => None,
    }
}

/// ASCII letters in lower case; every other character as it is.
pub open spec fn lower_char(c: char) -> char {
    if 'A' <= c <= 'Z' {
        ((c as u32) + 32) as char
    } else {
        c
    }
}

/// `text` with its ASCII letters in lower case.
pub open spec fn lowered(text: Seq<char>) -> Seq<char> {
    text.map_values(|c: char| lower_char(c))
}

/// The pieces of `text` between the separators `c`.
pub open spec fn split_on(text: Seq<char>, c: char) -> Seq<Seq<char>>
    decreases text.len(),
{
    if text.len() == 0 {
        seq![Seq::empty()]
    } else {
        let head = split_on(text.drop_last(), c);
        if text.last() == c {
            head.push(Seq::empty())
        } else {
            head.drop_last().push(head.last().push(text.last()))
        }
    }
}

/// The pieces of `text` between its white space; adjacent white space has an
/// empty piece between.
pub open spec fn space_pieces(text: Seq<char>) -> Seq<Seq<char>>
    decreases text.len(),
{
    if text.len() == 0 {
        seq![Seq::empty()]
    } else {
        let head = space_pieces(text.drop_last());
        if is_space(text.last()) {
            head.push(Seq::empty())
        } else {
            head.drop_last().push(head.last().push(text.last()))
        }
    }
}

/// The pieces that are not empty.
pub open spec fn nonempty(pieces: Seq<Seq<char>>) -> Seq<Seq<char>>
    decreases pieces.len(),
{
    if pieces.len() == 0 {
        Seq::empty()
    } else if pieces.last().len() == 0 {
        nonempty(pieces.drop_last())
    } else {
        nonempty(pieces.drop_last()).push(pieces.last())
    }
}

/// The words of `text`: its longest runs without white space.
pub open spec fn words(text: Seq<char>) -> Seq<Seq<char>> {
    nonempty(space_pieces(text))
}

/// The first line of `text`, without its line end.
pub open spec fn first_line(text: Seq<char>) -> Seq<char> {
    let end = first_of(text, '\n');
    let line = text.take(end);
    if end < text.len() && line.len() > 0 && line.last() == '\r' {
        line.drop_last()
    } else {
        line
    }
}

/// The items trimmed, without those that are blank.
pub open spec fn cleaned(items: Seq<Seq<char>>) -> Seq<Seq<char>>
    decreases items.len(),
{
    if items.len() == 0 {
        Seq::empty()
    } else {
        let head = cleaned(items.drop_last());
        let item = trimmed(items.last());
        if item.len() > 0 {
            head.push(item)
        } else {
            head
        }
    }
}

/// `text` cut to at most `max` characters: a text that fits stays, a longer
/// one keeps its head and its tail, two to one, around an ellipsis.
pub open spec fn previewed(text: Seq<char>, max: nat) -> Seq<char> {
    if max == 0 {
        Seq::empty()
    } else if text.len() <= max {
        text
    } else if max == 1 {
        seq!['\u{2026}']
    } else {
        let head = if (max - 1) * 2 / 3 > 1 {
            (max - 1) * 2 / 3
        } else {
            1
        };
        let tail = max - 1 - head;
        text.take(head).push('\u{2026}') + text.skip(text.len() - tail)
    }
}

/// The characters of `text`.
pub fn chars_of(text: &str) -> (r: Vec<char>)
    ensures
        r@ == text@,
{
    let mut out: Vec<char> = Vec::new();
    for c in iter: text.chars()
        invariant
            out@ == text@.take(iter.index()),
            iter.seq() == text@,
    {
        out.push(c);
        proof {
            assert(text@.take(iter.index() + 1) =~= text@.take(iter.index()).push(
                text@[iter.index()],
            ));
        }
    }
    assert(text@.take(text@.len() as int) =~= text@);
    out
}

/// The text made of `chars[from..to]`.
pub fn text_of(chars: &Vec<char>, from: usize, to: usize) -> (r: String)
    requires
        from <= to <= chars@.len(),
    ensures
        r@ == chars@.subrange(from as int, to as int),
{
    let mut out = String::new();
    let mut i: usize = from;
    while i < to
        invariant
            from <= i <= to <= chars@.len(),
            out@ == chars@.subrange(from as int, i as int),
        decreases to - i,
    {
        out.push(chars[i]);
        i += 1;
        assert(chars@.subrange(from as int, i as int) =~= chars@.subrange(
            from as int,
            i - 1,
        ).push(chars@[i - 1]));
    }
    out
}

/// Whether two texts hold the same characters.
pub fn same_text(a: &str, b: &str) -> (r: bool)
    ensures
        r == (a@ == b@),
{
    let x = chars_of(a);
    let y = chars_of(b);
    if x.len() != y.len() {
        return false;
    }
    let mut i: usize = 0;
    while i < x.len()
        invariant
            i <= x.len(),
            x.len() == y.len(),
            x@ == a@,
            y@ == b@,
            forall|j: int| 0 <= j < i ==> x@[j] == y@[j],
        decreases x.len() - i,
    {
        if x[i] != y[i] {
            return false;
        }
        i += 1;
    }
    assert(a@ =~= b@);
    true
}

proof fn lemma_trimmed_start(text: Seq<char>, k: int)
    requires
        0 <= k <= text.len(),
        forall|j: int| 0 <= j < k ==> is_space(text[j]),
    ensures
        trimmed_start(text) == trimmed_start(text.skip(k)),
    decreases k,
{
    if k > 0 {
        lemma_trimmed_start(text.drop_first(), k - 1);
        assert(text.drop_first().skip(k - 1) =~= text.skip(k));
    } else {
        assert(text.skip(0) =~= text);
    }
}

proof fn lemma_trimmed_end(text: Seq<char>, k: int)
    requires
        0 <= k <= text.len(),
        forall|j: int| k <= j < text.len() ==> is_space(text[j]),
    ensures
        trimmed_end(text) == trimmed_end(text.take(k)),
    decreases text.len() - k,
{
    if k < text.len() {
        lemma_trimmed_end(text.drop_last(), k);
        assert(text.drop_last().take(k) =~= text.take(k));
    } else {
        assert(text.take(k) =~= text);
    }
}

/// `text` without white space at either end.
pub fn trim(text: &str) -> (r: String)
    ensures
        r@ == trimmed(text@),
{
    let chars = chars_of(text);
    let mut from: usize = 0;
    while from < chars.len() && is_space_char(chars[from])
        invariant
            from <= chars.len(),
            forall|j: int| 0 <= j < from ==> is_space(chars@[j]),
        decreases chars.len() - from,
    {
        from += 1;
    }
    let mut to: usize = chars.len();
    while to > from && is_space_char(chars[to - 1])
        invariant
            from <= to <= chars.len(),
            forall|j: int| to <= j < chars.len() ==> is_space(chars@[j]),
        decreases to,
    {
        to -= 1;
    }
    proof {
        lemma_trimmed_start(chars@, from as int);
        let rest = chars@.skip(from as int);
        assert(trimmed_start(rest) == rest);
        lemma_trimmed_end(rest, to - from);
        assert(rest.take(to - from) =~= chars@.subrange(from as int, to as int));
        let core = rest.take(to - from);
        assert(trimmed_end(core) == core);
    }
    text_of(&chars, from, to)
}

/// Whether `text` begins with `prefix`.
pub fn starts_with(text: &str, prefix: &str) -> (r: bool)
    ensures
        r == has_prefix(text@, prefix@),
{
    let x = chars_of(text);
    let y = chars_of(prefix);
    if y.len() > x.len() {
        return false;
    }
    let mut i: usize = 0;
    while i < y.len()
        invariant
            i <= y.len() <= x.len(),
            x@ == text@,
            y@ == prefix@,
            forall|j: int| 0 <= j < i ==> x@[j] == y@[j],
        decreases y.len() - i,
    {
        if x[i] != y[i] {
            assert(text@.take(prefix@.len() as int)[i as int] != prefix@[i as int]);
            return false;
        }
        i += 1;
    }
    assert(text@.take(prefix@.len() as int) =~= prefix@);
    true
}

/// What follows `prefix` in `text`; `None` when `text` does not begin with it.
pub fn strip_prefix(text: &str, prefix: &str) -> (r: Option<String>)
    ensures
        r is Some <==> has_prefix(text@, prefix@),
        r matches Some(rest) ==> rest@ == text@.skip(prefix@.len() as int),
{
    if !starts_with(text, prefix) {
        return None;
    }
    let chars = chars_of(text);
    let skip: usize = chars_of(prefix).len();
    let rest = text_of(&chars, skip, chars.len());
    assert(chars@.subrange(skip as int, chars@.len() as int) =~= text@.skip(prefix@.len() as int));
    Some(rest)
}

/// Whether `text` ends with `suffix`.
pub fn ends_with(text: &str, suffix: &str) -> (r: bool)
    ensures
        r == has_suffix(text@, suffix@),
{
    let x = chars_of(text);
    let y = chars_of(suffix);
    if y.len() > x.len() {
        return false;
    }
    let skip: usize = x.len() - y.len();
    let mut i: usize = 0;
    while i < y.len()
        invariant
            i <= y.len() <= x.len(),
            skip == x.len() - y.len(),
            x@ == text@,
            y@ == suffix@,
            forall|j: int| 0 <= j < i ==> x@[skip + j] == y@[j],
        decreases y.len() - i,
    {
        if x[skip + i] != y[i] {
            assert(text@.skip(skip as int)[i as int] != suffix@[i as int]);
            return false;
        }
        i += 1;
    }
    assert(text@.skip(skip as int) =~= suffix@);
    true
}

/// Whether `needle` stands in `text` at position `at`.
pub fn stands_at(text: &Vec<char>, needle: &Vec<char>, at: usize) -> (r: bool)
    requires
        at + needle@.len() <= text@.len(),
    ensures
        r == occurs_at(text@, needle@, at as int),
{
    let mut i: usize = 0;
    while i < needle.len()
        invariant
            i <= needle.len(),
            at + needle.len() <= text.len(),
            forall|j: int| 0 <= j < i ==> text@[at + j] == needle@[j],
        decreases needle.len() - i,
    {
        if text[at + i] != needle[i] {
            assert(text@.subrange(at as int, at + needle@.len())[i as int] != needle@[i as int]);
            return false;
        }
        i += 1;
    }
    assert(text@.subrange(at as int, at + needle@.len()) =~= needle@);
    true
}

/// Position of the first occurrence of `needle` in `text`.
pub fn find(text: &str, needle: &str) -> (r: Option<usize>)
    ensures
        r is Some <==> occurs_in(text@, needle@),
        r matches Some(at) ==> occurs_at(text@, needle@, at as int) && forall|j: int|
            0 <= j < at ==> !occurs_at(text@, needle@, j),
{
    let x = chars_of(text);
    let y = chars_of(needle);
    if y.len() > x.len() {
        return None;
    }
    let last: usize = x.len() - y.len();
    let mut at: usize = 0;
    loop
        invariant
            at <= last == x.len() - y.len(),
            y.len() <= x.len(),
            x@ == text@,
            y@ == needle@,
            forall|j: int| 0 <= j < at ==> !occurs_at(text@, needle@, j),
        decreases last - at,
    {
        if stands_at(&x, &y, at) {
            return Some(at);
        }
        if at == last {
            assert(forall|j: int| !occurs_at(text@, needle@, j));
            return None;
        }
        at += 1;
    }
}

/// Whether `needle` stands somewhere in `text`.
pub fn contains(text: &str, needle: &str) -> (r: bool)
    ensures
        r == occurs_in(text@, needle@),
{
    find(text, needle).is_some()
}

pub proof fn lemma_first_of(text: Seq<char>, c: char, at: int)
    requires
        0 <= at <= text.len(),
        forall|j: int| 0 <= j < at ==> text[j] != c,
        at < text.len() ==> text[at] == c,
    ensures
        first_of(text, c) == at,
    decreases at,
{
    if at > 0 {
        lemma_first_of(text.drop_first(), c, at - 1);
    }
}

/// Position of the first `c` in `chars`, or the length without one.
pub fn index_of(chars: &Vec<char>, c: char) -> (r: usize)
    ensures
        r == first_of(chars@, c),
        r <= chars@.len(),
        r < chars@.len() ==> chars@[r as int] == c,
        forall|j: int| 0 <= j < r ==> chars@[j] != c,
{
    let mut i: usize = 0;
    while i < chars.len() && chars[i] != c
        invariant
            i <= chars.len(),
            forall|j: int| 0 <= j < i ==> chars@[j] != c,
        decreases chars.len() - i,
    {
        i += 1;
    }
    proof {
        lemma_first_of(chars@, c, i as int);
    }
    i
}

pub proof fn lemma_behind_last_of(text: Seq<char>, c: char, at: int)
    requires
        0 <= at <= text.len(),
        forall|j: int| at <= j < text.len() ==> text[j] != c,
        at > 0 ==> text[at - 1] == c,
    ensures
        behind_last_of(text, c) == at,
    decreases text.len() - at,
{
    if at < text.len() {
        lemma_behind_last_of(text.drop_last(), c, at);
    }
}

/// Position just behind the last `c` in `chars`, or 0 without one.
pub fn end_of_last(chars: &Vec<char>, c: char) -> (r: usize)
    ensures
        r == behind_last_of(chars@, c),
        r <= chars@.len(),
        r > 0 ==> chars@[r - 1] == c,
        forall|j: int| r <= j < chars@.len() ==> chars@[j] != c,
{
    let mut i: usize = chars.len();
    while i > 0 && chars[i - 1] != c
        invariant
            i <= chars.len(),
            forall|j: int| i <= j < chars@.len() ==> chars@[j] != c,
        decreases i,
    {
        i -= 1;
    }
    proof {
        lemma_behind_last_of(chars@, c, i as int);
    }
    i
}

/// The texts one after the other with `sep` between neighbours.
pub fn join(parts: &Vec<String>, sep: &str) -> (r: String)
    ensures
        r@ == joined(parts.deep_view(), sep@),
{
    let mut out = String::new();
    let mut i: usize = 0;
    while i < parts.len()
        invariant
            i <= parts.len(),
            out@ == joined(parts.deep_view().take(i as int), sep@),
        decreases parts.len() - i,
    {
        if i > 0 {
            out.push_str(sep);
        }
        out.push_str(parts[i].as_str());
        i += 1;
        proof {
            let head = parts.deep_view().take(i as int);
            assert(head.drop_last() =~= parts.deep_view().take(i - 1));
            assert(head.last() == parts@[i - 1]@);
            if i == 1 {
                assert(out@ =~= head[0]);
            }
        }
    }
    assert(parts.deep_view().take(parts@.len() as int) =~= parts.deep_view());
    out
}

/// The decimal digit for `d`.
fn digit(d: u64) -> (r: char)
    requires
        d < 10,
    ensures
        r == digit_char(d as int),
{
    if d == 0 {
        '0'
    } else if d == 1 {
        '1'
    } else if d == 2 {
        '2'
    } else if d == 3 {
        '3'
    } else if d == 4 {
        '4'
    } else if d == 5 {
        '5'
    } else if d == 6 {
        '6'
    } else if d == 7 {
        '7'
    } else if d == 8 {
        '8'
    } else {
        '9'
    }
}

/// `n` in decimal.
pub fn decimal_text(n: u64) -> (r: String)
    ensures
        r@ == decimal(n as nat),
    decreases n,
{
    let mut out = if n < 10 {
        String::new()
    } else {
        decimal_text(n / 10)
    };
    out.push(digit(n % 10));
    assert(n < 10 ==> out@ =~= seq![digit_char(n as int)]);
    out
}

/// `n` in decimal, with a leading minus sign when it is negative.
pub fn signed_text(n: i64) -> (r: String)
    ensures
        r@ == signed_decimal(n as int),
{
    if n >= 0 {
        return decimal_text(n as u64);
    }
    let mut out = String::new();
    out.push('-');
    let magnitude: u64 = (-(n as i128)) as u64;
    out.push_str(decimal_text(magnitude).as_str());
    assert(Seq::<char>::empty().push('-') =~= seq!['-']);
    out
}

pub proof fn lemma_digits_value_none(text: Seq<char>, at: int)
    requires
        0 <= at < text.len(),
        !('0' <= text[at] <= '9'),
    ensures
        digits_value(text) is None,
    decreases text.len(),
{
    if at < text.len() - 1 {
        lemma_digits_value_none(text.drop_last(), at);
    }
}

pub proof fn lemma_digits_value_grows(text: Seq<char>, k: int)
    requires
        0 <= k <= text.len(),
        digits_value(text) is Some,
    ensures
        digits_value(text.take(k)) is Some,
        digits_value(text.take(k))->0 <= digits_value(text)->0,
    decreases text.len() - k,
{
    if k < text.len() {
        lemma_digits_value_grows(text.drop_last(), k);
        assert(text.drop_last().take(k) =~= text.take(k));
    } else {
        assert(text.take(k) =~= text);
    }
}

/// The unsigned integer that `text` spells, if it is at most `max`.
pub fn parse_unsigned(text: &str, max: u64) -> (r: Option<u64>)
    ensures
        r.deep_view() == match unsigned_value(text@, max as nat) {
            Some(value) => Some(value as u64),
            None => None,
        },
        unsigned_value(text@, max as nat) matches Some(value) ==> value <= max,
{
    let chars = chars_of(text);
    let from: usize = if chars.len() > 0 && chars[0] == '+' {
        1
    } else {
        0
    };
    let ghost digits = text@.skip(from as int);
    proof {
        assert(from == 0 ==> digits =~= text@);
        assert(from == 1 ==> digits =~= text@.drop_first());
    }
    if from == chars.len() {
        return None;
    }
    let mut value: u64 = 0;
    let mut i: usize = from;
    while i < chars.len()
        invariant
            from <= i <= chars.len(),
            chars@ == text@,
            digits == text@.skip(from as int),
            digits_value(digits.take(i - from)) == Some(value as nat),
            value <= max,
            digits == if text@.len() > 0 && text@[0] == '+' {
                text@.drop_first()
            } else {
                text@
            },
        decreases chars.len() - i,
    {
        let c = chars[i];
        let ghost head = digits.take(i + 1 - from);
        proof {
            assert(head.drop_last() =~= digits.take(i - from));
            assert(head.last() == c);
        }
        if !('0' <= c && c <= '9') {
            proof {
                lemma_digits_value_none(digits, i - from);
            }
            return None;
        }
        let next: u128 = 10u128 * (value as u128) + ((c as u32 - '0' as u32) as u128);
        if next > max as u128 {
            proof {
                if digits_value(digits) is Some {
                    lemma_digits_value_grows(digits, i + 1 - from);
                }
            }
            return None;
        }
        value = next as u64;
        i += 1;
    }
    assert(digits.take(digits.len() as int) =~= digits);
    Some(value)
}

/// `text` with its ASCII letters in lower case.
pub fn lower(text: &str) -> (r: String)
    ensures
        r@ == lowered(text@),
{
    let chars = chars_of(text);
    let mut out = String::new();
    let mut i: usize = 0;
    while i < chars.len()
        invariant
            i <= chars.len(),
            out@ == lowered(chars@.take(i as int)),
        decreases chars.len() - i,
    {
        let c = chars[i];
        if 'A' <= c && c <= 'Z' {
            out.push(((c as u8) + 32) as char);
        } else {
            out.push(c);
        }
        i += 1;
        assert(chars@.take(i as int) =~= chars@.take(i - 1).push(c));
        assert(out@ =~= lowered(chars@.take(i as int)));
    }
    assert(chars@.take(chars@.len() as int) =~= chars@);
    out
}

/// The pieces of `text` between the separators `c`.
pub fn split(text: &str, c: char) -> (r: Vec<String>)
    ensures
        r.deep_view() == split_on(text@, c),
        r@.len() > 0,
{
    let chars = chars_of(text);
    let mut out: Vec<String> = Vec::new();
    let mut piece = String::new();
    let mut i: usize = 0;
    assert(split_on(text@.take(0), c) =~= seq![Seq::empty()]);
    assert(out.deep_view().push(piece@) =~= seq![Seq::empty()]);
    while i < chars.len()
        invariant
            i <= chars.len(),
            chars@ == text@,
            out.deep_view().push(piece@) == split_on(text@.take(i as int), c),
        decreases chars.len() - i,
    {
        proof {
            let head = text@.take(i + 1);
            assert(head.drop_last() =~= text@.take(i as int));
            assert(head.last() == text@[i as int]);
            assert(out.deep_view().push(piece@).drop_last() =~= out.deep_view());
        }
        let ghost before = out.deep_view();
        if chars[i] == c {
            let ghost done = piece@;
            out.push(piece);
            piece = String::new();
            assert(out.deep_view() =~= before.push(done));
        } else {
            piece.push(chars[i]);
        }
        i += 1;
    }
    assert(text@.take(text@.len() as int) =~= text@);
    let ghost before = out.deep_view();
    out.push(piece);
    assert(out.deep_view() =~= before.push(piece@));
    out
}

/// The words of `text`.
pub fn split_words(text: &str) -> (r: Vec<String>)
    ensures
        r.deep_view() == words(text@),
{
    let chars = chars_of(text);
    let mut out: Vec<String> = Vec::new();
    let mut piece = String::new();
    let ghost mut done: Seq<Seq<char>> = Seq::empty();
    let mut i: usize = 0;
    assert(done.push(piece@) =~= space_pieces(text@.take(0)));
    while i < chars.len()
        invariant
            i <= chars.len(),
            chars@ == text@,
            done.push(piece@) == space_pieces(text@.take(i as int)),
            out.deep_view() == nonempty(done),
        decreases chars.len() - i,
    {
        proof {
            let head = text@.take(i + 1);
            assert(head.drop_last() =~= text@.take(i as int));
            assert(head.last() == text@[i as int]);
            assert(done.push(piece@).drop_last() =~= done);
        }
        if is_space_char(chars[i]) {
            let ghost before = out.deep_view();
            let ghost last = piece@;
            if !piece.as_str().is_empty() {
                out.push(piece);
                assert(out.deep_view() =~= before.push(last));
            }
            proof {
                assert(done.push(last).drop_last() =~= done);
                done = done.push(last);
            }
            piece = String::new();
        } else {
            piece.push(chars[i]);
        }
        i += 1;
    }
    assert(text@.take(text@.len() as int) =~= text@);
    let ghost before = out.deep_view();
    assert(done.push(piece@).drop_last() =~= done);
    if !piece.as_str().is_empty() {
        out.push(piece);
        assert(out.deep_view() =~= before.push(piece@));
    }
    out
}

/// The first line of `text`, without its line end.
pub fn take_line(text: &str) -> (r: String)
    ensures
        r@ == first_line(text@),
{
    let chars = chars_of(text);
    let end: usize = index_of(&chars, '\n');
    let to: usize = if end < chars.len() && end > 0 && chars[end - 1] == '\r' {
        end - 1
    } else {
        end
    };
    let r = text_of(&chars, 0, to);
    assert(r@ =~= first_line(text@));
    r
}

/// The items trimmed, without those that are blank.
pub fn clean(items: &Vec<String>) -> (r: Vec<String>)
    ensures
        r.deep_view() == cleaned(items.deep_view()),
{
    let mut out: Vec<String> = Vec::new();
    let mut i: usize = 0;
    while i < items.len()
        invariant
            i <= items.len(),
            out.deep_view() == cleaned(items.deep_view().take(i as int)),
        decreases items.len() - i,
    {
        let item = trim(items[i].as_str());
        let ghost before = out.deep_view();
        proof {
            let head = items.deep_view().take(i + 1);
            assert(head.drop_last() =~= items.deep_view().take(i as int));
            assert(head.last() == items.deep_view()[i as int]);
        }
        if !item.as_str().is_empty() {
            out.push(item);
            assert(out.deep_view() =~= before.push(item@));
        }
        i += 1;
    }
    assert(items.deep_view().take(items@.len() as int) =~= items.deep_view());
    out
}

/// `text` cut to at most `max_chars` characters, with an ellipsis in the middle
/// where it was cut.
pub fn preview(text: &str, max_chars: usize) -> (r: String)
    ensures
        r@ == previewed(text@, max_chars as nat),
{
    if max_chars == 0 {
        return String::new();
    }
    let total = chars_of(text);
    if total.len() <= max_chars {
        return text.to_owned();
    }
    if max_chars == 1 {
        let mut out = String::new();
        out.push('\u{2026}');
        assert(out@ =~= seq!['\u{2026}']);
        return out;
    }
    let available: usize = max_chars - 1;
    let two_thirds: usize = ((available as u128) * 2 / 3) as usize;
    let head_count: usize = if two_thirds > 1 {
        two_thirds
    } else {
        1
    };
    let tail_count: usize = available - head_count;
    let mut out = text_of(&total, 0, head_count);
    out.push('\u{2026}');
    let from: usize = total.len() - tail_count;
    out.push_str(text_of(&total, from, total.len()).as_str());
    assert(out@ =~= previewed(text@, max_chars as nat));
    out
}

/// A preview never has more characters than it is allowed.
pub proof fn preview_fits(text: Seq<char>, max: nat)
    ensures
        previewed(text, max).len() <= max,
{
}

/// A preview of a preview of the same width changes nothing.
pub proof fn preview_is_idempotent(text: Seq<char>, max: nat)
    ensures
        previewed(previewed(text, max), max) == previewed(text, max),
{
}

/// The law of trimming: trimming twice is trimming once.
pub proof fn trimming_is_idempotent(text: Seq<char>)
    ensures
        trimmed(trimmed(text)) == trimmed(text),
{
    lemma_trimmed_start_head(text);
    let head = trimmed_start(text);
    lemma_trimmed_end_keeps_head(head);
    lemma_trimmed_end_last(head);
}

proof fn lemma_trimmed_start_head(text: Seq<char>)
    ensures
        trimmed_start(text).len() > 0 ==> !is_space(trimmed_start(text)[0]),
    decreases text.len(),
{
    if text.len() > 0 && is_space(text[0]) {
        lemma_trimmed_start_head(text.drop_first());
    }
}

proof fn lemma_trimmed_end_last(text: Seq<char>)
    ensures
        trimmed_end(text).len() > 0 ==> !is_space(trimmed_end(text).last()),
    decreases text.len(),
{
    if text.len() > 0 && is_space(text.last()) {
        lemma_trimmed_end_last(text.drop_last());
    }
}

proof fn lemma_trimmed_end_keeps_head(text: Seq<char>)
    ensures
        trimmed_end(text).len() <= text.len(),
        trimmed_end(text).len() > 0 ==> trimmed_end(text)[0] == text[0],
    decreases text.len(),
{
    if text.len() > 0 && is_space(text.last()) {
        lemma_trimmed_end_keeps_head(text.drop_last());
    }
}

proof fn lemma_digit(d: int)
    requires
        0 <= d < 10,
    ensures
        '0' <= digit_char(d) <= '9',
        digit_char(d) as int - '0' as int == d,
        digit_char(d) != '+' && digit_char(d) != ':' && digit_char(d) != '-',
{
}

proof fn lemma_decimal_digits(n: nat)
    ensures
        decimal(n).len() > 0,
        digits_value(decimal(n)) == Some(n),
        forall|i: int|
            0 <= i < decimal(n).len() ==> '0' <= #[trigger] decimal(n)[i] && decimal(n)[i] <= '9',
    decreases n,
{
    let text = decimal(n);
    let empty: Seq<char> = Seq::empty();
    assert(digits_value(empty) == Some(0nat));
    if n < 10 {
        lemma_digit(n as int);
        assert(text.drop_last() =~= empty);
    } else {
        lemma_digit((n % 10) as int);
        lemma_decimal_digits(n / 10);
        let head = decimal(n / 10);
        assert(text.drop_last() =~= head);
        assert(text.last() == digit_char((n % 10) as int));
        assert forall|i: int| 0 <= i < text.len() implies '0' <= #[trigger] text[i] && text[i]
            <= '9' by {
            if i < head.len() {
                assert(text[i] == head[i]);
            }
        }
    }
}

/// A number that is written out is read back as the same number, as long as it is
/// within the bound.
pub proof fn numbers_are_read_back(n: nat, max: nat)
    ensures
        decimal(n).len() > 0,
        digits_value(decimal(n)) == Some(n),
        n <= max ==> unsigned_value(decimal(n), max) == Some(n),
        n > max ==> unsigned_value(decimal(n), max) is None,
        forall|i: int|
            0 <= i < decimal(n).len() ==> '0' <= #[trigger] decimal(n)[i] && decimal(n)[i] <= '9',
{
    lemma_decimal_digits(n);
    assert(decimal(n)[0] != '+');
}

proof fn lemma_lead_of_space(text: Seq<char>) -> (k: int)
    ensures
        0 <= k <= text.len(),
        trimmed_start(text) == text.skip(k),
        forall|i: int| 0 <= i < k ==> is_space(#[trigger] text[i]),
        k < text.len() ==> !is_space(text[k]),
    decreases text.len(),
{
    if text.len() > 0 && is_space(text[0]) {
        let rest = text.drop_first();
        let k = lemma_lead_of_space(rest);
        assert(rest.skip(k) =~= text.skip(k + 1));
        assert forall|i: int| 0 <= i < k + 1 implies is_space(#[trigger] text[i]) by {
            if i > 0 {
                assert(text[i] == rest[i - 1]);
            }
        }
        k + 1
    } else {
        assert(text.skip(0) =~= text);
        0
    }
}

proof fn lemma_trail_of_space(text: Seq<char>) -> (k: int)
    ensures
        0 <= k <= text.len(),
        trimmed_end(text) == text.take(k),
        forall|i: int| k <= i < text.len() ==> is_space(#[trigger] text[i]),
        k > 0 ==> !is_space(text[k - 1]),
    decreases text.len(),
{
    if text.len() > 0 && is_space(text.last()) {
        let rest = text.drop_last();
        let k = lemma_trail_of_space(rest);
        assert(rest.take(k) =~= text.take(k));
        assert forall|i: int| k <= i < text.len() implies is_space(#[trigger] text[i]) by {
            if i < rest.len() {
                assert(text[i] == rest[i]);
            }
        }
        k
    } else {
        assert(text.take(text.len() as int) =~= text);
        text.len() as int
    }
}

/// Trimming takes white space from both ends and nothing else: what is left is a
/// stretch of the text that begins and ends with something, and everything around
/// it is white space.
pub proof fn trimming_takes_white_space_only(text: Seq<char>) -> (at: int)
    ensures
        0 <= at <= at + trimmed(text).len() <= text.len(),
        trimmed(text) == text.subrange(at, at + trimmed(text).len()),
        forall|i: int| 0 <= i < at ==> is_space(#[trigger] text[i]),
        forall|i: int|
            at + trimmed(text).len() <= i < text.len() ==> is_space(#[trigger] text[i]),
        trimmed(text).len() > 0 ==> !is_space(trimmed(text)[0]) && !is_space(trimmed(text).last()),
{
    let at = lemma_lead_of_space(text);
    let rest = text.skip(at);
    let n = lemma_trail_of_space(rest);
    assert(rest.take(n) =~= text.subrange(at, at + n));
    assert forall|i: int| at + n <= i < text.len() implies is_space(#[trigger] text[i]) by {
        assert(text[i] == rest[i - at]);
    }
    if n > 0 {
        assert(rest[0] == text[at]);
    }
    at
}

/// A text that fits is shown whole. A longer one is shown at the full width, its
/// beginning and its end around an ellipsis, with about two thirds of the room for
/// the beginning.
pub proof fn previews_keep_both_ends(text: Seq<char>, max: nat)
    requires
        max >= 2,
    ensures
        text.len() <= max ==> previewed(text, max) == text,
        text.len() > max ==> {
            let head = if max <= 2 {
                1
            } else {
                (max - 1) * 2 / 3
            };
            let shown = previewed(text, max);
            &&& shown.len() == max
            &&& 1 <= head < max
            &&& shown.take(head) == text.take(head)
            &&& shown[head] == '\u{2026}'
            &&& shown.skip(head + 1) == text.skip(text.len() - (max - 1 - head))
        },
{
    if text.len() > max {
        let head = if max <= 2 {
            1
        } else {
            (max - 1) * 2 / 3
        };
        let shown = previewed(text, max);
        assert(shown.take(head) =~= text.take(head));
        assert(shown.skip(head + 1) =~= text.skip(text.len() - (max - 1 - head)));
    }
}

/// Joined texts stand in order with the separator between neighbours, and nowhere
/// else.
pub proof fn joining_puts_separators_between(
    parts: Seq<Seq<char>>,
    last: Seq<char>,
    sep: Seq<char>,
)
    ensures
        joined(Seq::empty(), sep).len() == 0,
        parts.len() == 0 ==> joined(parts.push(last), sep) == last,
        parts.len() > 0 ==> joined(parts.push(last), sep) == joined(parts, sep) + sep + last,
{
    assert(parts.push(last).drop_last() =~= parts);
    if parts.len() == 0 {
        assert(parts.push(last)[0] == last);
    }
}

/// Cleaning trims every item in order and leaves out those that are blank.
pub proof fn cleaning_goes_item_by_item(items: Seq<Seq<char>>, last: Seq<char>)
    ensures
        cleaned(Seq::empty()).len() == 0,
        cleaned(items.push(last)) == if trimmed(last).len() > 0 {
            cleaned(items).push(trimmed(last))
        } else {
            cleaned(items)
        },
{
    assert(items.push(last).drop_last() =~= items);
}

proof fn lemma_space_pieces(text: Seq<char>)
    ensures
        space_pieces(text).len() > 0,
    decreases text.len(),
{
    if text.len() > 0 {
        lemma_space_pieces(text.drop_last());
    }
}

proof fn lemma_pieces_behind(head: Seq<char>, c: char, piece: Seq<char>)
    requires
        is_space(c),
        forall|i: int| 0 <= i < piece.len() ==> !is_space(#[trigger] piece[i]),
    ensures
        space_pieces(head.push(c) + piece) == space_pieces(head).push(piece),
    decreases piece.len(),
{
    let whole = head.push(c) + piece;
    if piece.len() == 0 {
        assert(whole =~= head.push(c));
        assert(whole.drop_last() =~= head);
        assert(piece =~= Seq::empty());
    } else {
        let shorter = piece.drop_last();
        assert(whole.drop_last() =~= head.push(c) + shorter);
        assert(whole.last() == piece.last());
        assert(!is_space(piece[piece.len() - 1]));
        assert forall|i: int| 0 <= i < shorter.len() implies !is_space(#[trigger] shorter[i]) by {
            assert(shorter[i] == piece[i]);
        }
        lemma_pieces_behind(head, c, shorter);
        assert(shorter.push(piece.last()) =~= piece);
        assert(space_pieces(whole.drop_last()).drop_last() =~= space_pieces(head));
    }
}

proof fn lemma_one_piece(piece: Seq<char>)
    requires
        forall|i: int| 0 <= i < piece.len() ==> !is_space(#[trigger] piece[i]),
    ensures
        space_pieces(piece) == seq![piece],
    decreases piece.len(),
{
    if piece.len() == 0 {
        assert(piece =~= Seq::empty());
        assert(space_pieces(piece) =~= seq![piece]);
    } else {
        let shorter = piece.drop_last();
        assert(!is_space(piece[piece.len() - 1]));
        assert forall|i: int| 0 <= i < shorter.len() implies !is_space(#[trigger] shorter[i]) by {
            assert(shorter[i] == piece[i]);
        }
        lemma_one_piece(shorter);
        assert(shorter.push(piece.last()) =~= piece);
        assert(space_pieces(piece) =~= seq![piece]);
    }
}

/// White space sets words apart and nothing else does: a text without it is one
/// word, or none if it is empty, and a stretch without it behind white space is one
/// word more.
pub proof fn words_are_set_apart_by_white_space(head: Seq<char>, c: char, word: Seq<char>)
    requires
        is_space(c),
        forall|i: int| 0 <= i < word.len() ==> !is_space(#[trigger] word[i]),
    ensures
        words(word) == if word.len() == 0 {
            Seq::empty()
        } else {
            seq![word]
        },
        words(head.push(c) + word) == if word.len() == 0 {
            words(head)
        } else {
            words(head).push(word)
        },
{
    lemma_one_piece(word);
    lemma_pieces_behind(head, c, word);
    let pieces = space_pieces(head);
    assert(pieces.push(word).drop_last() =~= pieces);
    let none: Seq<Seq<char>> = Seq::empty();
    assert(seq![word].drop_last() =~= none);
    assert(nonempty(none) =~= none);
    assert(words(word) =~= if word.len() == 0 {
        Seq::empty()
    } else {
        seq![word]
    });
}

/// Lower case changes the capitals of the alphabet into the small letters in their
/// place, and no other character.
pub proof fn only_capitals_are_lowered(text: Seq<char>, i: int)
    requires
        0 <= i < text.len(),
    ensures
        lowered(text).len() == text.len(),
        'A' <= text[i] <= 'Z' ==> lowered(text)[i] as int == text[i] as int + 32,
        !('A' <= text[i] <= 'Z') ==> lowered(text)[i] == text[i],
{
}

/// The first line of a text ends where the first line break stands, and a carriage
/// return before the break belongs to the break.
pub proof fn lines_end_at_the_first_break(line: Seq<char>, rest: Seq<char>)
    requires
        forall|i: int| 0 <= i < line.len() ==> line[i] != '\n',
    ensures
        first_line(line) == line,
        line.len() == 0 || line.last() != '\r' ==> first_line(line + seq!['\n'] + rest) == line,
        first_line(line + seq!['\r', '\n'] + rest) == line,
{
    lemma_first_of(line, '\n', line.len() as int);
    assert(line.take(line.len() as int) =~= line);
    let plain = line + seq!['\n'] + rest;
    assert(plain[line.len() as int] == '\n');
    assert forall|j: int| 0 <= j < line.len() implies plain[j] != '\n' by {
        assert(plain[j] == line[j]);
    }
    lemma_first_of(plain, '\n', line.len() as int);
    assert(plain.take(line.len() as int) =~= line);
    let marked = line + seq!['\r', '\n'] + rest;
    assert(marked[line.len() as int] == '\r' && marked[line.len() as int + 1] == '\n');
    assert forall|j: int| 0 <= j < line.len() as int + 1 implies marked[j] != '\n' by {
        if j < line.len() {
            assert(marked[j] == line[j]);
        }
    }
    lemma_first_of(marked, '\n', line.len() as int + 1);
    assert(marked.take(line.len() as int + 1).drop_last() =~= line);
}

pub proof fn lemma_already_trimmed(text: Seq<char>)
    requires
        text.len() > 0,
        !is_space(text[0]),
        !is_space(text.last()),
    ensures
        trimmed(text) == text,
{
}

} // verus!
