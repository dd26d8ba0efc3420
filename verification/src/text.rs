//! Text handling on sequences of characters: trimming, splitting, searching
//! and decimal rendering.
use vstd::prelude::*;
use vstd::string::StringExecFns;
use vstd::utf8::encode_utf8;

verus! {

/// `String::push` appends one character to the end of the string.
pub assume_specification[ String::push ](text: &mut String, c: char)
    ensures
        final(text)@ == old(text)@.push(c),
;

/// The characters that carry the Unicode property White_Space.
pub open spec fn is_white_space(c: char) -> bool {
    ||| '\u{9}' <= c <= '\u{d}'
    ||| c == ' '
    ||| c == '\u{85}'
    ||| c == '\u{a0}'
    ||| c == '\u{1680}'
    ||| '\u{2000}' <= c <= '\u{200a}'
    ||| c == '\u{2028}'
    ||| c == '\u{2029}'
    ||| c == '\u{202f}'
    ||| c == '\u{205f}'
    ||| c == '\u{3000}'
}

/// `s` without the white space at its start.
pub open spec fn trim_start(s: Seq<char>) -> Seq<char>
    decreases s.len(),
{
    if s.len() > 0 && is_white_space(s[0]) {
        trim_start(s.skip(1))
    } else {
        s
    }
}

/// `s` without the characters at its end that satisfy `drop`.
pub open spec fn trim_end_by(s: Seq<char>, drop: spec_fn(char) -> bool) -> Seq<char>
    decreases s.len(),
{
    if s.len() > 0 && drop(s.last()) {
        trim_end_by(s.drop_last(), drop)
    } else {
        s
    }
}

/// `s` without the white space at its start and at its end.
pub open spec fn trim(s: Seq<char>) -> Seq<char> {
    trim_end_by(trim_start(s), |c: char| is_white_space(c))
}

/// `s` without the slashes at its end.
pub open spec fn trim_end_slashes(s: Seq<char>) -> Seq<char> {
    trim_end_by(s, |c: char| c == '/')
}

/// The parts of `s` between the occurrences of `separator`; always at least one.
pub open spec fn split(s: Seq<char>, separator: char) -> Seq<Seq<char>>
    decreases s.len(),
{
    if s.len() == 0 {
        seq![Seq::<char>::empty()]
    } else {
        let parts = split(s.drop_last(), separator);
        if s.last() == separator {
            parts.push(Seq::<char>::empty())
        } else {
            parts.drop_last().push(parts.last().push(s.last()))
        }
    }
}

/// The parts put one behind the other, with `separator` between neighbours.
pub open spec fn join(parts: Seq<Seq<char>>, separator: char) -> Seq<char>
    decreases parts.len(),
{
    if parts.len() == 0 {
        Seq::<char>::empty()
    } else if parts.len() == 1 {
        parts[0]
    } else {
        join(parts.drop_last(), separator).push(separator) + parts.last()
    }
}

/// A line without the carriage return that may stand before its line feed.
pub open spec fn without_carriage_return(line: Seq<char>) -> Seq<char> {
    if line.len() > 0 && line.last() == '\r' {
        line.drop_last()
    } else {
        line
    }
}

/// The lines of `s`. A line ends with a line feed, or with a carriage return
/// and a line feed; the end of the last line may be missing.
pub open spec fn lines(s: Seq<char>) -> Seq<Seq<char>> {
    let parts = split(s, '\n');
    let ended = parts.drop_last().map_values(|line: Seq<char>| without_carriage_return(line));
    if parts.last().len() == 0 {
        ended
    } else {
        ended.push(parts.last())
    }
}

/// `pattern` stands in `s` at position `at`.
pub open spec fn occurs_at(s: Seq<char>, pattern: Seq<char>, at: int) -> bool {
    0 <= at && at + pattern.len() <= s.len() && s.subrange(at, at + pattern.len() as int)
        == pattern
}

/// `pattern` stands somewhere in `s`.
pub open spec fn contains(s: Seq<char>, pattern: Seq<char>) -> bool {
    exists|at: int| occurs_at(s, pattern, at)
}

/// An ASCII capital letter as a small letter; any other character as it is.
pub open spec fn ascii_lower(c: char) -> char {
    if 'A' <= c <= 'Z' {
        (c as u32 + 32) as char
    } else {
        c
    }
}

/// Every ASCII capital letter of `s` as a small letter.
pub open spec fn to_ascii_lowercase(s: Seq<char>) -> Seq<char> {
    s.map_values(|c: char| ascii_lower(c))
}

/// The decimal digit of value `d`.
pub open spec fn digit_char(d: nat) -> char {
    if d == 0 {
        '0'
    } else if d == 1 {
        '1'
    } else if d == 2 {
        '2'
    } else if d == 3 {
        '3'
    } else if d == 4 {
        '4'
    } else if d == 5 {
        '5'
    } else if d == 6 {
        '6'
    } else if d == 7 {
        '7'
    } else if d == 8 {
        '8'
    } else {
        '9'
    }
}

/// `c` is a decimal digit.
pub open spec fn is_digit(c: char) -> bool {
    '0' <= c <= '9'
}

/// The value of a decimal digit.
pub open spec fn digit_value(c: char) -> nat {
    (c as u32 - '0' as u32) as nat
}

/// `n` in decimal, without leading zeros.
pub open spec fn decimal(n: nat) -> Seq<char>
    decreases n,
{
    if n < 10 {
        seq![digit_char(n)]
    } else {
        decimal(n / 10).push(digit_char(n % 10))
    }
}

/// The length of a text in bytes.
pub open spec fn byte_len(s: Seq<char>) -> nat {
    encode_utf8(s).len()
}

/// `n` copies of the character `c`.
pub open spec fn repeated(c: char, n: nat) -> Seq<char> {
    Seq::new(n, |i: int| c)
}

/// The characters of a text.
pub fn chars_of(text: &str) -> (chars: Vec<char>)
    ensures
        chars@ == text@,
{
    let mut chars: Vec<char> = Vec::new();
    for c in it: text.chars()
        invariant
            chars@ == it.seq().take(it.index() as int),
            it.seq() == text@,
    {
        chars.push(c);
        proof {
            assert(it.seq().take(it.index() as int + 1) =~= it.seq().take(
                it.index() as int,
            ).push(c));
        }
    }
    proof {
        assert(text@.take(text@.len() as int) =~= text@);
    }
    chars
}

/// The text made of the characters `chars[from..to]`.
pub fn text_of(chars: &Vec<char>, from: usize, to: usize) -> (text: String)
    requires
        from <= to <= chars@.len(),
    ensures
        text@ == chars@.subrange(from as int, to as int),
{
    let mut text = String::new();
    let mut i: usize = from;
    while i < to
        invariant
            from <= i <= to <= chars@.len(),
            text@ == chars@.subrange(from as int, i as int),
        decreases to - i,
    {
        text.push(chars[i]);
        proof {
            assert(chars@.subrange(from as int, i + 1) =~= chars@.subrange(
                from as int,
                i as int,
            ).push(chars@[i as int]));
        }
        i = i + 1;
    }
    text
}

/// Whether a character is white space.
fn white_space(c: char) -> (white: bool)
    ensures
        white == is_white_space(c),
{
    ('\u{9}' <= c && c <= '\u{d}') || c == ' ' || c == '\u{85}' || c == '\u{a0}' || c == '\u{1680}' || (
    '\u{2000}' <= c && c <= '\u{200a}') || c == '\u{2028}' || c == '\u{2029}' || c == '\u{202f}' || c
        == '\u{205f}' || c == '\u{3000}'
}

/// A text without the white space around it.
pub fn trimmed(text: &str) -> (trimmed: String)
    ensures
        trimmed@ == trim(text@),
{
    let chars = chars_of(text);
    let mut from: usize = 0;
    proof {
        assert(chars@.skip(0) =~= chars@);
    }
    while from < chars.len() && white_space(chars[from])
        invariant
            from <= chars@.len(),
            trim_start(chars@.skip(from as int)) == trim_start(chars@),
        decreases chars.len() - from,
    {
        proof {
            assert(chars@.skip(from as int).skip(1) =~= chars@.skip(from + 1));
        }
        from = from + 1;
    }
    let ghost rest = chars@.skip(from as int);
    let ghost drop = |c: char| is_white_space(c);
    let mut to: usize = chars.len();
    proof {
        assert(rest =~= chars@.subrange(from as int, to as int));
    }
    while to > from && white_space(chars[to - 1])
        invariant
            from <= to <= chars@.len(),
            drop == (|c: char| is_white_space(c)),
            trim_end_by(chars@.subrange(from as int, to as int), drop) == trim_end_by(rest, drop),
        decreases to - from,
    {
        proof {
            assert(chars@.subrange(from as int, to as int).drop_last() =~= chars@.subrange(
                from as int,
                to - 1,
            ));
        }
        to = to - 1;
    }
    text_of(&chars, from, to)
}

/// A text without the slashes at its end.
pub fn without_trailing_slashes(text: &str) -> (trimmed: String)
    ensures
        trimmed@ == trim_end_slashes(text@),
{
    let chars = chars_of(text);
    let ghost drop = |c: char| c == '/';
    let mut to: usize = chars.len();
    proof {
        assert(chars@.subrange(0, to as int) =~= chars@);
    }
    while to > 0 && chars[to - 1] == '/'
        invariant
            to <= chars@.len(),
            drop == (|c: char| c == '/'),
            trim_end_by(chars@.subrange(0, to as int), drop) == trim_end_by(chars@, drop),
        decreases to,
    {
        proof {
            assert(chars@.subrange(0, to as int).drop_last() =~= chars@.subrange(0, to - 1));
        }
        to = to - 1;
    }
    text_of(&chars, 0, to)
}

/// The views of a list of texts.
pub open spec fn views(texts: Seq<String>) -> Seq<Seq<char>> {
    texts.map_values(|text: String| text@)
}

/// The parts of a text between the occurrences of a separator.
pub fn parts_of(text: &str, separator: char) -> (parts: Vec<String>)
    ensures
        views(parts@) == split(text@, separator),
        parts@.len() > 0,
{
    let chars = chars_of(text);
    let mut parts: Vec<String> = Vec::new();
    let mut part = String::new();
    let mut i: usize = 0;
    proof {
        assert(views(parts@).push(part@) =~= seq![Seq::<char>::empty()]);
    }
    while i < chars.len()
        invariant
            i <= chars@.len(),
            views(parts@).push(part@) == split(chars@.take(i as int), separator),
        decreases chars.len() - i,
    {
        let c = chars[i];
        let ghost before = parts@;
        let ghost whole = views(parts@).push(part@);
        proof {
            assert(chars@.take(i + 1).drop_last() =~= chars@.take(i as int));
            assert(whole.drop_last() =~= views(parts@));
        }
        if c == separator {
            let ghost done = part@;
            parts.push(part);
            part = String::new();
            proof {
                assert(views(parts@) =~= views(before).push(done));
            }
        } else {
            part.push(c);
        }
        i = i + 1;
    }
    let ghost before = parts@;
    let ghost done = part@;
    parts.push(part);
    proof {
        assert(chars@.take(i as int) =~= chars@);
        assert(views(parts@) =~= views(before).push(done));
    }
    parts
}

/// A text without the separator is its only part.
pub proof fn lemma_split_whole(s: Seq<char>, separator: char)
    requires
        forall|i: int| 0 <= i < s.len() ==> #[trigger] s[i] != separator,
    ensures
        split(s, separator) == seq![s],
    decreases s.len(),
{
    if s.len() > 0 {
        let shorter = s.drop_last();
        assert forall|i: int| 0 <= i < shorter.len() implies #[trigger] shorter[i]
            != separator by {
            assert(shorter[i] == s[i]);
        }
        lemma_split_whole(shorter, separator);
        assert(s[s.len() - 1] != separator);
        assert(shorter.push(s.last()) =~= s);
        assert(split(s, separator) =~= seq![s]);
    } else {
        assert(s =~= Seq::<char>::empty());
    }
}

/// The length of a text in bytes.
pub fn byte_length(text: &str) -> (length: usize)
    ensures
        length == byte_len(text@),
{
    text.as_bytes().len()
}

/// Texts put one behind the other, with a separator between neighbours.
pub fn joined(parts: &Vec<String>, separator: char) -> (text: String)
    ensures
        text@ == join(views(parts@), separator),
{
    let mut text = String::new();
    let mut i: usize = 0;
    while i < parts.len()
        invariant
            i <= parts@.len(),
            text@ == join(views(parts@).take(i as int), separator),
        decreases parts.len() - i,
    {
        let ghost so_far = views(parts@).take(i as int);
        let ghost next = views(parts@).take(i + 1);
        if i > 0 {
            text.push(separator);
        }
        text.append(parts[i].as_str());
        proof {
            assert(next.drop_last() =~= so_far);
            assert(next.last() == parts@[i as int]@);
            assert(text@ =~= join(next, separator));
        }
        i = i + 1;
    }
    proof {
        assert(views(parts@).take(i as int) =~= views(parts@));
    }
    text
}

/// Whether two texts are the same.
pub fn same_text(a: &str, b: &str) -> (same: bool)
    ensures
        same == (a@ == b@),
{
    let left = chars_of(a);
    let right = chars_of(b);
    if left.len() != right.len() {
        return false;
    }
    let mut i: usize = 0;
    while i < left.len()
        invariant
            i <= left@.len() == right@.len(),
            left@ == a@,
            right@ == b@,
            forall|k: int| 0 <= k < i ==> left@[k] == right@[k],
        decreases left.len() - i,
    {
        if left[i] != right[i] {
            return false;
        }
        i = i + 1;
    }
    proof {
        assert(left@ =~= right@);
    }
    true
}

/// The lines of a text.
pub fn lines_of(text: &str) -> (found: Vec<String>)
    ensures
        views(found@) == lines(text@),
{
    let mut parts = parts_of(text, '\n');
    let ghost split_parts = split(text@, '\n');
    let last = parts.len() - 1;
    let mut found: Vec<String> = Vec::new();
    let ghost ended = split_parts.drop_last().map_values(
        |line: Seq<char>| without_carriage_return(line),
    );
    let mut i: usize = 0;
    while i < last
        invariant
            i <= last,
            last == parts@.len() - 1,
            views(parts@) == split_parts,
            ended == split_parts.drop_last().map_values(
                |line: Seq<char>| without_carriage_return(line),
            ),
            views(found@) == ended.take(i as int),
        decreases last - i,
    {
        let chars = chars_of(parts[i].as_str());
        let end = if chars.len() > 0 && chars[chars.len() - 1] == '\r' {
            chars.len() - 1
        } else {
            chars.len()
        };
        let line = text_of(&chars, 0, end);
        let ghost before = found@;
        proof {
            assert(split_parts[i as int] == parts@[i as int]@);
            assert(line@ =~= without_carriage_return(split_parts[i as int]));
            assert(ended.take(i + 1) =~= ended.take(i as int).push(line@));
        }
        found.push(line);
        proof {
            assert(views(found@) =~= views(before).push(found@.last()@));
        }
        i = i + 1;
    }
    proof {
        assert(ended.take(last as int) =~= ended);
        assert(split_parts.last() == parts@.last()@);
    }
    let final_part = parts.swap_remove(last);
    if !final_part.as_str().is_empty() {
        let ghost before = found@;
        found.push(final_part);
        proof {
            assert(views(found@) =~= views(before).push(found@.last()@));
        }
    }
    found
}

/// Whether a pattern stands somewhere in a text.
pub fn contains_text(text: &str, pattern: &str) -> (found: bool)
    ensures
        found == contains(text@, pattern@),
{
    let chars = chars_of(text);
    let wanted = chars_of(pattern);
    if wanted.len() > chars.len() {
        return false;
    }
    let mut at: usize = 0;
    while at <= chars.len() - wanted.len()
        invariant
            at <= chars@.len() - wanted@.len() + 1,
            wanted@.len() <= chars@.len(),
            chars@ == text@,
            wanted@ == pattern@,
            forall|k: int| 0 <= k < at ==> !occurs_at(text@, pattern@, k),
        decreases chars.len() - wanted.len() + 1 - at,
    {
        let mut same: usize = 0;
        while same < wanted.len() && chars[at + same] == wanted[same]
            invariant
                same <= wanted@.len(),
                at + wanted.len() <= chars.len(),
                forall|k: int| 0 <= k < same ==> chars@[at + k] == wanted@[k],
            decreases wanted.len() - same,
        {
            same = same + 1;
        }
        if same == wanted.len() {
            proof {
                assert(text@.subrange(at as int, at + pattern@.len() as int) =~= pattern@);
                assert(occurs_at(text@, pattern@, at as int));
            }
            return true;
        }
        proof {
            if occurs_at(text@, pattern@, at as int) {
                assert(text@.subrange(at as int, at + pattern@.len() as int)[same as int]
                    == pattern@[same as int]);
            }
        }
        at = at + 1;
    }
    false
}

/// A text with every ASCII capital letter as a small letter.
pub fn lowercased(text: &str) -> (lower: String)
    ensures
        lower@ == to_ascii_lowercase(text@),
{
    let chars = chars_of(text);
    let mut lower = String::new();
    let mut i: usize = 0;
    while i < chars.len()
        invariant
            i <= chars@.len(),
            lower@ == to_ascii_lowercase(chars@.take(i as int)),
        decreases chars.len() - i,
    {
        let c = chars[i];
        let small = if 'A' <= c && c <= 'Z' {
            ((c as u8) + 32) as char
        } else {
            c
        };
        lower.push(small);
        proof {
            assert(to_ascii_lowercase(chars@.take(i + 1)) =~= to_ascii_lowercase(
                chars@.take(i as int),
            ).push(ascii_lower(c)));
        }
        i = i + 1;
    }
    proof {
        assert(chars@.take(i as int) =~= chars@);
    }
    lower
}

/// The decimal digit of value `d`.
fn digit(d: u64) -> (c: char)
    requires
        d < 10,
    ensures
        c == digit_char(d as nat),
{
    if d == 0 {
        '0'
    } else if d == 1 {
        '1'
    } else if d == 2 {
        '2'
    } else if d == 3 {
        '3'
    } else if d == 4 {
        '4'
    } else if d == 5 {
        '5'
    } else if d == 6 {
        '6'
    } else if d == 7 {
        '7'
    } else if d == 8 {
        '8'
    } else {
        '9'
    }
}

/// Appends a number in decimal.
pub fn push_decimal(text: &mut String, n: u64)
    ensures
        final(text)@ == old(text)@ + decimal(n as nat),
    decreases n,
{
    if n >= 10 {
        push_decimal(text, n / 10);
    }
    text.push(digit(n % 10));
    proof {
        assert(text@ =~= old(text)@ + decimal(n as nat));
    }
}

/// A number in decimal.
pub fn decimal_text(n: u64) -> (text: String)
    ensures
        text@ == decimal(n as nat),
{
    let mut text = String::new();
    push_decimal(&mut text, n);
    proof {
        assert(text@ =~= decimal(n as nat));
    }
    text
}

/// The parts of two texts with the separator between them are the parts of both.
proof fn lemma_split_append(a: Seq<char>, b: Seq<char>, separator: char)
    ensures
        split(a.push(separator) + b, separator) == split(a, separator) + split(b, separator),
        split(b, separator).len() > 0,
    decreases b.len(),
{
    let s = a.push(separator) + b;
    if b.len() == 0 {
        assert(s.drop_last() =~= a);
        assert(s.last() == separator);
        assert(split(s, separator) =~= split(a, separator) + split(b, separator));
    } else {
        let shorter = b.drop_last();
        lemma_split_append(a, shorter, separator);
        assert(s.drop_last() =~= a.push(separator) + shorter);
        assert(s.last() == b.last());
        let parts = split(a, separator) + split(shorter, separator);
        assert(parts.last() == split(shorter, separator).last());
        assert(parts.drop_last() =~= split(a, separator) + split(shorter, separator).drop_last());
        assert(split(s, separator) =~= split(a, separator) + split(b, separator));
    }
}

/// Parts that are put together are those of the first list, the separator, and those of
/// the second.
pub proof fn law_joined_parts_stay_apart(
    front: Seq<Seq<char>>,
    back: Seq<Seq<char>>,
    separator: char,
)
    requires
        front.len() > 0,
        back.len() > 0,
    ensures
        join(front + back, separator) == join(front, separator).push(separator) + join(
            back,
            separator,
        ),
    decreases back.len(),
{
    let all = front + back;
    let fewer = back.drop_last();
    assert(all.last() == back.last());
    assert(all.drop_last() =~= front + fewer);
    if back.len() == 1 {
        assert(front + fewer =~= front);
    } else {
        law_joined_parts_stay_apart(front, fewer, separator);
        assert(join(all, separator) =~= join(front, separator).push(separator) + join(
            back,
            separator,
        ));
    }
}

/// The parts of a text, put together again, are the text; none of them holds the
/// separator, and there is always at least one.
pub proof fn law_parts_make_the_text(s: Seq<char>, separator: char)
    ensures
        split(s, separator).len() > 0,
        join(split(s, separator), separator) == s,
        forall|k: int|
            0 <= k < split(s, separator).len() ==> !(#[trigger] split(s, separator)[k]).contains(
                separator,
            ),
    decreases s.len(),
{
    let parts = split(s, separator);
    if s.len() == 0 {
        assert(s =~= Seq::<char>::empty());
        assert(parts[0] =~= s);
    } else {
        let shorter = s.drop_last();
        let before = split(shorter, separator);
        law_parts_make_the_text(shorter, separator);
        if s.last() == separator {
            assert(parts.drop_last() =~= before);
            assert(join(parts, separator) =~= shorter.push(separator));
            assert(shorter.push(separator) =~= s);
        } else {
            let longer = before.last().push(s.last());
            assert(parts.drop_last() =~= before.drop_last());
            assert(parts.last() == longer);
            assert(join(parts, separator) =~= join(before, separator).push(s.last()));
            assert(shorter.push(s.last()) =~= s);
        }
        assert forall|k: int| 0 <= k < parts.len() implies !(#[trigger] parts[k]).contains(
            separator,
        ) by {
            if s.last() == separator {
                if k < before.len() {
                    assert(parts[k] == before[k]);
                }
            } else if k < before.len() - 1 {
                assert(parts[k] == before[k]);
            } else {
                let last = before[before.len() - 1];
                assert(parts[k] == last.push(s.last()));
                if parts[k].contains(separator) {
                    let i = choose|i: int| 0 <= i < parts[k].len() && parts[k][i] == separator;
                    assert(last[i] == separator);
                }
            }
        }
    }
}

/// A text without line feeds is one line, whether a line feed, a carriage return and a
/// line feed, or nothing ends it; there is no line in an empty text.
pub proof fn law_one_line_is_one_line(line: Seq<char>)
    requires
        forall|i: int| 0 <= i < line.len() ==> #[trigger] line[i] != '\n',
        line.len() > 0 ==> line.last() != '\r',
    ensures
        lines(line.push('\n')) == seq![line],
        lines(line.push('\r').push('\n')) == seq![line],
        line.len() > 0 ==> lines(line) == seq![line],
        lines(Seq::empty()) == Seq::<Seq<char>>::empty(),
{
    let empty = Seq::<char>::empty();
    let returned = line.push('\r');
    lemma_split_whole(line, '\n');
    assert forall|i: int| 0 <= i < returned.len() implies #[trigger] returned[i] != '\n' by {
        if i < line.len() {
            assert(returned[i] == line[i]);
        }
    }
    lemma_split_whole(returned, '\n');
    assert(line.push('\n').drop_last() =~= line);
    assert(returned.push('\n').drop_last() =~= returned);
    assert(split(line.push('\n'), '\n') =~= seq![line, empty]);
    assert(split(returned.push('\n'), '\n') =~= seq![returned, empty]);
    assert(returned.drop_last() =~= line);
    assert(seq![line, empty].drop_last() =~= seq![line]);
    assert(seq![returned, empty].drop_last() =~= seq![returned]);
    assert(lines(line.push('\n')) =~= seq![line]);
    assert(lines(returned.push('\n')) =~= seq![line]);
    if line.len() > 0 {
        assert(seq![line].drop_last() =~= Seq::<Seq<char>>::empty());
        assert(lines(line) =~= seq![line]);
    }
    assert(split(empty, '\n') =~= seq![empty]);
    assert(lines(empty) =~= Seq::<Seq<char>>::empty());
}

/// A text without the slashes at its end does not end with one, and nothing but slashes
/// was dropped.
pub proof fn law_only_slashes_are_dropped(s: Seq<char>)
    ensures
        ({
            let left = trim_end_slashes(s);
            &&& left.len() <= s.len()
            &&& left == s.take(left.len() as int)
            &&& left.len() > 0 ==> left.last() != '/'
            &&& forall|i: int| left.len() <= i < s.len() ==> #[trigger] s[i] == '/'
        }),
    decreases s.len(),
{
    let left = trim_end_slashes(s);
    if s.len() > 0 && s.last() == '/' {
        let rest = s.drop_last();
        law_only_slashes_are_dropped(rest);
        assert(rest.take(left.len() as int) =~= s.take(left.len() as int));
        assert forall|i: int| left.len() <= i < s.len() implies #[trigger] s[i] == '/' by {
            if i < rest.len() {
                assert(s[i] == rest[i]);
            }
        }
    } else {
        assert(s.take(s.len() as int) =~= s);
    }
}

/// Capital letters become the small letters of the same place in the alphabet, every
/// other character stays, and no capital letter is left.
pub proof fn law_only_capitals_are_lowered(s: Seq<char>)
    ensures
        to_ascii_lowercase(s).len() == s.len(),
        forall|i: int|
            #![trigger to_ascii_lowercase(s)[i]]
            0 <= i < s.len() ==> {
                let c = to_ascii_lowercase(s)[i];
                &&& !('A' <= c <= 'Z')
                &&& 'A' <= s[i] <= 'Z' ==> 'a' <= c <= 'z' && c as u32 - 'a' as u32 == s[i] as u32
                    - 'A' as u32
                &&& !('A' <= s[i] <= 'Z') ==> c == s[i]
            },
{
}

/// Every character is white space.
pub open spec fn is_blank(s: Seq<char>) -> bool {
    forall|i: int| 0 <= i < s.len() ==> is_white_space(#[trigger] s[i])
}

/// White space before a text is dropped with that at its start.
proof fn lemma_trim_start_blank(front: Seq<char>, s: Seq<char>)
    requires
        is_blank(front),
    ensures
        trim_start(front + s) == trim_start(s),
    decreases front.len(),
{
    if front.len() == 0 {
        assert(front + s =~= s);
    } else {
        let rest = front.skip(1);
        assert forall|i: int| 0 <= i < rest.len() implies is_white_space(#[trigger] rest[i]) by {
            assert(rest[i] == front[i + 1]);
        }
        assert(is_white_space(front[0]));
        assert((front + s)[0] == front[0]);
        assert((front + s).skip(1) =~= rest + s);
        lemma_trim_start_blank(rest, s);
    }
}

/// What follows a text stays behind it when white space is dropped at its start.
proof fn lemma_trim_start_before(s: Seq<char>, back: Seq<char>)
    ensures
        trim_start(s).len() > 0 ==> trim_start(s + back) == trim_start(s) + back,
        trim_start(s).len() == 0 ==> is_blank(s),
        trim_start(s).len() > 0 ==> !is_white_space(trim_start(s)[0]),
        trim_start(s).len() <= s.len(),
        trim_start(s) == s.skip(s.len() - trim_start(s).len()),
        is_blank(s.take(s.len() - trim_start(s).len())),
    decreases s.len(),
{
    if s.len() > 0 && is_white_space(s[0]) {
        let rest = s.skip(1);
        lemma_trim_start_before(rest, back);
        assert((s + back).skip(1) =~= rest + back);
        assert((s + back)[0] == s[0]);
        let dropped = s.len() - trim_start(s).len();
        assert(rest.skip(dropped - 1) =~= s.skip(dropped));
        assert forall|i: int| 0 <= i < dropped implies is_white_space(
            #[trigger] s.take(dropped)[i],
        ) by {
            if i > 0 {
                assert(s.take(dropped)[i] == rest.take(dropped - 1)[i - 1]);
            }
        }
        if trim_start(s).len() == 0 {
            assert forall|i: int| 0 <= i < s.len() implies is_white_space(#[trigger] s[i]) by {
                if i > 0 {
                    assert(s[i] == rest[i - 1]);
                }
            }
        }
    } else {
        assert(s.skip(0) =~= s);
    }
}

/// White space behind a text is dropped with that at its end.
proof fn lemma_trim_end_blank(s: Seq<char>, back: Seq<char>)
    requires
        is_blank(back),
    ensures
        trim_end_by(s + back, |c: char| is_white_space(c)) == trim_end_by(
            s,
            |c: char| is_white_space(c),
        ),
    decreases back.len(),
{
    if back.len() == 0 {
        assert(s + back =~= s);
    } else {
        let rest = back.drop_last();
        assert forall|i: int| 0 <= i < rest.len() implies is_white_space(#[trigger] rest[i]) by {
            assert(rest[i] == back[i]);
        }
        assert(is_white_space(back[back.len() - 1]));
        assert((s + back).drop_last() =~= s + rest);
        lemma_trim_end_blank(s, rest);
    }
}

/// What is left when white space is dropped at the end of a text stood at its start.
proof fn lemma_trim_end_front(s: Seq<char>)
    ensures
        ({
            let left = trim_end_by(s, |c: char| is_white_space(c));
            &&& left.len() <= s.len()
            &&& left == s.take(left.len() as int)
            &&& is_blank(s.skip(left.len() as int))
            &&& left.len() > 0 ==> !is_white_space(left.last())
        }),
    decreases s.len(),
{
    let left = trim_end_by(s, |c: char| is_white_space(c));
    if s.len() > 0 && is_white_space(s.last()) {
        let rest = s.drop_last();
        lemma_trim_end_front(rest);
        assert(rest.take(left.len() as int) =~= s.take(left.len() as int));
        let back = s.skip(left.len() as int);
        assert forall|i: int| 0 <= i < back.len() implies is_white_space(#[trigger] back[i]) by {
            if i < back.len() - 1 {
                assert(back[i] == rest.skip(left.len() as int)[i]);
            }
        }
    } else {
        assert(s.take(s.len() as int) =~= s);
    }
}

/// A trimmed text is the text without white space around it: what is left neither begins
/// nor ends with white space, and nothing but white space was dropped.
pub proof fn law_trimming_drops_only_white_space(s: Seq<char>)
    ensures
        trim(s).len() > 0 ==> !is_white_space(trim(s)[0]) && !is_white_space(trim(s).last()),
        exists|front: Seq<char>, back: Seq<char>|
            is_blank(front) && is_blank(back) && s == #[trigger] (front + trim(s) + back),
{
    let middle = trim_start(s);
    lemma_trim_start_before(s, Seq::empty());
    lemma_trim_end_front(middle);
    let front = s.take(s.len() - middle.len());
    let back = middle.skip(trim(s).len() as int);
    assert(s =~= front + trim(s) + back);
    if trim(s).len() > 0 {
        assert(trim(s)[0] == middle[0]);
    }
}

/// White space around a text makes no difference to the trimmed text.
pub proof fn law_white_space_around_is_dropped(front: Seq<char>, s: Seq<char>, back: Seq<char>)
    requires
        is_blank(front),
        is_blank(back),
    ensures
        trim(front + s + back) == trim(s),
{
    assert(front + s + back =~= front + (s + back));
    lemma_trim_start_blank(front, s + back);
    lemma_trim_start_before(s, back);
    if trim_start(s).len() > 0 {
        lemma_trim_end_blank(trim_start(s), back);
    } else {
        lemma_trim_start_blank(s, back);
        lemma_trim_start_before(back, Seq::empty());
        assert(back + Seq::<char>::empty() =~= back);
        lemma_blank_is_trimmed(back);
        assert(trim_start(s) =~= Seq::<char>::empty());
    }
}

/// Nothing is left of white space.
proof fn lemma_blank_is_trimmed(s: Seq<char>)
    requires
        is_blank(s),
    ensures
        trim_start(s) == Seq::<char>::empty(),
    decreases s.len(),
{
    if s.len() > 0 {
        let rest = s.skip(1);
        assert forall|i: int| 0 <= i < rest.len() implies is_white_space(#[trigger] rest[i]) by {
            assert(rest[i] == s[i + 1]);
        }
        assert(is_white_space(s[0]));
        lemma_blank_is_trimmed(rest);
    } else {
        assert(s =~= Seq::<char>::empty());
    }
}

/// The parts of two texts, one directly behind the other: the last part of the first
/// and the first part of the second are one.
proof fn lemma_split_joined(a: Seq<char>, b: Seq<char>, separator: char)
    ensures
        split(a, separator).len() > 0,
        split(b, separator).len() > 0,
        split(a + b, separator) == split(a, separator).drop_last().push(
            split(a, separator).last() + split(b, separator)[0],
        ) + split(b, separator).skip(1),
    decreases a.len() + b.len(),
{
    let front = split(a, separator);
    let back = split(b, separator);
    if b.len() == 0 {
        if a.len() > 0 {
            lemma_split_joined(a.drop_last(), b, separator);
        }
        assert(a + b =~= a);
        assert(front.last() + back[0] =~= front.last());
        assert(front =~= front.drop_last().push(front.last() + back[0]) + back.skip(1));
    } else {
        let shorter = b.drop_last();
        let parts = split(shorter, separator);
        lemma_split_joined(a, shorter, separator);
        assert((a + b).drop_last() =~= a + shorter);
        assert((a + b).last() == b.last());
        let whole = split(a + shorter, separator);
        if b.last() == separator {
            assert(back[0] == parts[0]);
            assert(whole.push(Seq::<char>::empty()) =~= front.drop_last().push(
                front.last() + back[0],
            ) + back.skip(1));
        } else if parts.len() == 1 {
            assert(whole.last() == front.last() + parts[0]);
            assert(whole.last().push(b.last()) =~= front.last() + back[0]);
            assert(whole.drop_last().push(whole.last().push(b.last())) =~= front.drop_last().push(
                front.last() + back[0],
            ) + back.skip(1));
        } else {
            assert(whole.last() == parts.last());
            assert(back[0] == parts[0]);
            assert(whole.drop_last().push(whole.last().push(b.last())) =~= front.drop_last().push(
                front.last() + back[0],
            ) + back.skip(1));
        }
    }
}

/// A text that is one part is that part.
proof fn lemma_single_part(s: Seq<char>, separator: char)
    requires
        split(s, separator).len() == 1,
    ensures
        split(s, separator)[0] == s,
    decreases s.len(),
{
    if s.len() > 0 {
        let shorter = s.drop_last();
        lemma_split_joined(shorter, Seq::empty(), separator);
        lemma_single_part(shorter, separator);
        assert(shorter.push(s.last()) =~= s);
    } else {
        assert(s =~= Seq::<char>::empty());
    }
}

/// A line that is appended to a text whose last line has no end yet makes that line
/// longer, and changes no other.
pub proof fn law_appended_text_extends_an_open_line(front: Seq<char>, line: Seq<char>)
    requires
        front.len() > 0,
        front.last() != '\n',
        line.len() > 0,
        lines(line.push('\n')) == seq![line],
    ensures
        lines(front + line.push('\n')) == lines(front).drop_last().push(
            lines(front).last() + line,
        ),
{
    let end = |line: Seq<char>| without_carriage_return(line);
    let empty = Seq::<char>::empty();
    let ended = line.push('\n');
    assert(ended.drop_last() =~= line);
    assert(split(ended, '\n').drop_last() =~= split(line, '\n'));
    assert(lines(ended) =~= split(line, '\n').map_values(end));
    assert(lines(ended).len() == 1);
    lemma_single_part(line, '\n');
    assert(lines(ended)[0] == without_carriage_return(line));
    lemma_split_joined(front, ended, '\n');
    lemma_split_joined(front.drop_last(), empty, '\n');
    let parts = split(front, '\n');
    assert(parts.last().len() > 0);
    assert(split(ended, '\n') =~= seq![line, empty]);
    let all = split(front + ended, '\n');
    assert(all =~= parts.drop_last().push(parts.last() + line).push(empty));
    let open = parts.last() + line;
    assert(open.last() == line.last());
    assert(without_carriage_return(open) == open);
    assert(all.drop_last() =~= parts.drop_last().push(open));
    assert(all.drop_last().map_values(end) =~= parts.drop_last().map_values(end).push(open));
    assert(lines(front).drop_last() =~= parts.drop_last().map_values(end));
}

/// What is appended to a text that ends with a line adds its own lines and changes none.
pub proof fn law_appended_text_adds_its_lines(front: Seq<char>, back: Seq<char>)
    requires
        front.len() == 0 || front.last() == '\n',
    ensures
        lines(front + back) == lines(front) + lines(back),
{
    let end = |line: Seq<char>| without_carriage_return(line);
    let empty = Seq::<char>::empty();
    if front.len() == 0 {
        assert(front + back =~= back);
        assert(front =~= empty);
        assert(split(front, '\n') =~= seq![empty]);
        assert(lines(front) =~= Seq::<Seq<char>>::empty());
        assert(lines(front) + lines(back) =~= lines(back));
    } else {
        let body = front.drop_last();
        assert(front =~= body.push('\n') + empty);
        assert(front + back =~= body.push('\n') + back);
        lemma_split_append(body, empty, '\n');
        lemma_split_append(body, back, '\n');
        let parts = split(body, '\n');
        let added = split(back, '\n');
        assert(split(empty, '\n') =~= seq![empty]);
        assert((parts + seq![empty]).drop_last() =~= parts);
        assert(lines(front) =~= parts.map_values(end));
        assert((parts + added).drop_last() =~= parts + added.drop_last());
        assert((parts + added.drop_last()).map_values(end) =~= parts.map_values(end)
            + added.drop_last().map_values(end));
        assert((parts + added).last() == added.last());
        assert(lines(front + back) =~= lines(front) + lines(back));
    }
}

} // verus!
