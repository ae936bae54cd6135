//! Text: the operations on characters that the rest of the library is built on.

use vstd::prelude::*;
use vstd::string::*;

verus! {

/// The characters of each string of a list.
pub open spec fn texts(values: Seq<String>) -> Seq<Seq<char>> {
    values.map_values(|value: String| value@)
}

/// The characters of a string that may be missing.
pub open spec fn option_text(value: Option<String>) -> Option<Seq<char>> {
    match value {
        Some(value) => Some(value@),
        None => None,
    }
}

/// `String::push` appends one character.
pub assume_specification[ String::push ](s: &mut String, c: char)
    ensures
        final(s)@ == old(s)@.push(c),
;

/// `text` with every `from` replaced by `to`.
pub open spec fn replaced(text: Seq<char>, from: char, to: Seq<char>) -> Seq<char>
    decreases text.len(),
{
    if text.len() == 0 {
        seq![]
    } else if text.last() == from {
        replaced(text.drop_last(), from, to) + to
    } else {
        replaced(text.drop_last(), from, to).push(text.last())
    }
}

/// Replaces every `from` in `text` by `to`.
pub fn replace_char(text: &str, from: char, to: &str) -> (result: String)
    ensures
        result@ == replaced(text@, from, to@),
{
    let mut result = String::new();
    for c in it: text.chars()
        invariant
            it.seq() == text@,
            result@ == replaced(text@.take(it.index() as int), from, to@),
    {
        assert(text@.take(it.index() + 1).drop_last() =~= text@.take(it.index() as int));
        if c == from {
            result.append(to);
        } else {
            result.push(c);
        }
    }
    assert(text@.take(text@.len() as int) =~= text@);
    result
}

/// The characters with the Unicode property `White_Space`.
pub open spec fn white_space(c: char) -> bool {
    let code = c as int;
    ||| 0x09 <= code <= 0x0d
    ||| code == 0x20
    ||| code == 0x85
    ||| code == 0xa0
    ||| code == 0x1680
    ||| 0x2000 <= code <= 0x200a
    ||| code == 0x2028
    ||| code == 0x2029
    ||| code == 0x202f
    ||| code == 0x205f
    ||| code == 0x3000
}

/// `text` without the white space at its two ends.
pub open spec fn trimmed(text: Seq<char>) -> Seq<char>
    decreases text.len(),
{
    if text.len() > 0 && white_space(text.first()) {
        trimmed(text.drop_first())
    } else if text.len() > 0 && white_space(text.last()) {
        trimmed(text.drop_last())
    } else {
        text
    }
}

/// `str::trim` removes the white space at both ends, as Unicode defines white space.
pub assume_specification[ str::trim ](s: &str) -> (r: &str)
    ensures
        r@ == trimmed(s@),
;

/// Trimming what has been trimmed changes nothing.
pub proof fn lemma_trimmed_once(text: Seq<char>)
    ensures
        trimmed(trimmed(text)) == trimmed(text),
    decreases text.len(),
{
    if text.len() > 0 && white_space(text.first()) {
        lemma_trimmed_once(text.drop_first());
    } else if text.len() > 0 && white_space(text.last()) {
        lemma_trimmed_once(text.drop_last());
    }
}

/// Whether `text` begins with `c`.
pub open spec fn begins(text: Seq<char>, c: char) -> bool {
    text.len() > 0 && text[0] == c
}

/// Whether `text` begins with `c`.
pub fn begins_with(text: &str, c: char) -> (result: bool)
    ensures
        result == begins(text@, c),
        result <==> text@.len() > 0 && text@[0] == c,
{
    let mut chars = text.chars();
    match chars.next() {
        Some(first) => first == c,
        None => false,
    }
}

/// Whether two strings hold the same characters.
pub fn same_text(left: &str, right: &str) -> (result: bool)
    ensures
        result == (left@ == right@),
{
    left.to_owned() == right.to_owned()
}

/// The parts of a list, one after the other, with `separator` between two of them.
pub open spec fn joined(parts: Seq<Seq<char>>, separator: Seq<char>) -> Seq<char>
    decreases parts.len(),
{
    if parts.len() == 0 {
        seq![]
    } else if parts.len() == 1 {
        parts[0]
    } else {
        joined(parts.drop_last(), separator) + separator + parts.last()
    }
}

/// Puts the parts of a list one after the other, with `separator` between two of them.
pub fn join(parts: &Vec<&str>, separator: &str) -> (result: String)
    ensures
        result@ == joined(parts@.map_values(|part: &str| part@), separator@),
{
    let ghost views = parts@.map_values(|part: &str| part@);
    let mut result = String::new();
    for i in 0..parts.len()
        invariant
            views == parts@.map_values(|part: &str| part@),
            result@ == joined(views.take(i as int), separator@),
    {
        assert(views.take(i + 1).drop_last() =~= views.take(i as int));
        if i > 0 {
            result.append(separator);
        }
        result.append(parts[i]);
    }
    assert(views.take(views.len() as int) =~= views);
    result
}

/// The decimal digit with the value `value`.
pub open spec fn digit(value: nat) -> char {
    (48 + value) as char
}

/// `number` in decimal digits, without leading zeros.
pub open spec fn decimal(number: nat) -> Seq<char>
    decreases number,
{
    if number < 10 {
        seq![digit(number)]
    } else {
        decimal(number / 10).push(digit(number % 10))
    }
}

/// Writes `number` in decimal digits.
pub fn decimal_text(number: usize) -> (result: String)
    ensures
        result@ == decimal(number as nat),
    decreases number,
{
    let mut result = if number < 10 {
        String::new()
    } else {
        decimal_text(number / 10)
    };
    let last: u8 = (number % 10) as u8;
    result.push((48 + last) as char);
    result
}

/// A line without the carriage return in front of its line feed.
pub open spec fn without_return(line: Seq<char>) -> Seq<char> {
    if line.len() > 0 && line.last() == '\r' {
        line.drop_last()
    } else {
        line
    }
}

/// The lines of a text. A line ends with a line feed, or with a carriage return and a line feed;
/// the last line may have no ending. No line holds its ending.
pub open spec fn lines_of(text: Seq<char>) -> Seq<Seq<char>>
    decreases text.len(),
{
    if text.len() == 0 {
        seq![]
    } else {
        match text.index_of_first('\n') {
            None => seq![text],
            Some(end) => {
                proof {
                    text.index_of_first_ensures('\n');
                }
                seq![without_return(text.take(end))] + lines_of(text.skip(end + 1))
            },
        }
    }
}

/// The lines of a text that starts with a line of which the end is known.
proof fn lemma_first_line(line: Seq<char>, rest: Seq<char>)
    requires
        !line.contains('\n'),
    ensures
        lines_of(line.push('\n') + rest) == seq![without_return(line)] + lines_of(rest),
{
    let text = line.push('\n') + rest;
    text.index_of_first_ensures('\n');
    assert(text[line.len() as int] == '\n');
    let end = text.index_of_first('\n')->0;
    if end < line.len() {
        assert(line[end] == '\n');
    }
    assert(text.take(end) =~= line);
    assert(text.skip(end + 1) =~= rest);
}

/// The lines of a text without a line feed.
proof fn lemma_last_line(line: Seq<char>)
    requires
        !line.contains('\n'),
    ensures
        lines_of(line) == if line.len() == 0 { Seq::<Seq<char>>::empty() } else { seq![line] },
{
    line.index_of_first_ensures('\n');
}

/// Splits a text into its lines.
pub fn split_lines(text: &str) -> (lines: Vec<String>)
    ensures
        texts(lines@) == lines_of(text@),
{
    let mut lines: Vec<String> = Vec::new();
    let mut current = String::new();
    let mut pending = false;
    let ghost mut line: Seq<char> = Seq::empty();
    assert(line + text@.skip(0) =~= text@);
    assert(texts(lines@) + lines_of(text@) =~= lines_of(text@));
    for c in it: text.chars()
        invariant
            it.seq() == text@,
            line == if pending { current@.push('\r') } else { current@ },
            !pending ==> !(current@.len() > 0 && current@.last() == '\r'),
            !line.contains('\n'),
            texts(lines@) + lines_of(line + text@.skip(it.index() as int)) == lines_of(text@),
    {
        let ghost rest = text@.skip(it.index() + 1);
        assert(line + text@.skip(it.index() as int) =~= line.push(c) + rest);
        if c == '\n' {
            proof {
                lemma_first_line(line, rest);
                assert(texts(lines@.push(current)) =~= texts(lines@).push(current@));
                assert(without_return(line) =~= current@);
                assert(texts(lines@) + (seq![current@] + lines_of(rest)) =~= texts(lines@).push(
                    current@,
                ) + lines_of(rest));
                line = Seq::empty();
                assert(line + rest =~= rest);
            }
            lines.push(current);
            current = String::new();
            pending = false;
        } else {
            if pending {
                current.push('\r');
            }
            if c == '\r' {
                pending = true;
            } else {
                pending = false;
                current.push(c);
            }
            proof {
                let longer = line.push(c);
                assert forall|i: int| 0 <= i < longer.len() implies longer[i] != '\n' by {
                    if i < line.len() {
                        assert(line.contains(line[i]));
                    }
                }
                line = longer;
            }
        }
    }
    proof {
        assert(line + text@.skip(text@.len() as int) =~= line);
        lemma_last_line(line);
        assert(texts(lines@) + Seq::<Seq<char>>::empty() =~= texts(lines@));
    }
    if pending {
        current.push('\r');
    }
    if !current.as_str().is_empty() {
        assert(texts(lines@.push(current)) =~= texts(lines@) + seq![current@]);
        lines.push(current);
    }
    lines
}

/// No line holds a line feed.
pub proof fn law_lines_hold_no_line_feed(text: Seq<char>)
    ensures
        forall|i: int|
            0 <= i < lines_of(text).len() ==> !(#[trigger] lines_of(text)[i]).contains('\n'),
    decreases text.len(),
{
    text.index_of_first_ensures('\n');
    if text.len() > 0 {
        match text.index_of_first('\n') {
            None => {},
            Some(end) => {
                law_lines_hold_no_line_feed(text.skip(end + 1));
                assert forall|i: int| 0 <= i < lines_of(text).len() implies !(
                #[trigger] lines_of(text)[i]).contains('\n') by {
                    if i > 0 {
                        assert(lines_of(text)[i] == lines_of(text.skip(end + 1))[i - 1]);
                    } else {
                        let line = lines_of(text)[0];
                        if line.contains('\n') {
                            let k = choose|k: int| 0 <= k < line.len() && line[k] == '\n';
                            assert(text[k] == '\n');
                        }
                    }
                }
            },
        }
    }
}

/// The line feed at the end of a text makes no line of its own.
pub proof fn law_final_line_feed_is_optional(text: Seq<char>)
    requires
        text.len() > 0,
        text.last() != '\n',
        text.last() != '\r',
    ensures
        lines_of(text.push('\n')) == lines_of(text),
    decreases text.len(),
{
    text.index_of_first_ensures('\n');
    match text.index_of_first('\n') {
        None => {
            lemma_first_line(text, Seq::empty());
            assert(text.push('\n') + Seq::empty() =~= text.push('\n'));
            assert(seq![text] + lines_of(Seq::empty()) =~= seq![text]);
        },
        Some(end) => {
            let line = text.take(end);
            let rest = text.skip(end + 1);
            assert(!line.contains('\n')) by {
                if line.contains('\n') {
                    let k = choose|k: int| 0 <= k < line.len() && line[k] == '\n';
                    assert(text[k] == '\n');
                }
            }
            assert(rest.last() == text.last());
            law_final_line_feed_is_optional(rest);
            lemma_first_line(line, rest.push('\n'));
            assert(line.push('\n') + rest.push('\n') =~= text.push('\n'));
        },
    }
}

/// A list of strings is as long as the list of their characters, and holds them in the same order.
pub proof fn law_texts_keep_the_list(values: Seq<String>)
    ensures
        texts(values).len() == values.len(),
        forall|i: int| 0 <= i < values.len() ==> #[trigger] texts(values)[i] == values[i]@,
{
}

/// A string that may be missing has characters if and only if it is there.
pub proof fn law_option_text_keeps_the_string(value: Option<String>)
    ensures
        value is Some <==> option_text(value) is Some,
        value is Some ==> option_text(value)->0 == value->0@,
{
}

/// Replacing goes part by part, and of a single character it leaves all but the one it looks for.
pub proof fn law_replacing_goes_part_by_part(
    one: Seq<char>,
    other: Seq<char>,
    from: char,
    to: Seq<char>,
)
    ensures
        replaced(one + other, from, to) == replaced(one, from, to) + replaced(other, from, to),
        one.len() == 0 ==> replaced(one, from, to).len() == 0,
        one.len() == 1 && one[0] == from ==> replaced(one, from, to) == to,
        one.len() == 1 && one[0] != from ==> replaced(one, from, to) == one,
    decreases other.len(),
{
    if one.len() == 1 {
        assert(one.drop_last() =~= Seq::empty());
        assert(replaced(Seq::<char>::empty(), from, to) =~= Seq::empty());
        assert(Seq::<char>::empty() + to =~= to);
        assert(Seq::<char>::empty().push(one[0]) =~= one);
    }
    if other.len() == 0 {
        assert(one + other =~= one);
        assert(replaced(one, from, to) + replaced(other, from, to) =~= replaced(one, from, to));
    } else {
        law_replacing_goes_part_by_part(one, other.drop_last(), from, to);
        assert((one + other).drop_last() =~= one + other.drop_last());
        assert(replaced(one + other, from, to) =~= replaced(one, from, to) + replaced(
            other,
            from,
            to,
        ));
    }
}

/// Whether there is only white space in a text before `start` and from `end` on.
pub open spec fn blank_around(text: Seq<char>, start: int, end: int) -> bool {
    &&& 0 <= start <= end <= text.len()
    &&& forall|i: int|
        #![trigger text[i]]
        0 <= i < start || end <= i < text.len() ==> white_space(text[i])
}

proof fn lemma_trimmed_ends(text: Seq<char>)
    ensures
        trimmed(text).len() > 0 ==> !white_space(trimmed(text).first()) && !white_space(
            trimmed(text).last(),
        ),
    decreases text.len(),
{
    if text.len() > 0 && white_space(text.first()) {
        lemma_trimmed_ends(text.drop_first());
    } else if text.len() > 0 && white_space(text.last()) {
        lemma_trimmed_ends(text.drop_last());
    }
}

proof fn lemma_trimmed_stretch(text: Seq<char>) -> (ends: (int, int))
    ensures
        blank_around(text, ends.0, ends.1),
        trimmed(text) == text.subrange(ends.0, ends.1),
    decreases text.len(),
{
    if text.len() > 0 && white_space(text.first()) {
        let rest = text.drop_first();
        let (start, end) = lemma_trimmed_stretch(rest);
        assert(rest.subrange(start, end) =~= text.subrange(start + 1, end + 1));
        assert forall|i: int|
            #![trigger text[i]]
            0 <= i < start + 1 || end + 1 <= i < text.len() implies white_space(text[i]) by {
            if i > 0 {
                assert(rest[i - 1] == text[i]);
            }
        }
        (start + 1, end + 1)
    } else if text.len() > 0 && white_space(text.last()) {
        let rest = text.drop_last();
        let (start, end) = lemma_trimmed_stretch(rest);
        assert(rest.subrange(start, end) =~= text.subrange(start, end));
        assert forall|i: int|
            #![trigger text[i]]
            0 <= i < start || end <= i < text.len() implies white_space(text[i]) by {
            if i < rest.len() {
                assert(rest[i] == text[i]);
            }
        }
        (start, end)
    } else {
        assert(text.subrange(0, text.len() as int) =~= text);
        (0, text.len() as int)
    }
}

/// A trimmed text is a stretch of the text, around which there is only white space, and which neither
/// begins nor ends with any.
pub proof fn law_trimming_takes_white_space_off_the_ends(text: Seq<char>)
    ensures
        exists|start: int, end: int|
            #[trigger] blank_around(text, start, end) && trimmed(text) == text.subrange(start, end),
        trimmed(text).len() > 0 ==> !white_space(trimmed(text).first()) && !white_space(
            trimmed(text).last(),
        ),
{
    lemma_trimmed_ends(text);
    let ends = lemma_trimmed_stretch(text);
}

/// Joining no parts gives nothing, joining one gives it, and joining two lists puts the separator
/// between what joining each gives.
pub proof fn law_joining_puts_separators_between(
    one: Seq<Seq<char>>,
    other: Seq<Seq<char>>,
    separator: Seq<char>,
)
    ensures
        one.len() == 0 ==> joined(one, separator).len() == 0,
        one.len() == 1 ==> joined(one, separator) == one[0],
        one.len() > 0 && other.len() > 0 ==> joined(one + other, separator) == joined(
            one,
            separator,
        ) + separator + joined(other, separator),
    decreases other.len(),
{
    if one.len() > 0 && other.len() > 0 {
        assert((one + other).drop_last() =~= one + other.drop_last());
        if other.len() == 1 {
            assert(one + other.drop_last() =~= one);
        } else {
            law_joining_puts_separators_between(one, other.drop_last(), separator);
        }
        assert(joined(one + other, separator) =~= joined(one, separator) + separator + joined(
            other,
            separator,
        ));
    }
}

/// The number that decimal digits stand for.
pub open spec fn number_of(digits: Seq<char>) -> int
    decreases digits.len(),
{
    if digits.len() == 0 {
        0
    } else {
        10 * number_of(digits.drop_last()) + (digits.last() as int - '0' as int)
    }
}

/// Whether all characters of a text are decimal digits.
pub open spec fn all_digits(text: Seq<char>) -> bool {
    forall|i: int| 0 <= i < text.len() ==> '0' <= #[trigger] text[i] <= '9'
}

/// What is written for a number stands for it, in decimal digits, of which the first is no zero
/// unless it is the only one.
pub proof fn law_decimal_stands_for_the_number(number: nat)
    ensures
        number_of(decimal(number)) == number,
        decimal(number).len() > 0,
        all_digits(decimal(number)),
        decimal(number).len() > 1 ==> decimal(number)[0] != '0',
    decreases number,
{
    let digits = decimal(number);
    if number < 10 {
        assert(digits.drop_last() =~= Seq::empty());
        assert(number_of(digits.drop_last()) == 0);
    } else {
        law_decimal_stands_for_the_number(number / 10);
        let before = decimal(number / 10);
        assert(digits.drop_last() =~= before);
        assert(digits[0] == before[0]);
        if before.len() == 1 {
            assert(number_of(before) == before[0] as int - '0' as int) by {
                assert(before.drop_last() =~= Seq::empty());
                reveal_with_fuel(number_of, 2);
            }
        }
    }
}

/// A line feed, with or without a carriage return in front of it, ends a line and is no part of it;
/// what stands behind the last line feed is a line if it is not empty.
pub proof fn law_line_feeds_end_lines(line: Seq<char>, rest: Seq<char>)
    requires
        !line.contains('\n'),
    ensures
        lines_of(line + seq!['\r', '\n'] + rest) == seq![line] + lines_of(rest),
        line.len() == 0 || line.last() != '\r' ==> lines_of(line + seq!['\n'] + rest) == seq![line]
            + lines_of(rest),
        line.len() > 0 ==> lines_of(line) == seq![line],
        line.len() == 0 ==> lines_of(line).len() == 0,
{
    let longer = line.push('\r');
    assert forall|i: int| 0 <= i < longer.len() implies longer[i] != '\n' by {
        if i < line.len() {
            assert(line.contains(line[i]));
        }
    }
    lemma_first_line(longer, rest);
    assert(longer.push('\n') + rest =~= line + seq!['\r', '\n'] + rest);
    assert(without_return(longer) =~= line);
    lemma_first_line(line, rest);
    assert(line.push('\n') + rest =~= line + seq!['\n'] + rest);
    lemma_last_line(line);
}

} // verus!
