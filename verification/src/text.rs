//! Text: decimal numerals, columns, joined lists, white space and byte-exact cuts.
use vstd::prelude::*;
use vstd::string::*;
use vstd::utf8::*;

verus! {

/// `String::push`: appends the character to the end of the string.
pub assume_specification[ String::push ](s: &mut String, c: char)
    ensures
        final(s)@ == old(s)@.push(c),
;

/// The characters of `s`, in order.
pub fn chars_of(s: &str) -> (chars: Vec<char>)
    ensures
        chars@ == s@,
{
    let mut chars: Vec<char> = Vec::new();
    for c in it: s.chars()
        invariant
            chars@ == s@.take(it.index() as int),
            it.seq() == s@,
    {
        chars.push(c);
    }
    chars
}

/// The decimal digit `d`, for `d < 10`.
pub open spec fn digit_char(d: nat) -> char {
    (48 + d) as char
}

/// The decimal numeral of `n`, without leading zeros.
pub open spec fn decimal(n: nat) -> Seq<char>
    decreases n,
{
    if n < 10 {
        seq![digit_char(n)]
    } else {
        decimal(n / 10).push(digit_char(n % 10))
    }
}

/// The decimal numeral of `i`, with a minus sign in front of a negative number.
pub open spec fn signed_decimal(i: int) -> Seq<char> {
    if i < 0 {
        seq!['-'] + decimal((-i) as nat)
    } else {
        decimal(i as nat)
    }
}

fn push_decimal(out: &mut String, n: u64)
    ensures
        final(out)@ == old(out)@ + decimal(n as nat),
    decreases n,
{
    if n >= 10 {
        push_decimal(out, n / 10);
    }
    out.push((48u8 + (n % 10) as u8) as char);
}

/// Writes `n` in decimal.
pub fn decimal_text(n: u64) -> (text: String)
    ensures
        text@ == decimal(n as nat),
{
    let mut text = String::new();
    push_decimal(&mut text, n);
    text
}

/// Writes `i` in decimal.
pub fn signed_decimal_text(i: i32) -> (text: String)
    ensures
        text@ == signed_decimal(i as int),
{
    let mut text = String::new();
    let wide: i64 = i as i64;
    if wide < 0 {
        text.push('-');
        push_decimal(&mut text, (-wide) as u64);
    } else {
        push_decimal(&mut text, wide as u64);
    }
    text
}

/// The characters with the Unicode property `White_Space`.
pub open spec fn is_white_space(c: char) -> bool {
    ||| '\u{9}' <= c <= '\u{d}'
    ||| c == ' '
    ||| c == '\u{85}'
    ||| c == '\u{a0}'
    ||| c == '\u{1680}'
    ||| '\u{2000}' <= c <= '\u{200a}'
    ||| c == '\u{2028}'
    ||| c == '\u{2029}'
    ||| c == '\u{202f}'
    ||| c == '\u{205f}'
    ||| c == '\u{3000}'
}

/// Whether `c` is white space.
pub fn white_space(c: char) -> (white: bool)
    ensures
        white == is_white_space(c),
{
    ('\u{9}' <= c && c <= '\u{d}') || c == ' ' || c == '\u{85}' || c == '\u{a0}' || c == '\u{1680}'
        || ('\u{2000}' <= c && c <= '\u{200a}') || c == '\u{2028}' || c == '\u{2029}'
        || c == '\u{202f}' || c == '\u{205f}' || c == '\u{3000}'
}

/// The parts one after another, with `sep` between each two of them.
pub open spec fn joined(parts: Seq<Seq<char>>, sep: char) -> Seq<char>
    decreases parts.len(),
{
    if parts.len() == 0 {
        seq![]
    } else if parts.len() == 1 {
        parts[0]
    } else {
        joined(parts.drop_last(), sep).push(sep) + parts.last()
    }
}

/// The words of `s`: its longest runs of characters that are no white space, in order.
pub open spec fn words(s: Seq<char>) -> Seq<Seq<char>>
    decreases s.len(),
{
    if s.len() == 0 {
        seq![]
    } else {
        let before = words(s.drop_last());
        let c = s.last();
        if is_white_space(c) {
            before
        } else if s.len() >= 2 && !is_white_space(s[s.len() - 2]) {
            before.drop_last().push(before.last().push(c))
        } else {
            before.push(seq![c])
        }
    }
}

/// A nonempty run of characters that are no white space.
pub open spec fn is_word(w: Seq<char>) -> bool {
    &&& w.len() > 0
    &&& forall|i: int| 0 <= i < w.len() ==> !is_white_space(#[trigger] w[i])
}

/// What [`words`] holds are words, and a text that does not end in white space ends in one.
pub proof fn lemma_words_are_words(s: Seq<char>)
    ensures
        forall|i: int| 0 <= i < words(s).len() ==> is_word(#[trigger] words(s)[i]),
        s.len() > 0 && !is_white_space(s.last()) ==> words(s).len() > 0,
    decreases s.len(),
{
    if s.len() > 0 {
        let before = words(s.drop_last());
        lemma_words_are_words(s.drop_last());
        assert forall|i: int| 0 <= i < words(s).len() implies is_word(#[trigger] words(s)[i]) by {
            if i < before.len() {
                assert(is_word(before[i]));
            }
        }
    }
}

proof fn lemma_joined_push(parts: Seq<Seq<char>>, part: Seq<char>, sep: char)
    ensures
        parts.len() == 0 ==> joined(parts.push(part), sep) == part,
        parts.len() > 0 ==> joined(parts.push(part), sep) == joined(parts, sep).push(sep) + part,
{
    assert(parts.push(part).drop_last() == parts);
}

proof fn lemma_joined_extend_last(parts: Seq<Seq<char>>, c: char, sep: char)
    requires
        parts.len() > 0,
    ensures
        joined(parts.drop_last().push(parts.last().push(c)), sep) == joined(parts, sep).push(c),
{
    let head = parts.drop_last();
    lemma_joined_push(head, parts.last().push(c), sep);
    lemma_joined_push(head, parts.last(), sep);
    assert(head.push(parts.last()) == parts);
    assert(joined(head.push(parts.last().push(c)), sep) =~= joined(parts, sep).push(c));
}

/// The words of `s` with one space between each two.
pub open spec fn compacted(s: Seq<char>) -> Seq<char> {
    joined(words(s), ' ')
}

/// Puts a status text on one line: its words with one space between each two.
pub fn compact_status(status: &str) -> (text: String)
    ensures
        text@ == compacted(status@),
{
    let chars = chars_of(status);
    let mut text = String::new();
    let mut started = false;
    let mut after_white = true;
    let mut i: usize = 0;
    while i < chars.len()
        invariant
            chars@ == status@,
            i <= chars.len(),
            text@ == compacted(status@.take(i as int)),
            started == (words(status@.take(i as int)).len() > 0),
            after_white == (i == 0 || is_white_space(status@[i - 1])),
        decreases chars.len() - i,
    {
        let c = chars[i];
        let ghost done = status@.take(i as int);
        proof {
            let next = status@.take(i + 1);
            assert(next.drop_last() == done);
            assert(next.last() == c);
            lemma_words_are_words(done);
            if !is_white_space(c) {
                if after_white {
                    lemma_joined_push(words(done), seq![c], ' ');
                    let spaced = joined(words(done), ' ').push(' ');
                    assert(spaced + seq![c] == spaced.push(c));
                    assert(seq![c] == Seq::<char>::empty().push(c));
                } else {
                    assert(done.last() == status@[i - 1]);
                    lemma_joined_extend_last(words(done), c, ' ');
                }
            }
        }
        if white_space(c) {
            after_white = true;
        } else {
            if after_white && started {
                text.push(' ');
            }
            text.push(c);
            started = true;
            after_white = false;
        }
        i += 1;
    }
    assert(status@.take(chars.len() as int) == status@);
    text
}

proof fn lemma_words_after_word(s: Seq<char>, w: Seq<char>)
    requires
        is_word(w),
        s.len() == 0 || is_white_space(s.last()),
    ensures
        words(s + w) == words(s).push(w),
    decreases w.len(),
{
    let c = w.last();
    assert((s + w).drop_last() == s + w.drop_last());
    assert((s + w).last() == c);
    if w.len() == 1 {
        assert(s + w.drop_last() == s);
        assert(w == seq![c]);
    } else {
        let init = w.drop_last();
        assert(is_word(init)) by {
            assert forall|i: int| 0 <= i < init.len() implies !is_white_space(#[trigger] init[i]) by {
                assert(init[i] == w[i]);
            }
        }
        lemma_words_after_word(s, init);
        assert((s + w)[(s + w).len() - 2] == w[w.len() - 2]);
        assert(init.push(c) == w);
        assert(words(s).push(init).drop_last() == words(s));
    }
}

proof fn lemma_words_of_joined(parts: Seq<Seq<char>>)
    requires
        forall|i: int| 0 <= i < parts.len() ==> is_word(#[trigger] parts[i]),
    ensures
        words(joined(parts, ' ')) == parts,
    decreases parts.len(),
{
    if parts.len() > 0 {
        let init = parts.drop_last();
        assert forall|i: int| 0 <= i < init.len() implies is_word(#[trigger] init[i]) by {
            assert(init[i] == parts[i]);
        }
        assert(is_word(parts[parts.len() - 1]));
        assert(init.push(parts.last()) == parts);
        if parts.len() == 1 {
            lemma_words_after_word(seq![], parts[0]);
            assert(Seq::<char>::empty() + parts[0] == parts[0]);
            assert(parts == seq![parts[0]]);
            assert(words(Seq::<char>::empty()).push(parts[0]) == seq![parts[0]]);
        } else {
            lemma_words_of_joined(init);
            let s = joined(init, ' ').push(' ');
            assert(s.drop_last() == joined(init, ' '));
            lemma_words_after_word(s, parts.last());
        }
    }
}

/// Compacting keeps the words of a text, so a text that was compacted once stays as it is.
pub proof fn law_compacting_keeps_words(s: Seq<char>)
    ensures
        words(compacted(s)) == words(s),
        compacted(compacted(s)) == compacted(s),
{
    lemma_words_are_words(s);
    lemma_words_of_joined(words(s));
}

/// The UTF-8 encoding of a text is that of its parts, one after another.
pub proof fn lemma_encode_concat(a: Seq<char>, b: Seq<char>)
    ensures
        encode_utf8(a + b) == encode_utf8(a) + encode_utf8(b),
    decreases a.len(),
{
    if a.len() == 0 {
        assert(a + b == b);
    } else {
        lemma_encode_concat(a.drop_first(), b);
        assert((a + b).drop_first() == a.drop_first() + b);
        assert((a + b)[0] == a[0]);
    }
}

/// The number of bytes of `s` in UTF-8.
pub open spec fn byte_len(s: Seq<char>) -> nat {
    encode_utf8(s).len()
}

/// Whether the byte position `at` lies between two characters of `s`, or at an end of it.
pub open spec fn is_cut(s: Seq<char>, at: int) -> bool {
    is_char_boundary(encode_utf8(s), at)
}

/// The text of the bytes `from..to` of `s`, where both positions are cuts.
pub open spec fn byte_slice(s: Seq<char>, from: int, to: int) -> Seq<char> {
    decode_utf8(encode_utf8(s).subrange(from, to))
}

/// The part of `s` before the byte position `at` and the part from there on.
fn cut<'a>(s: &'a str, at: usize) -> (parts: (&'a str, &'a str))
    requires
        is_cut(s@, at as int),
    ensures
        parts.0@ == byte_slice(s@, 0, at as int),
        parts.1@ == byte_slice(s@, at as int, byte_len(s@) as int),
{
    let parts = s.split_at(at);
    proof {
        encode_utf8_decode_utf8(parts.0@);
        encode_utf8_decode_utf8(parts.1@);
    }
    parts
}

/// Whether [`abbreviated`] either leaves `value` whole or cuts it between characters.
pub open spec fn can_abbreviate(value: Seq<char>, head: nat, tail: nat) -> bool {
    byte_len(value) > head + tail + 3 ==> is_cut(value, head as int) && is_cut(
        value,
        byte_len(value) - tail,
    )
}

/// The first `head` and the last `tail` bytes of `value` with three dots between them, or
/// `value` itself where that would be no shorter.
pub open spec fn abbreviated(value: Seq<char>, head: nat, tail: nat) -> Seq<char> {
    let len = byte_len(value);
    if len <= head + tail + 3 {
        value
    } else {
        byte_slice(value, 0, head as int) + "..."@ + byte_slice(value, len - tail, len as int)
    }
}

/// Shortens `value` in the middle.
pub fn abbreviate(value: &str, head: usize, tail: usize) -> (text: String)
    requires
        head + tail + 3 <= usize::MAX,
        can_abbreviate(value@, head as nat, tail as nat),
    ensures
        text@ == abbreviated(value@, head as nat, tail as nat),
{
    let len: usize = value.as_bytes().len();
    if len <= head + tail + 3 {
        return value.to_owned();
    }
    let mut text = cut(value, head).0.to_owned();
    text.append("...");
    text.append(cut(value, len - tail).1);
    text
}

/// Whether [`truncated`] either leaves `value` whole or cuts it between characters.
pub open spec fn can_truncate(value: Seq<char>, max_len: nat) -> bool {
    byte_len(value) > max_len ==> is_cut(
        value,
        if max_len <= 3 {
            max_len as int
        } else {
            max_len - 3
        },
    )
}

/// `value` if it has at most `max_len` bytes; else its beginning, with three dots in the place
/// of what follows if there is room for more than those.
pub open spec fn truncated(value: Seq<char>, max_len: nat) -> Seq<char> {
    if byte_len(value) <= max_len {
        value
    } else if max_len <= 3 {
        byte_slice(value, 0, max_len as int)
    } else {
        byte_slice(value, 0, max_len - 3) + "..."@
    }
}

/// Shortens `value` at its end to fit a column of `max_len` bytes.
pub fn truncate_for_table(value: &str, max_len: usize) -> (text: String)
    requires
        can_truncate(value@, max_len as nat),
    ensures
        text@ == truncated(value@, max_len as nat),
{
    if value.as_bytes().len() <= max_len {
        value.to_owned()
    } else if max_len <= 3 {
        cut(value, max_len).0.to_owned()
    } else {
        let mut text = cut(value, max_len - 3).0.to_owned();
        text.append("...");
        text
    }
}

/// Whether [`truncate_for_table`] can cut `value` to `max_len` bytes.
pub fn truncates(value: &str, max_len: usize) -> (fits: bool)
    ensures
        fits == can_truncate(value@, max_len as nat),
{
    if value.as_bytes().len() <= max_len {
        true
    } else if max_len <= 3 {
        value.is_char_boundary(max_len)
    } else {
        value.is_char_boundary(max_len - 3)
    }
}

/// Whether [`abbreviate`] can cut `value` to `head` and `tail` bytes.
pub fn abbreviates(value: &str, head: usize, tail: usize) -> (fits: bool)
    requires
        head + tail + 3 <= usize::MAX,
    ensures
        fits == can_abbreviate(value@, head as nat, tail as nat),
{
    let len: usize = value.as_bytes().len();
    if len <= head + tail + 3 {
        true
    } else {
        value.is_char_boundary(head) && value.is_char_boundary(len - tail)
    }
}

proof fn lemma_dots()
    ensures
        byte_len("..."@) == 3,
{
    reveal_strlit("...");
    is_ascii_chars_encode_utf8("..."@);
}

/// A truncated text fits its column.
pub proof fn law_truncated_fits(value: Seq<char>, max_len: nat)
    requires
        can_truncate(value, max_len),
    ensures
        byte_len(truncated(value, max_len)) <= max_len,
        byte_len(value) > max_len ==> byte_len(truncated(value, max_len)) == max_len,
{
    let bytes = encode_utf8(value);
    if bytes.len() > max_len {
        let at = if max_len <= 3 {
            max_len as int
        } else {
            max_len - 3
        };
        encode_utf8_valid_utf8(value);
        valid_utf8_split(bytes, at);
        decode_utf8_encode_utf8(bytes.subrange(0, at));
        lemma_dots();
        lemma_encode_concat(byte_slice(value, 0, at), "..."@);
    }
}

/// An abbreviated text is no longer than the text, and no longer than its head, its tail and
/// the three dots between them.
pub proof fn law_abbreviated_is_short(value: Seq<char>, head: nat, tail: nat)
    requires
        can_abbreviate(value, head, tail),
    ensures
        byte_len(abbreviated(value, head, tail)) <= byte_len(value),
        byte_len(abbreviated(value, head, tail)) <= head + tail + 3,
{
    let bytes = encode_utf8(value);
    if bytes.len() > head + tail + 3 {
        let at = bytes.len() - tail;
        encode_utf8_valid_utf8(value);
        valid_utf8_split(bytes, head as int);
        valid_utf8_split(bytes, at);
        decode_utf8_encode_utf8(bytes.subrange(0, head as int));
        decode_utf8_encode_utf8(bytes.subrange(at, bytes.len() as int));
        lemma_dots();
        let front = byte_slice(value, 0, head as int);
        lemma_encode_concat(front, "..."@);
        lemma_encode_concat(front + "..."@, byte_slice(value, at, bytes.len() as int));
    }
}

/// A text in ASCII has one byte for each character and can be cut anywhere.
pub proof fn law_ascii_is_cut_anywhere(s: Seq<char>, from: int, to: int)
    requires
        is_ascii_chars(s),
        0 <= from <= to <= s.len(),
    ensures
        byte_len(s) == s.len(),
        is_cut(s, from),
        is_cut(s, to),
        byte_slice(s, from, to) == s.subrange(from, to),
{
    let bytes = encode_utf8(s);
    is_ascii_chars_encode_utf8(s);
    encode_utf8_valid_utf8(s);
    lemma_ascii_cut(s, from);
    lemma_ascii_cut(s, to);
    let part = s.subrange(from, to);
    assert(s == s.take(from) + part + s.skip(to));
    lemma_encode_concat(s.take(from) + part, s.skip(to));
    lemma_encode_concat(s.take(from), part);
    assert(is_ascii_chars(s.take(from))) by {
        assert(forall|i: int| 0 <= i < from ==> s.take(from)[i] == s[i]);
    }
    assert(is_ascii_chars(part)) by {
        assert(forall|i: int| 0 <= i < part.len() ==> part[i] == s[from + i]);
    }
    is_ascii_chars_encode_utf8(s.take(from));
    is_ascii_chars_encode_utf8(part);
    assert(bytes.subrange(from, to) == encode_utf8(part));
    encode_utf8_decode_utf8(part);
}

proof fn lemma_ascii_cut(s: Seq<char>, at: int)
    requires
        is_ascii_chars(s),
        0 <= at <= s.len(),
    ensures
        is_cut(s, at),
{
    let bytes = encode_utf8(s);
    is_ascii_chars_encode_utf8(s);
    encode_utf8_valid_utf8(s);
    if at == s.len() {
        is_char_boundary_start_end_of_seq(bytes);
    } else {
        assert(bytes[at] == s[at] as u8);
        assert(!is_continuation_byte(bytes[at]));
        is_char_boundary_iff_not_is_continuation_byte(bytes, at);
    }
}

/// `s` in a column: followed by spaces up to a width of `width` characters.
pub open spec fn column(s: Seq<char>, width: nat) -> Seq<char> {
    if s.len() >= width {
        s
    } else {
        s + Seq::new((width - s.len()) as nat, |i: int| ' ')
    }
}

/// Writes `s` to the left of a column of `width` characters.
pub fn in_column(s: &str, width: usize) -> (text: String)
    ensures
        text@ == column(s@, width as nat),
{
    let mut text = s.to_owned();
    let mut len: usize = s.unicode_len();
    while len < width
        invariant
            s@.len() <= len,
            len <= width || len == s@.len(),
            text@ == s@ + Seq::new((len - s@.len()) as nat, |i: int| ' '),
        decreases width - len,
    {
        text.push(' ');
        len += 1;
        assert(text@ =~= s@ + Seq::new((len - s@.len()) as nat, |i: int| ' '));
    }
    text
}

/// Whether the two texts are the same.
pub fn same_text(a: &str, b: &str) -> (same: bool)
    ensures
        same == (a@ == b@),
{
    a.to_owned() == b.to_owned()
}

/// `s` without the white space that it begins with.
pub open spec fn trim_start(s: Seq<char>) -> Seq<char>
    decreases s.len(),
{
    if s.len() > 0 && is_white_space(s[0]) {
        trim_start(s.skip(1))
    } else {
        s
    }
}

/// `s` without the white space that it ends with.
pub open spec fn trim_end(s: Seq<char>) -> Seq<char>
    decreases s.len(),
{
    if s.len() > 0 && is_white_space(s.last()) {
        trim_end(s.drop_last())
    } else {
        s
    }
}

/// `s` without the white space around it.
pub open spec fn trimmed(s: Seq<char>) -> Seq<char> {
    trim_end(trim_start(s))
}

/// Takes the white space around a list of characters away.
pub fn trim(chars: &Vec<char>) -> (rest: Vec<char>)
    ensures
        rest@ == trimmed(chars@),
{
    let mut from: usize = 0;
    assert(chars@.skip(0) == chars@);
    while from < chars.len() && white_space(chars[from])
        invariant
            from <= chars.len(),
            trim_start(chars@.skip(from as int)) == trim_start(chars@),
        decreases chars.len() - from,
    {
        assert(chars@.skip(from as int).skip(1) == chars@.skip(from + 1));
        from += 1;
    }
    let ghost tail = chars@.skip(from as int);
    let mut to: usize = chars.len();
    assert(tail.take(to - from) == tail);
    while from < to && white_space(chars[to - 1])
        invariant
            from <= to <= chars.len(),
            tail == chars@.skip(from as int),
            trim_end(tail.take(to - from)) == trim_end(tail),
        decreases to,
    {
        assert(tail.take(to - from).drop_last() == tail.take(to - from - 1));
        assert(tail.take(to - from).last() == chars@[to - 1]);
        to -= 1;
    }
    assert(from < to ==> tail.take(to - from).last() == chars@[to - 1]);
    let mut rest: Vec<char> = Vec::new();
    let mut i: usize = from;
    while i < to
        invariant
            from <= i <= to <= chars.len(),
            rest@ == chars@.subrange(from as int, i as int),
        decreases to - i,
    {
        rest.push(chars[i]);
        i += 1;
    }
    assert(rest@ == tail.take(to - from));
    rest
}

/// The parts of `s` between one `sep` and the next. There is always one part at least.
pub open spec fn split(s: Seq<char>, sep: char) -> Seq<Seq<char>>
    decreases s.len(),
{
    if s.len() == 0 {
        seq![seq![]]
    } else {
        let before = split(s.drop_last(), sep);
        if s.last() == sep {
            before.push(seq![])
        } else {
            before.drop_last().push(before.last().push(s.last()))
        }
    }
}

/// A text always has a part.
pub proof fn lemma_split_is_not_empty(s: Seq<char>, sep: char)
    ensures
        split(s, sep).len() > 0,
    decreases s.len(),
{
    if s.len() > 0 {
        lemma_split_is_not_empty(s.drop_last(), sep);
    }
}

/// Joining the parts of a text gives the text.
pub proof fn law_join_undoes_split(s: Seq<char>, sep: char)
    ensures
        joined(split(s, sep), sep) == s,
    decreases s.len(),
{
    if s.len() > 0 {
        let init = s.drop_last();
        let before = split(init, sep);
        law_join_undoes_split(init, sep);
        lemma_split_is_not_empty(init, sep);
        assert(init.push(s.last()) == s);
        if s.last() == sep {
            lemma_joined_push(before, seq![], sep);
            assert(init.push(sep) + Seq::<char>::empty() == init.push(sep));
        } else {
            lemma_joined_extend_last(before, s.last(), sep);
        }
    }
}

proof fn lemma_split_after_part(s: Seq<char>, part: Seq<char>, sep: char)
    requires
        !part.contains(sep),
        s.len() > 0 ==> s.last() == sep,
    ensures
        split(s + part, sep) == split(s, sep).drop_last().push(part),
    decreases part.len(),
{
    lemma_split_is_not_empty(s, sep);
    if part.len() == 0 {
        assert(s + part == s);
        assert(split(s, sep).last() == part);
        assert(split(s, sep).drop_last().push(part) == split(s, sep));
    } else {
        let init = part.drop_last();
        assert(!init.contains(sep)) by {
            assert forall|i: int| 0 <= i < init.len() implies init[i] != sep by {
                assert(part[i] == init[i]);
                assert(part.contains(part[i]));
            }
        }
        assert(part.contains(part.last()));
        lemma_split_after_part(s, init, sep);
        assert((s + part).drop_last() == s + init);
        assert((s + part).last() == part.last());
        assert(init.push(part.last()) == part);
        let head = split(s, sep).drop_last();
        assert(head.push(init).drop_last() == head);
    }
}

/// Splitting joined parts gives the parts back, where none of them holds the separator.
pub proof fn law_split_undoes_join(parts: Seq<Seq<char>>, sep: char)
    requires
        parts.len() > 0,
        forall|i: int| 0 <= i < parts.len() ==> !(#[trigger] parts[i]).contains(sep),
    ensures
        split(joined(parts, sep), sep) == parts,
    decreases parts.len(),
{
    let last = parts.last();
    let init = parts.drop_last();
    assert(init.push(last) == parts);
    assert(!parts[parts.len() - 1].contains(sep));
    if parts.len() == 1 {
        let none = Seq::<char>::empty();
        lemma_split_after_part(none, last, sep);
        assert(none + last == last);
        assert(split(none, sep).drop_last().push(last) == parts);
    } else {
        assert forall|i: int| 0 <= i < init.len() implies !(#[trigger] init[i]).contains(sep) by {
            assert(init[i] == parts[i]);
        }
        law_split_undoes_join(init, sep);
        let s = joined(init, sep).push(sep);
        assert(s.drop_last() == joined(init, sep));
        assert(split(s, sep) == init.push(seq![]));
        lemma_split_after_part(s, last, sep);
        assert(init.push(seq![]).drop_last() == init);
    }
}

/// `s` without the characters `c` that it ends with.
pub open spec fn without_trailing(s: Seq<char>, c: char) -> Seq<char>
    decreases s.len(),
{
    if s.len() > 0 && s.last() == c {
        without_trailing(s.drop_last(), c)
    } else {
        s
    }
}

/// Takes the characters `c` at the end of `s` away.
pub fn strip_trailing(s: &str, c: char) -> (rest: String)
    ensures
        rest@ == without_trailing(s@, c),
{
    let chars = chars_of(s);
    let mut to: usize = chars.len();
    assert(s@.take(to as int) == s@);
    while to > 0 && chars[to - 1] == c
        invariant
            to <= chars.len(),
            chars@ == s@,
            without_trailing(s@.take(to as int), c) == without_trailing(s@, c),
        decreases to,
    {
        assert(s@.take(to as int).drop_last() == s@.take(to - 1));
        to -= 1;
    }
    assert(s@.subrange(0, to as int) == s@.take(to as int));
    s.substring_char(0, to).to_owned()
}

/// Whether all of `s` is white space.
pub open spec fn is_blank(s: Seq<char>) -> bool {
    forall|i: int| 0 <= i < s.len() ==> is_white_space(#[trigger] s[i])
}

/// A decimal numeral begins with a zero only if it is the numeral of zero.
pub proof fn law_decimal_has_no_leading_zero(n: nat)
    ensures
        decimal(n).len() > 0,
        decimal(n)[0] == '0' <==> n == 0,
        n < 10 <==> decimal(n).len() == 1,
    decreases n,
{
    if n >= 10 {
        law_decimal_has_no_leading_zero(n / 10);
        assert(decimal(n)[0] == decimal(n / 10)[0]);
    }
}

/// The numeral of a negative number is a minus sign and the numeral of its opposite; no other
/// numeral has a sign.
pub proof fn law_minus_marks_negatives(i: int)
    ensures
        signed_decimal(i).len() > 0,
        signed_decimal(i)[0] == '-' <==> i < 0,
        i > 0 ==> signed_decimal(-i).len() == signed_decimal(i).len() + 1,
        i > 0 ==> signed_decimal(-i).skip(1) == signed_decimal(i),
{
    if i >= 0 {
        law_decimal_has_no_leading_zero(i as nat);
        crate::numbers::law_decimal_reads_back(i as nat);
        assert(crate::numbers::is_digit(decimal(i as nat)[0]));
        assert(signed_decimal(-i).skip(1) =~= decimal(i as nat) || i == 0);
    }
}

/// White space is the controls from tab to carriage return and the next-line control, the space
/// and the no-break space, the Ogham space mark, the general spaces from en quad to hair space,
/// the separators of lines and paragraphs, the narrow no-break space, the mathematical space and
/// the ideographic space: by their code points, 25 characters in all.
pub proof fn law_white_space(c: char)
    ensures
        is_white_space(c) <==> seq![
            0x9u32,
            0xa,
            0xb,
            0xc,
            0xd,
            0x20,
            0x85,
            0xa0,
            0x1680,
            0x2000,
            0x2001,
            0x2002,
            0x2003,
            0x2004,
            0x2005,
            0x2006,
            0x2007,
            0x2008,
            0x2009,
            0x200a,
            0x2028,
            0x2029,
            0x202f,
            0x205f,
            0x3000,
        ].contains(c as u32),
{
    let all = seq![
        0x9u32,
        0xa,
        0xb,
        0xc,
        0xd,
        0x20,
        0x85,
        0xa0,
        0x1680,
        0x2000,
        0x2001,
        0x2002,
        0x2003,
        0x2004,
        0x2005,
        0x2006,
        0x2007,
        0x2008,
        0x2009,
        0x200a,
        0x2028,
        0x2029,
        0x202f,
        0x205f,
        0x3000,
    ];
    let n = c as u32;
    if is_white_space(c) {
        let i: int = if n <= 0xd {
            n - 9
        } else if n == 0x20 {
            5
        } else if n == 0x85 {
            6
        } else if n == 0xa0 {
            7
        } else if n == 0x1680 {
            8
        } else if n <= 0x200a {
            n - 0x2000 + 9
        } else if n == 0x2028 {
            20
        } else if n == 0x2029 {
            21
        } else if n == 0x202f {
            22
        } else if n == 0x205f {
            23
        } else {
            24
        };
        assert(all[i] == n);
    } else if all.contains(n) {
        let i = choose|i: int| 0 <= i < all.len() && all[i] == n;
        assert(all[i] == n);
    }
}

proof fn lemma_words_of_word(w: Seq<char>)
    requires
        is_word(w),
    ensures
        words(w) == seq![w],
{
    let none = Seq::<char>::empty();
    lemma_words_after_word(none, w);
    assert(none + w == w);
    assert(words(none).push(w) =~= seq![w]);
}

proof fn lemma_words_after_gap(a: Seq<char>, gap: Seq<char>, b: Seq<char>)
    requires
        is_blank(gap),
        a.len() == 0 || gap.len() > 0 || b.len() == 0,
    ensures
        words(a + gap + b) == words(a) + words(b),
    decreases gap.len() + b.len(),
{
    let s = a + gap + b;
    if b.len() > 0 {
        let init = b.drop_last();
        let c = b.last();
        assert(s.drop_last() =~= a + gap + init);
        assert(s.last() == c);
        if a.len() > 0 || gap.len() > 0 {
            lemma_words_after_gap(a, gap, init);
            lemma_words_are_words(init);
            if !is_white_space(c) {
                if b.len() >= 2 {
                    assert(s[s.len() - 2] == b[b.len() - 2]);
                    assert(init.last() == b[b.len() - 2]);
                } else {
                    assert(init =~= Seq::<char>::empty());
                    assert(gap.len() > 0);
                    assert(s[s.len() - 2] == gap.last());
                    assert(is_white_space(gap[gap.len() - 1]));
                }
                assert(words(s) =~= words(a) + words(b));
            }
        } else {
            assert(s =~= b);
            assert(a =~= Seq::<char>::empty());
            assert(words(a) + words(b) =~= words(b));
        }
    } else if gap.len() > 0 {
        let less = gap.drop_last();
        assert(is_blank(less)) by {
            assert(forall|i: int| 0 <= i < less.len() ==> less[i] == gap[i]);
        }
        assert(s.drop_last() =~= a + less + b);
        assert(s.last() == gap[gap.len() - 1]);
        lemma_words_after_gap(a, less, b);
    } else {
        assert(s =~= a);
        assert(b =~= Seq::<char>::empty());
        assert(words(a) + words(b) =~= words(a));
    }
}

proof fn lemma_joined_concat(a: Seq<Seq<char>>, b: Seq<Seq<char>>, sep: char)
    requires
        a.len() > 0,
        b.len() > 0,
    ensures
        joined(a + b, sep) == joined(a, sep).push(sep) + joined(b, sep),
    decreases b.len(),
{
    let init = b.drop_last();
    let last = b.last();
    assert(init.push(last) =~= b);
    assert(a + b =~= (a + init).push(last));
    lemma_joined_push(a + init, last, sep);
    lemma_joined_push(init, last, sep);
    if init.len() > 0 {
        lemma_joined_concat(a, init, sep);
        assert(joined(a + b, sep) =~= joined(a, sep).push(sep) + joined(b, sep));
    } else {
        assert(a + init =~= a);
    }
}

/// Compacting puts one space in the place of each gap between words and takes away the white
/// space around them; a word stays as it is.
pub proof fn law_compacting_narrows_gaps(a: Seq<char>, gap: Seq<char>, b: Seq<char>)
    requires
        is_blank(gap),
        gap.len() > 0,
    ensures
        is_blank(a) && is_blank(b) ==> compacted(a + gap + b) == Seq::<char>::empty(),
        is_blank(a) ==> compacted(a + gap + b) == compacted(b),
        is_blank(b) ==> compacted(a + gap + b) == compacted(a),
        !is_blank(a) && !is_blank(b) ==> compacted(a + gap + b) == compacted(a) + seq![' ']
            + compacted(b),
        is_word(a) ==> compacted(a) == a,
{
    let none = Seq::<char>::empty();
    lemma_words_after_gap(a, gap, b);
    if is_blank(a) {
        lemma_words_after_gap(none, a, none);
        assert(none + a + none =~= a);
        assert(words(a) =~= Seq::<Seq<char>>::empty());
        assert(words(a) + words(b) =~= words(b));
    } else {
        lemma_some_word(a);
    }
    if is_blank(b) {
        lemma_words_after_gap(none, b, none);
        assert(none + b + none =~= b);
        assert(words(b) =~= Seq::<Seq<char>>::empty());
        assert(words(a) + words(b) =~= words(a));
    } else {
        lemma_some_word(b);
    }
    if !is_blank(a) && !is_blank(b) {
        lemma_joined_concat(words(a), words(b), ' ');
        assert(compacted(a).push(' ') =~= compacted(a) + seq![' ']);
    }
    if is_word(a) {
        lemma_words_of_word(a);
    }
}

proof fn lemma_some_word(s: Seq<char>)
    requires
        !is_blank(s),
    ensures
        words(s).len() > 0,
    decreases s.len(),
{
    let init = s.drop_last();
    if is_white_space(s.last()) {
        assert(!is_blank(init)) by {
            let i = choose|i: int| 0 <= i < s.len() && !is_white_space(#[trigger] s[i]);
            assert(i != s.len() - 1);
            assert(init[i] == s[i]);
        }
        lemma_some_word(init);
    } else {
        lemma_words_are_words(s);
    }
}

/// An abbreviated text has the bytes that the text begins with and those that it ends with, as
/// many as were asked for, and three dots between them; a text stays as it is where that would
/// not be shorter.
pub proof fn law_abbreviated_keeps_both_ends(value: Seq<char>, head: nat, tail: nat)
    requires
        can_abbreviate(value, head, tail),
    ensures
        ({
            let bytes = encode_utf8(value);
            let short = encode_utf8(abbreviated(value, head, tail));
            if bytes.len() <= head + tail + 3 {
                short == bytes
            } else {
                &&& short.len() == head + 3 + tail
                &&& short.take(head as int) == bytes.take(head as int)
                &&& short.subrange(head as int, head as int + 3) == seq![46u8, 46, 46]
                &&& short.skip(head as int + 3) == bytes.skip(bytes.len() - tail)
            }
        }),
{
    let bytes = encode_utf8(value);
    if bytes.len() > head + tail + 3 {
        let at = bytes.len() - tail;
        encode_utf8_valid_utf8(value);
        valid_utf8_split(bytes, head as int);
        valid_utf8_split(bytes, at);
        decode_utf8_encode_utf8(bytes.subrange(0, head as int));
        decode_utf8_encode_utf8(bytes.subrange(at, bytes.len() as int));
        lemma_dot_bytes();
        let front = byte_slice(value, 0, head as int);
        lemma_encode_concat(front, "..."@);
        lemma_encode_concat(front + "..."@, byte_slice(value, at, bytes.len() as int));
        let short = encode_utf8(abbreviated(value, head, tail));
        assert(short.take(head as int) =~= bytes.take(head as int));
        assert(short.subrange(head as int, head as int + 3) =~= seq![46u8, 46, 46]);
        assert(short.skip(head as int + 3) =~= bytes.skip(at));
    }
}

proof fn lemma_dot_bytes()
    ensures
        encode_utf8("..."@) == seq![46u8, 46, 46],
{
    reveal_strlit("...");
    is_ascii_chars_encode_utf8("..."@);
    assert(encode_utf8("..."@) =~= seq![46u8, 46, 46]);
}

/// A truncated text is the text itself if it fits, and else fills its column with the bytes that
/// the text begins with and three dots, or with those bytes alone where the column is no wider
/// than the dots.
pub proof fn law_truncated_keeps_the_beginning(value: Seq<char>, max_len: nat)
    requires
        can_truncate(value, max_len),
    ensures
        ({
            let bytes = encode_utf8(value);
            let short = encode_utf8(truncated(value, max_len));
            if bytes.len() <= max_len {
                truncated(value, max_len) == value
            } else if max_len <= 3 {
                short == bytes.take(max_len as int)
            } else {
                &&& short.len() == max_len
                &&& short.take(max_len - 3) == bytes.take(max_len - 3)
                &&& short.skip(max_len - 3) == seq![46u8, 46, 46]
            }
        }),
{
    let bytes = encode_utf8(value);
    if bytes.len() > max_len {
        let at = if max_len <= 3 {
            max_len as int
        } else {
            max_len - 3
        };
        encode_utf8_valid_utf8(value);
        valid_utf8_split(bytes, at);
        decode_utf8_encode_utf8(bytes.subrange(0, at));
        lemma_dot_bytes();
        lemma_encode_concat(byte_slice(value, 0, at), "..."@);
        let short = encode_utf8(truncated(value, max_len));
        assert(short.take(at) =~= bytes.take(at));
        if max_len > 3 {
            assert(short.skip(at) =~= seq![46u8, 46, 46]);
        } else {
            assert(short =~= bytes.take(at));
        }
    }
}

/// A column begins with its text, goes on with nothing but spaces and is as wide as was asked,
/// or as its text if that is wider.
pub proof fn law_column(s: Seq<char>, width: nat)
    ensures
        s.is_prefix_of(column(s, width)),
        forall|i: int| s.len() <= i < column(s, width).len() ==> column(s, width)[i] == ' ',
        column(s, width).len() >= width,
        column(s, width).len() == s.len() || column(s, width).len() == width,
{
    assert(column(s, width).take(s.len() as int) =~= s);
}

/// Trimming takes white space away at both ends and nothing else, and leaves none there.
pub proof fn law_trimmed(s: Seq<char>)
    ensures
        exists|from: int, to: int|
            {
                &&& 0 <= from <= to <= s.len()
                &&& trimmed(s) == #[trigger] s.subrange(from, to)
                &&& is_blank(s.take(from))
                &&& is_blank(s.skip(to))
            },
        trimmed(s).len() > 0 ==> !is_white_space(trimmed(s)[0]) && !is_white_space(
            trimmed(s).last(),
        ),
{
    let from = lemma_trim_start(s);
    let rest = trim_start(s);
    let len = lemma_trim_end(rest);
    assert(s.subrange(from, from + len) =~= trimmed(s));
    assert(is_blank(s.skip(from + len))) by {
        assert forall|i: int| 0 <= i < s.len() - from - len implies is_white_space(
            #[trigger] s.skip(from + len)[i],
        ) by {
            assert(is_white_space(rest.skip(len)[i]));
        }
    }
    if trimmed(s).len() > 0 {
        assert(trimmed(s)[0] == rest[0]);
    }
}

proof fn lemma_trim_start(s: Seq<char>) -> (from: int)
    ensures
        0 <= from <= s.len(),
        trim_start(s) == s.skip(from),
        is_blank(s.take(from)),
        trim_start(s).len() > 0 ==> !is_white_space(trim_start(s)[0]),
    decreases s.len(),
{
    if s.len() > 0 && is_white_space(s[0]) {
        let from = lemma_trim_start(s.skip(1));
        assert(s.skip(1).skip(from) =~= s.skip(from + 1));
        assert forall|i: int| 0 <= i < from + 1 implies is_white_space(
            #[trigger] s.take(from + 1)[i],
        ) by {
            if i > 0 {
                assert(s.skip(1).take(from)[i - 1] == s[i]);
            }
        }
        from + 1
    } else {
        assert(s.skip(0) =~= s);
        0
    }
}

proof fn lemma_trim_end(s: Seq<char>) -> (to: int)
    ensures
        0 <= to <= s.len(),
        trim_end(s) == s.take(to),
        is_blank(s.skip(to)),
        trim_end(s).len() > 0 ==> !is_white_space(trim_end(s).last()),
    decreases s.len(),
{
    if s.len() > 0 && is_white_space(s.last()) {
        let init = s.drop_last();
        let to = lemma_trim_end(init);
        assert(init.take(to) =~= s.take(to));
        assert forall|i: int| 0 <= i < s.len() - to implies is_white_space(
            #[trigger] s.skip(to)[i],
        ) by {
            if i < s.len() - to - 1 {
                assert(init.skip(to)[i] == s[to + i]);
            }
        }
        to
    } else {
        assert(s.take(s.len() as int) =~= s);
        s.len() as int
    }
}

/// Taking characters away at the end of a text takes away nothing else, and leaves none there.
pub proof fn law_without_trailing(s: Seq<char>, c: char)
    ensures
        without_trailing(s, c).is_prefix_of(s),
        forall|i: int| without_trailing(s, c).len() <= i < s.len() ==> s[i] == c,
        without_trailing(s, c).len() > 0 ==> without_trailing(s, c).last() != c,
    decreases s.len(),
{
    if s.len() > 0 && s.last() == c {
        let init = s.drop_last();
        law_without_trailing(init, c);
        assert forall|i: int| without_trailing(s, c).len() <= i < s.len() implies s[i] == c by {
            if i < init.len() {
                assert(init[i] == s[i]);
            }
        }
    }
}

/// No part of a text holds the separator.
pub proof fn law_parts_hold_no_separator(s: Seq<char>, sep: char)
    ensures
        forall|i: int| 0 <= i < split(s, sep).len() ==> !(#[trigger] split(s, sep)[i]).contains(sep),
    decreases s.len(),
{
    if s.len() > 0 {
        let before = split(s.drop_last(), sep);
        law_parts_hold_no_separator(s.drop_last(), sep);
        lemma_split_is_not_empty(s.drop_last(), sep);
        assert forall|i: int| 0 <= i < split(s, sep).len() implies !(#[trigger] split(
            s,
            sep,
        )[i]).contains(sep) by {
            if s.last() == sep {
                if i < before.len() {
                    assert(split(s, sep)[i] == before[i]);
                }
            } else if i < before.len() - 1 {
                assert(split(s, sep)[i] == before[i]);
            } else {
                let part = split(s, sep)[i];
                assert(!before[before.len() - 1].contains(sep));
                assert(part == before.last().push(s.last()));
                if part.contains(sep) {
                    let j = choose|j: int| 0 <= j < part.len() && part[j] == sep;
                    assert(before.last()[j] == sep);
                    assert(before.last().contains(sep));
                }
            }
        }
    }
}

/// Whether `s` says the `parts` one after another and nothing else: it begins with the first, and
/// what follows says the others.
pub open spec fn says(s: Seq<char>, parts: Seq<Seq<char>>) -> bool
    decreases parts.len(),
{
    if parts.len() == 0 {
        s.len() == 0
    } else {
        parts[0].is_prefix_of(s) && says(s.skip(parts[0].len() as int), parts.skip(1))
    }
}

/// A text says itself.
pub broadcast proof fn lemma_says_itself(s: Seq<char>)
    ensures
        #[trigger] says(s, Seq::<Seq<char>>::empty().push(s)),
{
    let parts = Seq::<Seq<char>>::empty().push(s);
    assert(s.subrange(0, s.len() as int) =~= s);
    assert(parts.skip(1) =~= Seq::<Seq<char>>::empty());
    assert(says(s.skip(s.len() as int), parts.skip(1)));
}

/// A text with another after it says what it said and then the other.
pub broadcast proof fn lemma_says_more(s: Seq<char>, parts: Seq<Seq<char>>, more: Seq<char>)
    requires
        says(s, parts),
    ensures
        #[trigger] says(s + more, parts.push(more)),
    decreases parts.len(),
{
    if parts.len() == 0 {
        assert(s + more =~= more);
        assert(parts =~= Seq::<Seq<char>>::empty());
        lemma_says_itself(more);
    } else {
        let first = parts[0];
        let rest = s.skip(first.len() as int);
        lemma_says_more(rest, parts.skip(1), more);
        assert((s + more).skip(first.len() as int) =~= rest + more);
        assert(parts.push(more).skip(1) =~= parts.skip(1).push(more));
        assert((s + more).subrange(0, first.len() as int) =~= s.subrange(0, first.len() as int));
    }
}

/// Trimming gives back a text that has no white space at its ends from under any white space
/// around it.
pub proof fn law_trimmed_undoes_padding(before: Seq<char>, s: Seq<char>, after: Seq<char>)
    requires
        is_blank(before),
        is_blank(after),
        s.len() > 0,
        !is_white_space(s[0]),
        !is_white_space(s.last()),
    ensures
        trimmed(before + s + after) == s,
    decreases before.len() + after.len(),
{
    let all = before + s + after;
    if before.len() > 0 {
        let less = before.skip(1);
        assert(is_white_space(before[0]));
        assert(is_blank(less)) by {
            assert(forall|i: int| 0 <= i < less.len() ==> less[i] == before[i + 1]);
        }
        assert(all[0] == before[0]);
        assert(all.skip(1) =~= less + s + after);
        law_trimmed_undoes_padding(less, s, after);
    } else {
        assert(all =~= s + after);
        assert(trim_start(all) == all);
        if after.len() > 0 {
            let less = after.drop_last();
            assert(is_white_space(after[after.len() - 1]));
            assert(is_blank(less)) by {
                assert(forall|i: int| 0 <= i < less.len() ==> less[i] == after[i]);
            }
            assert(all.last() == after.last());
            assert(all.drop_last() =~= before + s + less);
            assert(trim_start(all.drop_last()) == all.drop_last());
            law_trimmed_undoes_padding(before, s, less);
        } else {
            assert(all =~= s);
        }
    }
}

/// Where a text is too long, abbreviating it takes two cuts between characters and truncating it
/// takes one; a text that is short enough takes none.
pub proof fn law_cuts_that_are_needed(value: Seq<char>, head: nat, tail: nat, max_len: nat)
    ensures
        can_abbreviate(value, head, tail) <==> encode_utf8(value).len() <= head + tail + 3 || (
        is_char_boundary(encode_utf8(value), head as int) && is_char_boundary(
            encode_utf8(value),
            encode_utf8(value).len() - tail,
        )),
        max_len <= 3 ==> (can_truncate(value, max_len) <==> encode_utf8(value).len() <= max_len
            || is_char_boundary(encode_utf8(value), max_len as int)),
        max_len > 3 ==> (can_truncate(value, max_len) <==> encode_utf8(value).len() <= max_len
            || is_char_boundary(encode_utf8(value), max_len - 3)),
{
}

} // verus!
