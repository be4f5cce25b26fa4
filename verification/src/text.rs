//! Text as sequences of characters: lines, words, trimming and numbers.

use vstd::prelude::*;

verus! {

/// `String::push`, which appends one character to the string. Not proved:
/// taken from its documentation.
pub assume_specification[ String::push ](text: &mut String, c: char)
    ensures
        final(text)@ == old(text)@.push(c),
;

/// The characters of `text`, in order.
pub fn chars_of(text: &str) -> (chars: Vec<char>)
    ensures
        chars@ == text@,
{
    let mut out: Vec<char> = Vec::new();
    for c in it: text.chars()
        invariant
            it.seq() == text@,
            out@ == it.seq().take(it.index() as int),
    {
        proof {
            assert(it.seq().take(it.index() + 1) =~= it.seq().take(it.index() as int).push(c));
        }
        out.push(c);
    }
    proof {
        assert(text@.take(text@.len() as int) =~= text@);
    }
    out
}

/// The string made of `chars`, in order.
pub fn string_of(chars: &[char]) -> (text: String)
    ensures
        text@ == chars@,
{
    let mut out = String::new();
    let mut i: usize = 0;
    while i < chars.len()
        invariant
            i <= chars@.len(),
            out@ == chars@.take(i as int),
        decreases chars@.len() - i,
    {
        proof {
            assert(chars@.take(i + 1) =~= chars@.take(i as int).push(chars@[i as int]));
        }
        out.push(chars[i]);
        i += 1;
    }
    proof {
        assert(chars@.take(chars@.len() as int) =~= chars@);
    }
    out
}

/// The lower-case form of a text, as `str::to_lowercase` gives it. Nothing
/// is proved of it here; it is named so that contracts can speak of it.
pub uninterp spec fn lowercased(text: Seq<char>) -> Seq<char>;

/// `str::to_lowercase`, which returns the lower-case form of the text.
/// Not proved: the result depends on the text alone.
pub assume_specification[ str::to_lowercase ](text: &str) -> (lower: String)
    ensures
        lower@ == lowercased(text@),
;

/// The characters with the Unicode property White_Space.
pub open spec fn is_space(c: char) -> bool {
    let n = c as u32;
    ||| 0x09 <= n <= 0x0D
    ||| n == 0x20
    ||| n == 0x85
    ||| n == 0xA0
    ||| n == 0x1680
    ||| 0x2000 <= n <= 0x200A
    ||| n == 0x2028
    ||| n == 0x2029
    ||| n == 0x202F
    ||| n == 0x205F
    ||| n == 0x3000
}

/// Whether `c` has the Unicode property White_Space.
pub fn char_is_space(c: char) -> (space: bool)
    ensures
        space == is_space(c),
{
    let n = c as u32;
    (0x09 <= n && n <= 0x0D) || n == 0x20 || n == 0x85 || n == 0xA0 || n == 0x1680 || (0x2000 <= n
        && n <= 0x200A) || n == 0x2028 || n == 0x2029 || n == 0x202F || n == 0x205F || n == 0x3000
}

/// The views of a sequence of vectors.
pub open spec fn views(rows: Seq<Vec<char>>) -> Seq<Seq<char>> {
    Seq::new(rows.len(), |i: int| rows[i]@)
}

/// `row` if it holds anything, else nothing.
pub open spec fn if_any(row: Seq<char>) -> Seq<Seq<char>> {
    if row.len() > 0 {
        seq![row]
    } else {
        Seq::empty()
    }
}

/// `line` without one carriage return at its end.
pub open spec fn without_cr(line: Seq<char>) -> Seq<char> {
    if line.len() > 0 && line.last() == '\r' {
        line.drop_last()
    } else {
        line
    }
}

/// The lines of `rest`, where `current` holds the characters of the line
/// that is being read. A line feed ends a line, and a carriage return just
/// before it goes with it; what follows the last line feed is a line if it
/// holds anything.
pub open spec fn lines_from(rest: Seq<char>, current: Seq<char>) -> Seq<Seq<char>>
    decreases rest.len(),
{
    if rest.len() == 0 {
        if_any(current)
    } else if rest[0] == '\n' {
        seq![without_cr(current)] + lines_from(rest.skip(1), Seq::empty())
    } else {
        lines_from(rest.skip(1), current.push(rest[0]))
    }
}

/// The lines of a text, without their line endings.
pub open spec fn lines(text: Seq<char>) -> Seq<Seq<char>> {
    lines_from(text, Seq::empty())
}

/// The words of `rest`, where `current` holds the characters of the word
/// that is being read. A word is a longest run of characters that are not
/// white space.
pub open spec fn words_from(rest: Seq<char>, current: Seq<char>) -> Seq<Seq<char>>
    decreases rest.len(),
{
    if rest.len() == 0 {
        if_any(current)
    } else if is_space(rest[0]) {
        if_any(current) + words_from(rest.skip(1), Seq::empty())
    } else {
        words_from(rest.skip(1), current.push(rest[0]))
    }
}

/// The words of a text.
pub open spec fn words(text: Seq<char>) -> Seq<Seq<char>> {
    words_from(text, Seq::empty())
}

/// How many characters stand before the first `c` of `text`; the length of
/// `text` where it holds no `c`.
pub open spec fn position(text: Seq<char>, c: char) -> nat
    decreases text.len(),
{
    if text.len() == 0 || text[0] == c {
        0
    } else {
        1 + position(text.skip(1), c)
    }
}

/// How many white-space characters `text` starts with.
pub open spec fn leading_spaces(text: Seq<char>) -> nat
    decreases text.len(),
{
    if text.len() > 0 && is_space(text[0]) {
        1 + leading_spaces(text.skip(1))
    } else {
        0
    }
}

/// How many white-space characters `text` ends with.
pub open spec fn trailing_spaces(text: Seq<char>) -> nat
    decreases text.len(),
{
    if text.len() > 0 && is_space(text.last()) {
        1 + trailing_spaces(text.drop_last())
    } else {
        0
    }
}

/// `text` without the white space at its start and at its end.
pub open spec fn trimmed(text: Seq<char>) -> Seq<char> {
    if leading_spaces(text) >= text.len() {
        Seq::empty()
    } else {
        text.subrange(leading_spaces(text) as int, text.len() - trailing_spaces(text))
    }
}

/// The rows set one after the other with a line feed between each two.
pub open spec fn joined(rows: Seq<Seq<char>>) -> Seq<char>
    decreases rows.len(),
{
    if rows.len() == 0 {
        Seq::empty()
    } else if rows.len() == 1 {
        rows[0]
    } else {
        joined(rows.drop_last()) + seq!['\n'] + rows.last()
    }
}

/// The character that stands for a digit below ten.
pub open spec fn digit(d: nat) -> char {
    (48 + d) as char
}

/// The decimal digits of `n`, without leading zeros.
pub open spec fn decimal(n: nat) -> Seq<char>
    decreases n,
{
    if n < 10 {
        seq![digit(n)]
    } else {
        decimal(n / 10).push(digit(n % 10))
    }
}

/// A count of characters before the first `c` is the position of `c`.
pub proof fn lemma_position(text: Seq<char>, c: char, n: int)
    requires
        0 <= n <= text.len(),
        forall|j: int| 0 <= j < n ==> text[j] != c,
        n == text.len() || text[n] == c,
    ensures
        position(text, c) == n,
    decreases n,
{
    if n > 0 {
        lemma_position(text.skip(1), c, n - 1);
    }
}

/// A count of white space at the start is the number of leading spaces.
pub proof fn lemma_leading_spaces(text: Seq<char>, n: int)
    requires
        0 <= n <= text.len(),
        forall|j: int| 0 <= j < n ==> is_space(text[j]),
        n == text.len() || !is_space(text[n]),
    ensures
        leading_spaces(text) == n,
    decreases n,
{
    if n > 0 {
        lemma_leading_spaces(text.skip(1), n - 1);
    }
}

/// A count of white space at the end is the number of trailing spaces.
pub proof fn lemma_trailing_spaces(text: Seq<char>, n: int)
    requires
        0 <= n <= text.len(),
        forall|j: int| text.len() - n <= j < text.len() ==> is_space(text[j]),
        n == text.len() || !is_space(text[text.len() - n - 1]),
    ensures
        trailing_spaces(text) == n,
    decreases n,
{
    if n > 0 {
        lemma_trailing_spaces(text.drop_last(), n - 1);
    }
}

/// The lines of `text`.
pub fn split_lines(text: &[char]) -> (rows: Vec<Vec<char>>)
    ensures
        views(rows@) == lines(text@),
{
    let mut rows: Vec<Vec<char>> = Vec::new();
    let mut current: Vec<char> = Vec::new();
    let mut i: usize = 0;
    proof {
        assert(text@.skip(0) =~= text@);
        assert(views(rows@) + lines_from(text@, current@) =~= lines(text@));
    }
    while i < text.len()
        invariant
            i <= text@.len(),
            views(rows@) + lines_from(text@.skip(i as int), current@) == lines(text@),
        decreases text@.len() - i,
    {
        let c = text[i];
        let ghost rest = text@.skip(i as int);
        let ghost before = views(rows@);
        let ghost line = current@;
        proof {
            assert(rest.skip(1) =~= text@.skip(i + 1));
            assert(rest[0] == c);
        }
        if c == '\n' {
            let n = current.len();
            if n > 0 && current[n - 1] == '\r' {
                current.pop();
            }
            proof {
                assert(current@ =~= without_cr(line));
            }
            rows.push(current);
            current = Vec::new();
            proof {
                assert(views(rows@) =~= before.push(without_cr(line)));
                assert(before + (seq![without_cr(line)] + lines_from(rest.skip(1), Seq::empty()))
                    =~= before.push(without_cr(line)) + lines_from(rest.skip(1), Seq::empty()));
            }
        } else {
            current.push(c);
        }
        i += 1;
    }
    let ghost before = views(rows@);
    proof {
        assert(text@.skip(text@.len() as int) =~= Seq::<char>::empty());
    }
    if current.len() > 0 {
        rows.push(current);
        proof {
            assert(views(rows@) =~= before + if_any(current@));
        }
    } else {
        proof {
            assert(before + if_any(current@) =~= before);
        }
    }
    rows
}

/// The words of `text`.
pub fn split_words(text: &[char]) -> (rows: Vec<Vec<char>>)
    ensures
        views(rows@) == words(text@),
{
    let mut rows: Vec<Vec<char>> = Vec::new();
    let mut current: Vec<char> = Vec::new();
    let mut i: usize = 0;
    proof {
        assert(text@.skip(0) =~= text@);
        assert(views(rows@) + words_from(text@, current@) =~= words(text@));
    }
    while i < text.len()
        invariant
            i <= text@.len(),
            views(rows@) + words_from(text@.skip(i as int), current@) == words(text@),
        decreases text@.len() - i,
    {
        let c = text[i];
        let ghost rest = text@.skip(i as int);
        let ghost before = views(rows@);
        let ghost word = current@;
        proof {
            assert(rest.skip(1) =~= text@.skip(i + 1));
            assert(rest[0] == c);
        }
        if char_is_space(c) {
            if current.len() > 0 {
                rows.push(current);
                current = Vec::new();
                proof {
                    assert(views(rows@) =~= before + if_any(word));
                }
            } else {
                proof {
                    assert(before + if_any(word) =~= before);
                    assert(current@ =~= Seq::<char>::empty());
                }
            }
            proof {
                assert(before + (if_any(word) + words_from(rest.skip(1), Seq::empty())) =~= before
                    + if_any(word) + words_from(rest.skip(1), Seq::empty()));
            }
        } else {
            current.push(c);
        }
        i += 1;
    }
    let ghost before = views(rows@);
    proof {
        assert(text@.skip(text@.len() as int) =~= Seq::<char>::empty());
    }
    if current.len() > 0 {
        rows.push(current);
        proof {
            assert(views(rows@) =~= before + if_any(current@));
        }
    } else {
        proof {
            assert(before + if_any(current@) =~= before);
        }
    }
    rows
}

/// The position of the first `c` in `text`, if there is one.
pub fn find(text: &[char], c: char) -> (found: Option<usize>)
    ensures
        match found {
            Some(i) => i == position(text@, c) && i < text@.len(),
            None => position(text@, c) == text@.len(),
        },
{
    let mut i: usize = 0;
    while i < text.len()
        invariant
            i <= text@.len(),
            forall|j: int| 0 <= j < i ==> text@[j] != c,
        decreases text@.len() - i,
    {
        if text[i] == c {
            proof {
                lemma_position(text@, c, i as int);
            }
            return Some(i);
        }
        i += 1;
    }
    proof {
        lemma_position(text@, c, i as int);
    }
    None
}

/// `text` without the white space at its start and at its end.
pub fn trim(text: &[char]) -> (inner: Vec<char>)
    ensures
        inner@ == trimmed(text@),
{
    let len = text.len();
    let mut start: usize = 0;
    while start < len && char_is_space(text[start])
        invariant
            start <= len,
            len == text@.len(),
            forall|j: int| 0 <= j < start ==> is_space(text@[j]),
        decreases len - start,
    {
        start += 1;
    }
    proof {
        lemma_leading_spaces(text@, start as int);
    }
    if start == len {
        return Vec::new();
    }
    let mut end: usize = len;
    while end > start && char_is_space(text[end - 1])
        invariant
            start <= end <= len,
            start < len,
            len == text@.len(),
            !is_space(text@[start as int]),
            forall|j: int| end <= j < len ==> is_space(text@[j]),
        decreases end,
    {
        end -= 1;
    }
    proof {
        lemma_trailing_spaces(text@, len - end);
    }
    vstd::slice::slice_to_vec(vstd::slice::slice_subrange(text, start, end))
}

/// Appends `row` to `text`.
pub fn push_all(text: &mut Vec<char>, row: &[char])
    ensures
        final(text)@ == old(text)@ + row@,
{
    let mut i: usize = 0;
    while i < row.len()
        invariant
            i <= row@.len(),
            text@ == old(text)@ + row@.take(i as int),
        decreases row@.len() - i,
    {
        proof {
            assert(row@.take(i + 1) =~= row@.take(i as int).push(row@[i as int]));
            assert(old(text)@ + row@.take(i + 1) =~= (old(text)@ + row@.take(i as int)).push(
                row@[i as int],
            ));
        }
        text.push(row[i]);
        i += 1;
    }
    proof {
        assert(row@.take(row@.len() as int) =~= row@);
    }
}

/// The rows from number `from` on, set one after the other with a line
/// feed between each two.
pub fn join_lines(rows: &Vec<Vec<char>>, from: usize) -> (text: Vec<char>)
    requires
        from <= rows@.len(),
    ensures
        text@ == joined(views(rows@).skip(from as int)),
{
    let mut text: Vec<char> = Vec::new();
    let mut i: usize = from;
    let ghost all = views(rows@).skip(from as int);
    proof {
        assert(all.take(0) =~= Seq::<Seq<char>>::empty());
    }
    while i < rows.len()
        invariant
            from <= i <= rows@.len(),
            all == views(rows@).skip(from as int),
            text@ == joined(all.take(i - from)),
        decreases rows@.len() - i,
    {
        let ghost done = all.take(i - from);
        let ghost next = all.take(i + 1 - from);
        proof {
            assert(next.drop_last() =~= done);
            assert(next.last() == rows@[i as int]@);
        }
        if i > from {
            text.push('\n');
        }
        push_all(&mut text, rows[i].as_slice());
        proof {
            if i == from {
                assert(next.len() == 1);
                assert(text@ =~= next[0]);
            } else {
                assert(text@ =~= joined(done) + seq!['\n'] + next.last());
            }
        }
        i += 1;
    }
    proof {
        assert(all.take(all.len() as int) =~= all);
    }
    text
}

/// The character that stands for a digit below sixteen, in lower case.
pub open spec fn hex_digit(d: nat) -> char {
    if d < 10 {
        (48 + d) as char
    } else {
        (87 + d) as char
    }
}

/// The two hexadecimal digits of a byte, in lower case.
pub open spec fn hex2(byte: u8) -> Seq<char> {
    seq![hex_digit((byte / 16) as nat), hex_digit((byte % 16) as nat)]
}

/// The binary digits of `n`, without leading zeros.
pub open spec fn binary(n: nat) -> Seq<char>
    decreases n,
{
    if n < 2 {
        seq![digit(n)]
    } else {
        binary(n / 2).push(digit(n % 2))
    }
}

/// The character that stands for a digit below sixteen, in lower case.
pub fn hex_char(d: u8) -> (c: char)
    requires
        d < 16,
    ensures
        c == hex_digit(d as nat),
{
    if d < 10 {
        (48 + d) as char
    } else {
        (87 + d) as char
    }
}

/// Appends the two hexadecimal digits of `byte` to `text`.
pub fn push_hex2(text: &mut Vec<char>, byte: u8)
    ensures
        final(text)@ == old(text)@ + hex2(byte),
{
    text.push(hex_char(byte / 16));
    text.push(hex_char(byte % 16));
    proof {
        assert(text@ =~= old(text)@ + hex2(byte));
    }
}

/// Appends the binary digits of `n` to `text`.
pub fn push_binary(text: &mut Vec<char>, n: usize)
    ensures
        final(text)@ == old(text)@ + binary(n as nat),
    decreases n,
{
    if n >= 2 {
        push_binary(text, n / 2);
    }
    let d = (n % 2) as u8;
    let c = (48 + d) as char;
    proof {
        assert(c == digit((n % 2) as nat));
        if n >= 2 {
            assert(old(text)@ + binary((n / 2) as nat).push(c) =~= (old(text)@ + binary(
                (n / 2) as nat,
            )).push(c));
        } else {
            assert(old(text)@ + seq![c] =~= old(text)@.push(c));
        }
    }
    text.push(c);
}

/// Appends the characters of `s` to `text`.
pub fn push_str(text: &mut Vec<char>, s: &str)
    ensures
        final(text)@ == old(text)@ + s@,
{
    let chars = chars_of(s);
    push_all(text, chars.as_slice());
}

/// Whether two texts hold the same characters.
pub fn same_text(a: &str, b: &str) -> (same: bool)
    ensures
        same == (a@ == b@),
{
    let left = chars_of(a);
    let right = chars_of(b);
    if left.len() != right.len() {
        return false;
    }
    let mut i: usize = 0;
    while i < left.len()
        invariant
            i <= left@.len(),
            left@ == a@,
            right@ == b@,
            left@.len() == right@.len(),
            forall|j: int| 0 <= j < i ==> left@[j] == right@[j],
        decreases left@.len() - i,
    {
        if left[i] != right[i] {
            proof {
                assert(a@[i as int] != b@[i as int]);
            }
            return false;
        }
        i += 1;
    }
    proof {
        assert(left@ =~= right@);
    }
    true
}

/// The decimal digits of `n` as a string.
pub fn decimal_string(n: usize) -> (text: String)
    ensures
        text@ == decimal(n as nat),
{
    let mut digits: Vec<char> = Vec::new();
    push_decimal(&mut digits, n);
    proof {
        assert(Seq::<char>::empty() + decimal(n as nat) =~= decimal(n as nat));
    }
    string_of(digits.as_slice())
}

/// Appends the decimal digits of `n` to `text`.
pub fn push_decimal(text: &mut Vec<char>, n: usize)
    ensures
        final(text)@ == old(text)@ + decimal(n as nat),
    decreases n,
{
    if n >= 10 {
        push_decimal(text, n / 10);
    }
    let d = (n % 10) as u8;
    let c = (48 + d) as char;
    proof {
        assert(c == digit((n % 10) as nat));
        if n >= 10 {
            assert(old(text)@ + decimal((n / 10) as nat).push(c) =~= (old(text)@ + decimal(
                (n / 10) as nat,
            )).push(c));
        } else {
            assert(old(text)@ + seq![c] =~= old(text)@.push(c));
        }
    }
    text.push(c);
}

} // verus!
