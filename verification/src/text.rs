//! Text primitives shared by the registry, the scan report and the dialogue:
//! line splitting, blank-line detection, joining and decimal rendering, each
//! specified over sequences of characters.

use vstd::prelude::*;

verus! {

/// Whether `c` is white space: the code points that Unicode classes as
/// `White_Space`.
pub open spec fn is_blank_char(c: char) -> bool {
    let u = c as u32;
    (0x09 <= u && u <= 0x0D) || u == 0x20 || u == 0x85 || u == 0xA0 || u == 0x1680 || (0x2000 <= u
        && u <= 0x200A) || u == 0x2028 || u == 0x2029 || u == 0x202F || u == 0x205F || u == 0x3000
}

/// A line is blank when it holds nothing but white space (the empty line included).
pub open spec fn is_blank(line: Seq<char>) -> bool {
    forall|i: int| 0 <= i < line.len() ==> is_blank_char(#[trigger] line[i])
}

/// Length of the first line of `s`: the index of its first line feed, or the
/// length of `s` when it holds none.
pub open spec fn line_end(s: Seq<char>) -> int
    decreases s.len(),
{
    if s.len() == 0 || s[0] == '\n' {
        0
    } else {
        1 + line_end(s.drop_first())
    }
}

/// A line without the carriage return that preceded its line feed.
pub open spec fn strip_cr(line: Seq<char>) -> Seq<char> {
    if line.len() > 0 && line.last() == '\r' {
        line.drop_last()
    } else {
        line
    }
}

/// The lines of a text. Lines end at a line feed, alone or after a carriage
/// return; neither belongs to the line. A last line needs no line feed, and a
/// text that ends in a line feed has no empty line after it.
pub open spec fn lines(s: Seq<char>) -> Seq<Seq<char>>
    decreases s.len(),
{
    if s.len() == 0 {
        Seq::empty()
    } else {
        let n = line_end(s);
        if 0 <= n < s.len() {
            seq![strip_cr(s.take(n))] + lines(s.skip(n + 1))
        } else {
            seq![s]
        }
    }
}

/// The parts in order, with `sep` between each two neighbours.
pub open spec fn join(parts: Seq<Seq<char>>, sep: Seq<char>) -> Seq<char>
    decreases parts.len(),
{
    if parts.len() == 0 {
        Seq::empty()
    } else if parts.len() == 1 {
        parts[0]
    } else {
        join(parts.drop_last(), sep) + sep + parts.last()
    }
}

/// The lines that are not blank, in their order.
pub open spec fn nonblank(ls: Seq<Seq<char>>) -> Seq<Seq<char>>
    decreases ls.len(),
{
    if ls.len() == 0 {
        Seq::empty()
    } else if is_blank(ls.last()) {
        nonblank(ls.drop_last())
    } else {
        nonblank(ls.drop_last()).push(ls.last())
    }
}

/// The character of one decimal digit.
pub open spec fn digit_char(d: int) -> char {
    if d == 0 {
        '0'
    } else if d == 1 {
        '1'
    } else if d == 2 {
        '2'
    } else if d == 3 {
        '3'
    } else if d == 4 {
        '4'
    } else if d == 5 {
        '5'
    } else if d == 6 {
        '6'
    } else if d == 7 {
        '7'
    } else if d == 8 {
        '8'
    } else {
        '9'
    }
}

/// Decimal digits of a natural number, most significant first, no leading zero.
pub open spec fn decimal(n: nat) -> Seq<char>
    decreases n,
{
    if n < 10 {
        seq![digit_char(n as int)]
    } else {
        decimal(n / 10).push(digit_char((n % 10) as int))
    }
}

/// Decimal rendering of an integer, with a minus sign for negative values.
pub open spec fn signed_decimal(i: int) -> Seq<char> {
    if i < 0 {
        seq!['-'] + decimal((-i) as nat)
    } else {
        decimal(i as nat)
    }
}

/// An upper-case ASCII letter becomes its lower-case form; every other
/// character stays as it is.
pub open spec fn lower_char(c: char) -> char {
    if 'A' <= c && c <= 'Z' {
        ((c as u8) + 32) as char
    } else {
        c
    }
}

/// The text with each character mapped by `lower_char`.
pub open spec fn lowercase(s: Seq<char>) -> Seq<char> {
    Seq::new(s.len(), |i: int| lower_char(s[i]))
}

/// Length of the first field of `s`: the index of its first space, or the
/// length of `s` when it holds none.
pub open spec fn field_end(s: Seq<char>) -> int
    decreases s.len(),
{
    if s.len() == 0 || s[0] == ' ' {
        0
    } else {
        1 + field_end(s.drop_first())
    }
}

/// The fields of a text cut at every single space. Two spaces in a row, or a
/// space at either end, give an empty field; a text without a space is one field.
pub open spec fn fields(s: Seq<char>) -> Seq<Seq<char>>
    decreases s.len(),
{
    let n = field_end(s);
    if 0 <= n < s.len() {
        seq![s.take(n)] + fields(s.skip(n + 1))
    } else {
        seq![s]
    }
}

/// Appends one character to a string, by `String::push`. Taken on trust: the
/// string afterwards is the string before with `c` at its end.
#[verifier::external_body]
pub(crate) fn push_char(s: &mut String, c: char)
    ensures
        final(s)@ == old(s)@.push(c),
{
    s.push(c)
}

/// The characters of a string, in a vector.
pub fn chars_of(s: &str) -> (v: Vec<char>)
    ensures
        v@ == s@,
{
    let mut v: Vec<char> = Vec::new();
    for c in it: s.chars()
        invariant
            it.seq() == s@,
            v@ == s@.take(it.index() as int),
    {
        assert(s@.take(it.index() + 1) == s@.take(it.index()).push(c));
        v.push(c);
    }
    v
}

/// The string made of the characters `v[from..to]`.
pub(crate) fn string_of_range(v: &Vec<char>, from: usize, to: usize) -> (s: String)
    requires
        from <= to <= v.len(),
    ensures
        s@ == v@.subrange(from as int, to as int),
{
    let mut s = String::new();
    let mut i: usize = from;
    while i < to
        invariant
            from <= i <= to <= v.len(),
            s@ == v@.subrange(from as int, i as int),
        decreases to - i,
    {
        push_char(&mut s, v[i]);
        i += 1;
    }
    s
}

/// Appends the characters of `tail` to `out`.
pub fn push_text(out: &mut String, tail: &str)
    ensures
        final(out)@ == old(out)@ + tail@,
{
    for c in it: tail.chars()
        invariant
            it.seq() == tail@,
            out@ == old(out)@ + tail@.take(it.index() as int),
    {
        assert(tail@.take(it.index() + 1) == tail@.take(it.index()).push(c));
        push_char(out, c);
    }
}

/// Tells whether `c` is white space.
pub fn blank_char(c: char) -> (b: bool)
    ensures
        b == is_blank_char(c),
{
    let u: u32 = c as u32;
    (0x09 <= u && u <= 0x0D) || u == 0x20 || u == 0x85 || u == 0xA0 || u == 0x1680 || (0x2000 <= u
        && u <= 0x200A) || u == 0x2028 || u == 0x2029 || u == 0x202F || u == 0x205F || u == 0x3000
}

/// Tells whether a line holds nothing but white space.
pub fn is_blank_line(line: &str) -> (b: bool)
    ensures
        b == is_blank(line@),
{
    let mut all: bool = true;
    for c in it: line.chars()
        invariant
            it.seq() == line@,
            all == is_blank(line@.take(it.index() as int)),
    {
        let ghost before = line@.take(it.index() as int);
        let ghost after = line@.take(it.index() + 1);
        proof {
            assert(after == before.push(c));
            if is_blank(after) {
                assert forall|i: int| 0 <= i < before.len() implies is_blank_char(
                    #[trigger] before[i],
                ) by {
                    assert(after[i] == before[i]);
                }
                assert(after[before.len() as int] == c);
            }
        }
        all = all && blank_char(c);
    }
    assert(line@.take(line@.len() as int) == line@);
    all
}

/// Tells whether `text` begins with `prefix`.
pub fn starts_with(text: &str, prefix: &str) -> (b: bool)
    ensures
        b == prefix@.is_prefix_of(text@),
{
    let t = chars_of(text);
    let p = chars_of(prefix);
    if p.len() > t.len() {
        return false;
    }
    let mut i: usize = 0;
    while i < p.len()
        invariant
            i <= p.len() <= t.len(),
            t@ == text@,
            p@ == prefix@,
            forall|j: int| 0 <= j < i ==> p@[j] == t@[j],
        decreases p.len() - i,
    {
        if p[i] != t[i] {
            proof {
                let head = text@.subrange(0, prefix@.len() as int);
                assert(head[i as int] != prefix@[i as int]);
            }
            return false;
        }
        i += 1;
    }
    assert(prefix@ =~= text@.subrange(0, prefix@.len() as int));
    true
}

/// Tells whether two texts hold the same characters.
pub fn same_text(a: &str, b: &str) -> (r: bool)
    ensures
        r == (a@ == b@),
{
    let x = a.to_owned();
    let y = b.to_owned();
    x == y
}

/// Splits a text into its lines.
pub fn split_lines(text: &str) -> (out: Vec<String>)
    ensures
        out.deep_view() == lines(text@),
{
    let t = chars_of(text);
    let mut out: Vec<String> = Vec::new();
    let mut start: usize = 0;
    let mut i: usize = 0;
    assert(t@.skip(0) == t@);
    assert(out.deep_view() + lines(t@) == lines(t@));
    while i < t.len()
        invariant
            start <= i <= t.len(),
            forall|j: int| start <= j < i ==> t@[j] != '\n',
            lines(t@) == out.deep_view() + lines(t@.skip(start as int)),
        decreases t.len() - i,
    {
        if t[i] == '\n' {
            let end: usize = if i > start && t[i - 1] == '\r' {
                i - 1
            } else {
                i
            };
            let line = string_of_range(&t, start, end);
            proof {
                let rest = t@.skip(start as int);
                let n = i - start;
                assert forall|j: int| 0 <= j < n implies rest[j] != '\n' by {
                    assert(rest[j] == t@[start + j]);
                }
                lemma_line_end(rest, n);
                assert(rest.skip(n + 1) == t@.skip(i + 1));
                assert(rest.take(n) == t@.subrange(start as int, i as int));
                assert(line@ == strip_cr(rest.take(n)));
                let before = out.deep_view();
                assert(before.push(line@) + lines(t@.skip(i + 1)) == before + (seq![line@] + lines(
                    t@.skip(i + 1),
                )));
            }
            let ghost before = out.deep_view();
            out.push(line);
            assert(out.deep_view() == before.push(line@));
            start = i + 1;
        }
        i += 1;
    }
    if start < t.len() {
        let line = string_of_range(&t, start, t.len());
        proof {
            let rest = t@.skip(start as int);
            assert forall|j: int| 0 <= j < rest.len() implies rest[j] != '\n' by {
                assert(rest[j] == t@[start + j]);
            }
            lemma_line_end(rest, rest.len() as int);
            assert(line@ == rest);
            assert(lines(rest) == seq![rest]);
        }
        let ghost before = out.deep_view();
        out.push(line);
        assert(out.deep_view() == before.push(line@));
        assert(before.push(line@) == before + seq![line@]);
    } else {
        assert(t@.skip(start as int).len() == 0);
        assert(out.deep_view() + Seq::<Seq<char>>::empty() == out.deep_view());
    }
    out
}

/// Joins the parts with `sep` between neighbours.
pub fn join_texts(parts: &Vec<String>, sep: &str) -> (out: String)
    ensures
        out@ == join(parts.deep_view(), sep@),
{
    let mut out = String::new();
    let mut i: usize = 0;
    while i < parts.len()
        invariant
            i <= parts.len(),
            out@ == join(parts.deep_view().take(i as int), sep@),
        decreases parts.len() - i,
    {
        let ghost done = parts.deep_view().take(i as int);
        let ghost next = parts.deep_view().take(i + 1);
        proof {
            assert(next.drop_last() == done);
            assert(next.last() == parts@[i as int]@);
        }
        if i > 0 {
            push_text(&mut out, sep);
        } else {
            assert(out@ + parts@[i as int]@ == parts@[i as int]@);
        }
        push_text(&mut out, parts[i].as_str());
        i += 1;
    }
    assert(parts.deep_view().take(parts.len() as int) == parts.deep_view());
    out
}

/// The digit `d` as a character.
pub(crate) fn digit_of(d: u64) -> (c: char)
    requires
        d < 10,
    ensures
        c == digit_char(d as int),
{
    if d == 0 {
        '0'
    } else if d == 1 {
        '1'
    } else if d == 2 {
        '2'
    } else if d == 3 {
        '3'
    } else if d == 4 {
        '4'
    } else if d == 5 {
        '5'
    } else if d == 6 {
        '6'
    } else if d == 7 {
        '7'
    } else if d == 8 {
        '8'
    } else {
        '9'
    }
}

/// Appends the decimal digits of `n` to `out`.
pub fn push_decimal(out: &mut String, n: u64)
    ensures
        final(out)@ == old(out)@ + decimal(n as nat),
    decreases n,
{
    if n < 10 {
        push_char(out, digit_of(n));
        assert(old(out)@.push(digit_char(n as int)) == old(out)@ + decimal(n as nat));
    } else {
        push_decimal(out, n / 10);
        push_char(out, digit_of(n % 10));
        assert((old(out)@ + decimal((n / 10) as nat)).push(digit_char((n % 10) as int)) == old(
            out,
        )@ + decimal(n as nat));
    }
}

/// Appends the decimal rendering of `i` to `out`, with a minus sign when negative.
pub fn push_signed(out: &mut String, i: i64)
    ensures
        final(out)@ == old(out)@ + signed_decimal(i as int),
{
    if i < 0 {
        push_char(out, '-');
        let magnitude: u64 = ((-(i + 1)) as u64) + 1;
        push_decimal(out, magnitude);
        assert(old(out)@.push('-') + decimal(magnitude as nat) == old(out)@ + (seq!['-'] + decimal(
            magnitude as nat,
        )));
    } else {
        push_decimal(out, i as u64);
    }
}

/// One character in lower case, ASCII letters only.
pub fn lower_of(c: char) -> (r: char)
    ensures
        r == lower_char(c),
{
    if 'A' <= c && c <= 'Z' {
        ((c as u8) + 32) as char
    } else {
        c
    }
}

/// The text with its ASCII letters in lower case.
pub fn to_lowercase(text: &str) -> (out: String)
    ensures
        out@ == lowercase(text@),
{
    let mut out = String::new();
    for c in it: text.chars()
        invariant
            it.seq() == text@,
            out@ == lowercase(text@.take(it.index() as int)),
    {
        assert(lowercase(text@.take(it.index() + 1)) == lowercase(
            text@.take(it.index() as int),
        ).push(lower_char(c)));
        push_char(&mut out, lower_of(c));
    }
    assert(text@.take(text@.len() as int) == text@);
    out
}

/// Cuts a text at every single space.
pub fn split_fields(text: &str) -> (out: Vec<String>)
    ensures
        out.deep_view() == fields(text@),
{
    let t = chars_of(text);
    let mut out: Vec<String> = Vec::new();
    let mut start: usize = 0;
    let mut i: usize = 0;
    assert(t@.skip(0) == t@);
    assert(out.deep_view() + fields(t@) == fields(t@));
    while i < t.len()
        invariant
            start <= i <= t.len(),
            forall|j: int| start <= j < i ==> t@[j] != ' ',
            fields(t@) == out.deep_view() + fields(t@.skip(start as int)),
        decreases t.len() - i,
    {
        if t[i] == ' ' {
            let field = string_of_range(&t, start, i);
            proof {
                let rest = t@.skip(start as int);
                let n = i - start;
                assert forall|j: int| 0 <= j < n implies rest[j] != ' ' by {
                    assert(rest[j] == t@[start + j]);
                }
                lemma_field_end(rest, n);
                assert(rest.skip(n + 1) == t@.skip(i + 1));
                assert(rest.take(n) == t@.subrange(start as int, i as int));
                let before = out.deep_view();
                assert(before.push(field@) + fields(t@.skip(i + 1)) == before + (seq![field@]
                    + fields(t@.skip(i + 1))));
            }
            let ghost before = out.deep_view();
            out.push(field);
            assert(out.deep_view() == before.push(field@));
            start = i + 1;
        }
        i += 1;
    }
    let field = string_of_range(&t, start, t.len());
    proof {
        let rest = t@.skip(start as int);
        assert forall|j: int| 0 <= j < rest.len() implies rest[j] != ' ' by {
            assert(rest[j] == t@[start + j]);
        }
        lemma_field_end(rest, rest.len() as int);
        assert(field@ == rest);
        assert(fields(rest) == seq![rest]);
    }
    let ghost before = out.deep_view();
    out.push(field);
    assert(out.deep_view() == before.push(field@));
    assert(before.push(field@) == before + seq![field@]);
    out
}

/// `line_end` is the first position that holds a line feed.
pub proof fn lemma_line_end(s: Seq<char>, k: int)
    requires
        0 <= k <= s.len(),
        forall|j: int| 0 <= j < k ==> s[j] != '\n',
        k == s.len() || s[k] == '\n',
    ensures
        line_end(s) == k,
    decreases k,
{
    if k > 0 {
        let rest = s.drop_first();
        assert forall|j: int| 0 <= j < k - 1 implies rest[j] != '\n' by {
            assert(rest[j] == s[j + 1]);
        }
        lemma_line_end(rest, k - 1);
    }
}

/// `field_end` is the first position that holds a space.
pub proof fn lemma_field_end(s: Seq<char>, k: int)
    requires
        0 <= k <= s.len(),
        forall|j: int| 0 <= j < k ==> s[j] != ' ',
        k == s.len() || s[k] == ' ',
    ensures
        field_end(s) == k,
    decreases k,
{
    if k > 0 {
        let rest = s.drop_first();
        assert forall|j: int| 0 <= j < k - 1 implies rest[j] != ' ' by {
            assert(rest[j] == s[j + 1]);
        }
        lemma_field_end(rest, k - 1);
    }
}

/// `line_end` stays within the text and no line feed comes before it.
pub proof fn lemma_line_end_bounds(s: Seq<char>)
    ensures
        0 <= line_end(s) <= s.len(),
        forall|j: int| 0 <= j < line_end(s) ==> s[j] != '\n',
        line_end(s) < s.len() ==> s[line_end(s)] == '\n',
    decreases s.len(),
{
    if s.len() == 0 || s[0] == '\n' {
    } else {
        let rest = s.drop_first();
        lemma_line_end_bounds(rest);
        assert forall|j: int| 0 <= j < line_end(s) implies s[j] != '\n' by {
            if j > 0 {
                assert(rest[j - 1] == s[j]);
            }
        }
        if line_end(s) < s.len() {
            assert(rest[line_end(rest)] == s[line_end(s)]);
        }
    }
}

/// Appending a line feed and a line to a text makes that line the last one.
/// The line must hold something and no line feed of its own.
pub proof fn lemma_appended_line_is_last(a: Seq<char>, h: Seq<char>)
    requires
        h.len() > 0,
        forall|j: int| 0 <= j < h.len() ==> h[j] != '\n',
    ensures
        lines(a + seq!['\n'] + h).len() > 0,
        lines(a + seq!['\n'] + h).last() == h,
    decreases a.len(),
{
    let s = a + seq!['\n'] + h;
    lemma_line_end_bounds(a);
    let k = line_end(a);
    assert forall|j: int| 0 <= j < k implies s[j] != '\n' by {
        assert(s[j] == a[j]);
    }
    if k < a.len() {
        assert(s[k] == a[k]);
        lemma_line_end(s, k);
        let rest = a.skip(k + 1);
        assert(s.skip(k + 1) == rest + seq!['\n'] + h);
        lemma_appended_line_is_last(rest, h);
        let tail = lines(s.skip(k + 1));
        assert(lines(s) == seq![strip_cr(s.take(k))] + tail);
        assert(lines(s).last() == tail.last());
    } else {
        assert(s[k] == '\n');
        lemma_line_end(s, k);
        assert(s.skip(k + 1) == h);
        lemma_line_end(h, h.len() as int);
        assert(lines(h) == seq![h]);
        assert(lines(s) == seq![strip_cr(s.take(k))] + seq![h]);
    }
}

} // verus!
