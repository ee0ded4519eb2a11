//! Knowledge-base articles are written in a small subset of Markdown; the
//! application shows them as Pango markup. This module converts one to the
//! other: headings, list items, tables (in a monospace span), links, bold and
//! italic text.

use vstd::prelude::*;
use crate::document::{first_at, lemma_first_at_unique};
use crate::text::{
    chars_of, contains_chars, contains_text, find_from, lemma_split_nonempty, occurs_at,
    occurs_at_exec, split_on, string_of, trim, trim_chars,
};

verus! {

/// The hexadecimal digit for `d` (below sixteen), in lower case.
pub open spec fn hex_digit(d: u32) -> char {
    if d == 0 { '0' } else if d == 1 { '1' } else if d == 2 { '2' } else if d == 3 { '3' }
    else if d == 4 { '4' } else if d == 5 { '5' } else if d == 6 { '6' } else if d == 7 { '7' }
    else if d == 8 { '8' } else if d == 9 { '9' } else if d == 10 { 'a' } else if d == 11 { 'b' }
    else if d == 12 { 'c' } else if d == 13 { 'd' } else if d == 14 { 'e' } else { 'f' }
}

/// Whether a character is written as a numeric reference: the control
/// characters other than tab, line feed and carriage return.
pub open spec fn is_escaped_control(n: u32) -> bool {
    (0x1 <= n <= 0x8) || (0xb <= n <= 0xc) || (0xe <= n <= 0x1f) || (0x7f <= n <= 0x84) || (0x86
        <= n <= 0x9f)
}

/// How one character is written in markup text (`g_markup_escape_text`): the
/// five XML specials as entities, the control characters above as
/// `&#x..;`, everything else as itself.
pub open spec fn escape_char(c: char) -> Seq<char> {
    let n = c as u32;
    if c == '&' {
        seq!['&', 'a', 'm', 'p', ';']
    } else if c == '<' {
        seq!['&', 'l', 't', ';']
    } else if c == '>' {
        seq!['&', 'g', 't', ';']
    } else if c == '\'' {
        seq!['&', '#', '3', '9', ';']
    } else if c == '"' {
        seq!['&', 'q', 'u', 'o', 't', ';']
    } else if is_escaped_control(n) {
        if n < 16 {
            seq!['&', '#', 'x', hex_digit(n), ';']
        } else {
            seq!['&', '#', 'x', hex_digit(n / 16), hex_digit(n % 16), ';']
        }
    } else {
        seq![c]
    }
}

/// A text written as markup text.
pub open spec fn escaped(s: Seq<char>) -> Seq<char>
    decreases s.len(),
{
    if s.len() == 0 {
        Seq::empty()
    } else {
        escaped(s.drop_last()) + escape_char(s.last())
    }
}

/// The hexadecimal digit for `d`.
fn hex_digit_exec(d: u32) -> (c: char)
    requires
        d < 16,
    ensures
        c == hex_digit(d),
{
    match d {
        0 => '0',
        1 => '1',
        2 => '2',
        3 => '3',
        4 => '4',
        5 => '5',
        6 => '6',
        7 => '7',
        8 => '8',
        9 => '9',
        10 => 'a',
        11 => 'b',
        12 => 'c',
        13 => 'd',
        14 => 'e',
        _ => 'f',
    }
}

/// Appends the characters of `s`.
fn push_all(out: &mut Vec<char>, s: &[char])
    ensures
        final(out)@ == old(out)@ + s@,
{
    let mut i: usize = 0;
    while i < s.len()
        invariant
            i <= s@.len(),
            out@ == old(out)@ + s@.take(i as int),
        decreases s@.len() - i,
    {
        out.push(s[i]);
        i = i + 1;
        assert(out@ =~= old(out)@ + s@.take(i as int));
    }
    assert(s@.take(i as int) =~= s@);
}

/// Appends one escaped character.
fn push_escaped_char(out: &mut Vec<char>, c: char)
    ensures
        final(out)@ == old(out)@ + escape_char(c),
{
    let n = c as u32;
    if c == '&' {
        out.push('&'); out.push('a'); out.push('m'); out.push('p'); out.push(';');
    } else if c == '<' {
        out.push('&'); out.push('l'); out.push('t'); out.push(';');
    } else if c == '>' {
        out.push('&'); out.push('g'); out.push('t'); out.push(';');
    } else if c == '\'' {
        out.push('&'); out.push('#'); out.push('3'); out.push('9'); out.push(';');
    } else if c == '"' {
        out.push('&'); out.push('q'); out.push('u'); out.push('o'); out.push('t'); out.push(';');
    } else if (0x1 <= n && n <= 0x8) || (0xb <= n && n <= 0xc) || (0xe <= n && n <= 0x1f) || (0x7f
        <= n && n <= 0x84) || (0x86 <= n && n <= 0x9f) {
        out.push('&');
        out.push('#');
        out.push('x');
        if n < 16 {
            out.push(hex_digit_exec(n));
        } else {
            out.push(hex_digit_exec(n / 16));
            out.push(hex_digit_exec(n % 16));
        }
        out.push(';');
    } else {
        out.push(c);
    }
    assert(final(out)@ =~= old(out)@ + escape_char(c));
}

/// Appends a text written as markup text.
fn push_escaped(out: &mut Vec<char>, s: &[char])
    ensures
        final(out)@ == old(out)@ + escaped(s@),
{
    let mut i: usize = 0;
    while i < s.len()
        invariant
            i <= s@.len(),
            out@ == old(out)@ + escaped(s@.take(i as int)),
        decreases s@.len() - i,
    {
        let ghost before = out@;
        push_escaped_char(out, s[i]);
        assert(s@.take(i + 1).drop_last() =~= s@.take(i as int));
        assert(s@.take(i + 1).last() == s@[i as int]);
        i = i + 1;
        assert(out@ =~= old(out)@ + escaped(s@.take(i as int)));
    }
    assert(s@.take(i as int) =~= s@);
}

/// A text written as markup text (`glib::markup_escape_text`).
pub fn markup_escape(s: &str) -> (r: String)
    ensures
        r@ == escaped(s@),
{
    let v = chars_of(s);
    let mut out: Vec<char> = Vec::new();
    push_escaped(&mut out, v.as_slice());
    assert(out@ =~= escaped(s@));
    string_of(out.as_slice())
}

/// `d`, then at least one character, then the next `d` start at `p`.
pub open spec fn span_at(x: Seq<char>, d: Seq<char>, p: int) -> bool {
    occurs_at(x, d, p) && exists|k: int| closes_at(x, d, p, k)
}

/// `k` is where the first `d` after the opening `d` at `p` and at least one
/// character starts.
pub open spec fn closes_at(x: Seq<char>, d: Seq<char>, p: int, k: int) -> bool {
    first_at(x, d, p + d.len() + 1, k)
}

/// Where the closing `d` of the span at `p` starts.
pub open spec fn span_close(x: Seq<char>, d: Seq<char>, p: int) -> int {
    choose|k: int| closes_at(x, d, p, k)
}

/// `**`
pub open spec fn double_star() -> Seq<char> {
    seq!['*', '*']
}

/// `*`
pub open spec fn single_star() -> Seq<char> {
    seq!['*']
}

/// Bold spans (`**text**`) from position `pos` on, each replaced by
/// `<b>text</b>` with the text escaped, scanning left to right.
pub open spec fn bold_pass(x: Seq<char>, pos: int) -> Seq<char>
    decreases x.len() - pos,
{
    if pos < 0 || pos >= x.len() {
        Seq::empty()
    } else if span_at(x, double_star(), pos) {
        let k = span_close(x, double_star(), pos);
        proof {
            assert(closes_at(x, double_star(), pos, k));
        }
        seq!['<', 'b', '>'] + escaped(x.subrange(pos + 2, k)) + seq!['<', '/', 'b', '>']
            + bold_pass(x, k + 2)
    } else {
        seq![x[pos]] + bold_pass(x, pos + 1)
    }
}

/// `<b>`
pub open spec fn bold_open() -> Seq<char> {
    seq!['<', 'b', '>']
}

/// Italic spans (`*text*`) from position `pos` on, each replaced by
/// `<i>text</i>` with the text escaped; a span whose text holds `<b>` stays as
/// it is.
pub open spec fn italic_pass(x: Seq<char>, pos: int) -> Seq<char>
    decreases x.len() - pos,
{
    if pos < 0 || pos >= x.len() {
        Seq::empty()
    } else if span_at(x, single_star(), pos) {
        let k = span_close(x, single_star(), pos);
        proof {
            assert(closes_at(x, single_star(), pos, k));
        }
        let text = x.subrange(pos + 1, k);
        (if contains_text(text, bold_open()) {
            x.subrange(pos, k + 1)
        } else {
            seq!['<', 'i', '>'] + escaped(text) + seq!['<', '/', 'i', '>']
        }) + italic_pass(x, k + 1)
    } else {
        seq![x[pos]] + italic_pass(x, pos + 1)
    }
}

/// The delimiters of the Markdown spans, as vectors.
fn stars(n: usize) -> (v: Vec<char>)
    requires
        n == 1 || n == 2,
    ensures
        n == 1 ==> v@ == single_star(),
        n == 2 ==> v@ == double_star(),
{
    let mut v: Vec<char> = Vec::new();
    v.push('*');
    if n == 2 {
        v.push('*');
    }
    assert(n == 1 ==> v@ =~= single_star());
    assert(n == 2 ==> v@ =~= double_star());
    v
}

/// Replaces the bold spans of a line.
fn bold_exec(x: &[char]) -> (r: Vec<char>)
    ensures
        r@ == bold_pass(x@, 0),
{
    let d = stars(2);
    let mut out: Vec<char> = Vec::new();
    let mut pos: usize = 0;
    while pos < x.len()
        invariant
            d@ == double_star(),
            pos <= x@.len(),
            out@ + bold_pass(x@, pos as int) == bold_pass(x@, 0),
        decreases x@.len() - pos,
    {
        let ghost rest = bold_pass(x@, pos as int);
        assert(x@.len() == x.len());
        if x.len() - pos >= 3 && occurs_at_exec(x, d.as_slice(), pos) {
            if let Some(k) = find_from(x, d.as_slice(), pos + 3) {
                assert(first_at(x@, double_star(), pos + 3, k as int));
                assert(closes_at(x@, double_star(), pos as int, k as int));
                assert(span_at(x@, double_star(), pos as int));
                let ghost k2 = span_close(x@, double_star(), pos as int);
                proof {
                    lemma_first_at_unique(x@, double_star(), pos + 3, k as int, k2);
                }
                assert(k + 2 <= x@.len());
                out.push('<');
                out.push('b');
                out.push('>');
                let ghost mid = out@;
                let inner = slice_of(x, pos + 2, k);
                push_escaped(&mut out, inner.as_slice());
                out.push('<');
                out.push('/');
                out.push('b');
                out.push('>');
                assert(out@ =~= mid.subrange(0, mid.len() - 3) + seq!['<', 'b', '>'] + escaped(
                    x@.subrange(pos + 2, k as int),
                ) + seq!['<', '/', 'b', '>']);
                pos = k + 2;
                continue;
            } else {
                assert(!span_at(x@, double_star(), pos as int)) by {
                    if span_at(x@, double_star(), pos as int) {
                        let k2 = span_close(x@, double_star(), pos as int);
                        assert(occurs_at(x@, double_star(), k2));
                    }
                }
            }
        } else {
            assert(!span_at(x@, double_star(), pos as int)) by {
                if span_at(x@, double_star(), pos as int) {
                    let k2 = span_close(x@, double_star(), pos as int);
                    assert(occurs_at(x@, double_star(), k2));
                }
            }
        }
        out.push(x[pos]);
        pos = pos + 1;
    }
    assert(bold_pass(x@, pos as int) == Seq::<char>::empty());
    assert(out@ =~= out@ + Seq::<char>::empty());
    out
}

/// The characters of `x` from `a` to `b`.
fn slice_of(x: &[char], a: usize, b: usize) -> (r: Vec<char>)
    requires
        a <= b <= x@.len(),
    ensures
        r@ == x@.subrange(a as int, b as int),
{
    let mut r: Vec<char> = Vec::new();
    let mut i: usize = a;
    while i < b
        invariant
            a <= i <= b <= x@.len(),
            r@ == x@.subrange(a as int, i as int),
        decreases b - i,
    {
        r.push(x[i]);
        i = i + 1;
        assert(r@ =~= x@.subrange(a as int, i as int));
    }
    r
}

/// `](`
pub open spec fn link_middle() -> Seq<char> {
    seq![']', '(']
}

/// `)`
pub open spec fn link_close() -> Seq<char> {
    seq![')']
}

/// `q` is where the first `](` after the `[` at `p` and at least one
/// character starts.
pub open spec fn link_middle_at(x: Seq<char>, p: int, q: int) -> bool {
    first_at(x, link_middle(), p + 2, q)
}

/// `r` is where the first `)` after the `](` at `q` and at least one
/// character is.
pub open spec fn link_close_at(x: Seq<char>, q: int, r: int) -> bool {
    first_at(x, link_close(), q + 3, r)
}

/// A link `[text](url)` starts at `p` (text and url non-empty, each ending
/// at the first delimiter that lets the whole link match).
pub open spec fn link_at(x: Seq<char>, p: int) -> bool {
    &&& 0 <= p < x.len()
    &&& x[p] == '['
    &&& exists|q: int| link_middle_at(x, p, q) && exists|r: int| link_close_at(x, q, r)
}

/// Links from position `pos` on, each replaced by `<u>text</u> (url)` with
/// text and url escaped.
pub open spec fn link_pass(x: Seq<char>, pos: int) -> Seq<char>
    decreases x.len() - pos,
{
    if pos < 0 || pos >= x.len() {
        Seq::empty()
    } else if link_at(x, pos) {
        let q = choose|q: int| link_middle_at(x, pos, q) && exists|r: int| link_close_at(x, q, r);
        let r = choose|r: int| link_close_at(x, q, r);
        proof {
            assert(link_middle_at(x, pos, q));
            assert(link_close_at(x, q, r));
        }
        seq!['<', 'u', '>'] + escaped(x.subrange(pos + 1, q)) + seq!['<', '/', 'u', '>', ' ', '(']
            + escaped(x.subrange(q + 2, r)) + seq![')'] + link_pass(x, r + 1)
    } else {
        seq![x[pos]] + link_pass(x, pos + 1)
    }
}

/// The inline markup of a line: links, then bold, then italic spans.
pub open spec fn inline_markup(x: Seq<char>) -> Seq<char> {
    italic_pass(bold_pass(link_pass(x, 0), 0), 0)
}

/// Replaces the italic spans of a line.
fn italic_exec(x: &[char]) -> (r: Vec<char>)
    ensures
        r@ == italic_pass(x@, 0),
{
    let d = stars(1);
    let mut b: Vec<char> = Vec::new();
    b.push('<');
    b.push('b');
    b.push('>');
    assert(b@ =~= bold_open());
    let mut out: Vec<char> = Vec::new();
    let mut pos: usize = 0;
    while pos < x.len()
        invariant
            d@ == single_star(),
            b@ == bold_open(),
            pos <= x@.len(),
            out@ + italic_pass(x@, pos as int) == italic_pass(x@, 0),
        decreases x@.len() - pos,
    {
        let ghost rest = italic_pass(x@, pos as int);
        assert(x@.len() == x.len());
        if x.len() - pos >= 2 && occurs_at_exec(x, d.as_slice(), pos) {
            if let Some(k) = find_from(x, d.as_slice(), pos + 2) {
                assert(closes_at(x@, single_star(), pos as int, k as int));
                assert(span_at(x@, single_star(), pos as int));
                let ghost k2 = span_close(x@, single_star(), pos as int);
                proof {
                    lemma_first_at_unique(x@, single_star(), pos + 2, k as int, k2);
                }
                assert(k + 1 <= x@.len());
                let inner = slice_of(x, pos + 1, k);
                let ghost before = out@;
                if contains_chars(inner.as_slice(), b.as_slice()) {
                    let whole = slice_of(x, pos, k + 1);
                    push_all(&mut out, whole.as_slice());
                } else {
                    out.push('<');
                    out.push('i');
                    out.push('>');
                    push_escaped(&mut out, inner.as_slice());
                    out.push('<');
                    out.push('/');
                    out.push('i');
                    out.push('>');
                    assert(out@ =~= before + seq!['<', 'i', '>'] + escaped(
                        x@.subrange(pos + 1, k as int),
                    ) + seq!['<', '/', 'i', '>']);
                }
                pos = k + 1;
                continue;
            } else {
                assert(!span_at(x@, single_star(), pos as int)) by {
                    if span_at(x@, single_star(), pos as int) {
                        let k2 = span_close(x@, single_star(), pos as int);
                        assert(occurs_at(x@, single_star(), k2));
                    }
                }
            }
        } else {
            assert(!span_at(x@, single_star(), pos as int)) by {
                if span_at(x@, single_star(), pos as int) {
                    let k2 = span_close(x@, single_star(), pos as int);
                    assert(occurs_at(x@, single_star(), k2));
                }
            }
        }
        out.push(x[pos]);
        pos = pos + 1;
    }
    assert(out@ =~= out@ + Seq::<char>::empty());
    out
}

/// Replaces the links of a line.
fn link_exec(x: &[char]) -> (r: Vec<char>)
    ensures
        r@ == link_pass(x@, 0),
{
    let mut mid: Vec<char> = Vec::new();
    mid.push(']');
    mid.push('(');
    assert(mid@ =~= link_middle());
    let mut close: Vec<char> = Vec::new();
    close.push(')');
    assert(close@ =~= link_close());
    let mut out: Vec<char> = Vec::new();
    let mut pos: usize = 0;
    while pos < x.len()
        invariant
            mid@ == link_middle(),
            close@ == link_close(),
            pos <= x@.len(),
            out@ + link_pass(x@, pos as int) == link_pass(x@, 0),
        decreases x@.len() - pos,
    {
        let ghost rest = link_pass(x@, pos as int);
        assert(x@.len() == x.len());
        let mut matched = false;
        if x[pos] == '[' && x.len() - pos >= 2 {
            if let Some(q) = find_from(x, mid.as_slice(), pos + 2) {
                assert(link_middle_at(x@, pos as int, q as int));
                assert(q + 2 <= x@.len());
                if x.len() - q >= 3 {
                    if let Some(r) = find_from(x, close.as_slice(), q + 3) {
                        assert(link_close_at(x@, q as int, r as int));
                        assert(link_at(x@, pos as int));
                        let ghost q2 = choose|q2: int|
                            link_middle_at(x@, pos as int, q2) && exists|r2: int|
                                link_close_at(x@, q2, r2);
                        proof {
                            lemma_first_at_unique(x@, link_middle(), pos + 2, q as int, q2);
                        }
                        let ghost r2 = choose|r2: int| link_close_at(x@, q2, r2);
                        proof {
                            lemma_first_at_unique(x@, link_close(), q + 3, r as int, r2);
                        }
                        assert(r + 1 <= x@.len());
                        let text = slice_of(x, pos + 1, q);
                        let url = slice_of(x, q + 2, r);
                        let ghost before = out@;
                        out.push('<');
                        out.push('u');
                        out.push('>');
                        push_escaped(&mut out, text.as_slice());
                        out.push('<');
                        out.push('/');
                        out.push('u');
                        out.push('>');
                        out.push(' ');
                        out.push('(');
                        push_escaped(&mut out, url.as_slice());
                        out.push(')');
                        assert(out@ =~= before + seq!['<', 'u', '>'] + escaped(
                            x@.subrange(pos + 1, q as int),
                        ) + seq!['<', '/', 'u', '>', ' ', '('] + escaped(
                            x@.subrange(q + 2, r as int),
                        ) + seq![')']);
                        pos = r + 1;
                        matched = true;
                    } else {
                        assert(!link_at(x@, pos as int)) by {
                            if link_at(x@, pos as int) {
                                let q2 = choose|q2: int|
                                    link_middle_at(x@, pos as int, q2) && exists|r2: int|
                                        link_close_at(x@, q2, r2);
                                lemma_first_at_unique(x@, link_middle(), pos + 2, q as int, q2);
                                let r2 = choose|r2: int| link_close_at(x@, q2, r2);
                                assert(occurs_at(x@, link_close(), r2));
                            }
                        }
                    }
                } else {
                    assert(!link_at(x@, pos as int)) by {
                        if link_at(x@, pos as int) {
                            let q2 = choose|q2: int|
                                link_middle_at(x@, pos as int, q2) && exists|r2: int|
                                    link_close_at(x@, q2, r2);
                            lemma_first_at_unique(x@, link_middle(), pos + 2, q as int, q2);
                            let r2 = choose|r2: int| link_close_at(x@, q2, r2);
                            assert(occurs_at(x@, link_close(), r2));
                        }
                    }
                }
            } else {
                assert(!link_at(x@, pos as int)) by {
                    if link_at(x@, pos as int) {
                        let q2 = choose|q2: int|
                            link_middle_at(x@, pos as int, q2) && exists|r2: int|
                                link_close_at(x@, q2, r2);
                        assert(occurs_at(x@, link_middle(), q2));
                    }
                }
            }
        } else {
            assert(!link_at(x@, pos as int)) by {
                if link_at(x@, pos as int) && x@[pos as int] == '[' {
                    let q2 = choose|q2: int|
                        link_middle_at(x@, pos as int, q2) && exists|r2: int|
                            link_close_at(x@, q2, r2);
                    assert(occurs_at(x@, link_middle(), q2));
                }
            }
        }
        if !matched {
            out.push(x[pos]);
            pos = pos + 1;
        }
    }
    assert(out@ =~= out@ + Seq::<char>::empty());
    out
}

/// Whether `s` starts with `p`.
pub open spec fn starts_with(s: Seq<char>, p: Seq<char>) -> bool {
    p.len() <= s.len() && s.subrange(0, p.len() as int) == p
}

/// How a block of one line is written: headings as large bold spans, list
/// items with a bullet, other lines as escaped text.
pub open spec fn block_markup(l: Seq<char>) -> Seq<char> {
    if starts_with(l, "### "@) {
        "<span size='large' weight='bold'>"@ + escaped(l.subrange(4, l.len() as int)) + "</span>"@
    } else if starts_with(l, "## "@) {
        "<span size='x-large' weight='bold'>"@ + escaped(l.subrange(3, l.len() as int))
            + "</span>"@
    } else if starts_with(l, "# "@) {
        "<span size='xx-large' weight='bold'>"@ + escaped(l.subrange(2, l.len() as int))
            + "</span>"@
    } else if starts_with(l, "* "@) || starts_with(l, "- "@) {
        "\u{2022} "@ + escaped(l.subrange(2, l.len() as int))
    } else {
        escaped(l)
    }
}

/// Whether a (trimmed) line belongs to a table: it starts with `|`, or it
/// holds nothing but `|`, `-` and spaces (so an empty line does too).
pub open spec fn is_table_line(l: Seq<char>) -> bool {
    (l.len() > 0 && l[0] == '|') || forall|i: int| 0 <= i < l.len() ==> table_char(#[trigger] l[i])
}

/// The characters of a table rule: `|`, `-` and space.
pub open spec fn table_char(c: char) -> bool {
    c == '|' || c == '-' || c == ' '
}

/// The text and the table flag after one more line.
pub open spec fn render_step(acc: (Seq<char>, bool), line: Seq<char>) -> (Seq<char>, bool) {
    let t = trim(line);
    if is_table_line(t) {
        (
            acc.0 + (if acc.1 {
                Seq::empty()
            } else {
                "<span font_family='monospace'>"@
            }) + escaped(t) + seq!['\n'],
            true,
        )
    } else {
        (
            acc.0 + (if acc.1 {
                "</span>\n"@
            } else {
                Seq::empty()
            }) + inline_markup(block_markup(t)) + seq!['\n'],
            false,
        )
    }
}

/// The text and the table flag after the given lines.
pub open spec fn render(ls: Seq<Seq<char>>) -> (Seq<char>, bool)
    decreases ls.len(),
{
    if ls.len() == 0 {
        (Seq::empty(), false)
    } else {
        render_step(render(ls.drop_last()), ls.last())
    }
}

/// The lines of `s` (`str::lines`, up to trailing carriage returns, which
/// trimming removes anyway): the pieces between line feeds, without a last
/// empty one.
pub open spec fn lines(s: Seq<char>) -> Seq<Seq<char>> {
    let p = split_on(s, '\n');
    if p.last().len() == 0 {
        p.drop_last()
    } else {
        p
    }
}

/// Pango markup for a Markdown text.
pub open spec fn pango_markup(md: Seq<char>) -> Seq<char> {
    let (out, in_table) = render(lines(md));
    trim(
        out + (if in_table {
            "</span>\n"@
        } else {
            Seq::empty()
        }),
    )
}

/// Appends the characters of a string.
fn push_str(out: &mut Vec<char>, s: &str)
    ensures
        final(out)@ == old(out)@ + s@,
{
    let v = chars_of(s);
    push_all(out, v.as_slice());
}

/// Whether `s` starts with `p`.
fn starts_with_exec(s: &[char], p: &str) -> (r: bool)
    ensures
        r == starts_with(s@, p@),
{
    let pv = chars_of(p);
    if pv.len() > s.len() {
        return false;
    }
    occurs_at_exec(s, pv.as_slice(), 0)
}

/// The characters of `l` from position `a` on.
fn tail_of(l: &[char], a: usize) -> (r: Vec<char>)
    requires
        a <= l@.len(),
    ensures
        r@ == l@.subrange(a as int, l@.len() as int),
{
    slice_of(l, a, l.len())
}

/// How a block of one line is written.
fn block_exec(l: &[char]) -> (r: Vec<char>)
    ensures
        r@ == block_markup(l@),
{
    let mut out: Vec<char> = Vec::new();
    proof {
        reveal_strlit("### ");
        reveal_strlit("## ");
        reveal_strlit("# ");
        reveal_strlit("* ");
        reveal_strlit("- ");
    }
    if starts_with_exec(l, "### ") {
        push_str(&mut out, "<span size='large' weight='bold'>");
        let rest = tail_of(l, 4);
        push_escaped(&mut out, rest.as_slice());
        push_str(&mut out, "</span>");
    } else if starts_with_exec(l, "## ") {
        push_str(&mut out, "<span size='x-large' weight='bold'>");
        let rest = tail_of(l, 3);
        push_escaped(&mut out, rest.as_slice());
        push_str(&mut out, "</span>");
    } else if starts_with_exec(l, "# ") {
        push_str(&mut out, "<span size='xx-large' weight='bold'>");
        let rest = tail_of(l, 2);
        push_escaped(&mut out, rest.as_slice());
        push_str(&mut out, "</span>");
    } else if starts_with_exec(l, "* ") || starts_with_exec(l, "- ") {
        push_str(&mut out, "\u{2022} ");
        let rest = tail_of(l, 2);
        push_escaped(&mut out, rest.as_slice());
    } else {
        push_escaped(&mut out, l);
    }
    assert(out@ =~= block_markup(l@));
    out
}

/// Whether a trimmed line belongs to a table.
fn is_table_line_exec(l: &[char]) -> (r: bool)
    ensures
        r == is_table_line(l@),
{
    if l.len() > 0 && l[0] == '|' {
        return true;
    }
    let mut i: usize = 0;
    while i < l.len()
        invariant
            i <= l@.len(),
            forall|j: int| 0 <= j < i ==> table_char(#[trigger] l@[j]),
            !(l@.len() > 0 && l@[0] == '|'),
        decreases l@.len() - i,
    {
        if !(l[i] == '|' || l[i] == '-' || l[i] == ' ') {
            assert(!table_char(l@[i as int]));
            return false;
        }
        i = i + 1;
    }
    true
}

/// The lines of a text.
fn lines_exec(v: &[char]) -> (r: Vec<Vec<char>>)
    ensures
        r@.len() == lines(v@).len(),
        forall|k: int| 0 <= k < r@.len() ==> (#[trigger] r@[k])@ == lines(v@)[k],
{
    let mut done: Vec<Vec<char>> = Vec::new();
    let mut cur: Vec<char> = Vec::new();
    let mut i: usize = 0;
    while i < v.len()
        invariant
            i <= v@.len(),
            done@.len() + 1 == split_on(v@.take(i as int), '\n').len(),
            forall|k: int|
                0 <= k < done@.len() ==> (#[trigger] done@[k])@ == split_on(v@.take(i as int), '\n')[k],
            cur@ == split_on(v@.take(i as int), '\n').last(),
        decreases v@.len() - i,
    {
        assert(v@.take(i + 1).drop_last() =~= v@.take(i as int));
        assert(v@.take(i + 1).last() == v@[i as int]);
        proof {
            lemma_split_nonempty(v@.take(i as int), '\n');
        }
        if v[i] == '\n' {
            let mut finished: Vec<char> = Vec::new();
            std::mem::swap(&mut finished, &mut cur);
            done.push(finished);
        } else {
            cur.push(v[i]);
        }
        i = i + 1;
    }
    assert(v@.take(i as int) =~= v@);
    let ghost p = split_on(v@, '\n');
    if cur.len() > 0 {
        done.push(cur);
        assert(lines(v@) == p);
    } else {
        assert(lines(v@) == p.drop_last());
    }
    done
}

/// Pango markup for a Markdown text: each line is trimmed; runs of table
/// lines are escaped inside a monospace span; other lines become headings,
/// list items or text, with links, bold and italic spans marked up; lines
/// end with a line feed, and the whole result is trimmed.
pub fn markdown_to_pango(md: &str) -> (r: String)
    ensures
        r@ == pango_markup(md@),
{
    let v = chars_of(md);
    let ls = lines_exec(v.as_slice());
    let ghost lv = lines(md@);
    let mut out: Vec<char> = Vec::new();
    let mut in_table = false;
    let mut k: usize = 0;
    while k < ls.len()
        invariant
            ls@.len() == lv.len(),
            forall|j: int| 0 <= j < ls@.len() ==> (#[trigger] ls@[j])@ == lv[j],
            k <= ls@.len(),
            (out@, in_table) == render(lv.take(k as int)),
        decreases ls@.len() - k,
    {
        assert(lv.take(k + 1).drop_last() =~= lv.take(k as int));
        assert(lv.take(k + 1).last() == lv[k as int]);
        let t = trim_chars(ls[k].as_slice());
        if is_table_line_exec(t.as_slice()) {
            if !in_table {
                push_str(&mut out, "<span font_family='monospace'>");
                in_table = true;
            }
            push_escaped(&mut out, t.as_slice());
            out.push('\n');
        } else {
            if in_table {
                push_str(&mut out, "</span>\n");
                in_table = false;
            }
            let b = block_exec(t.as_slice());
            let l1 = link_exec(b.as_slice());
            let l2 = bold_exec(l1.as_slice());
            let l3 = italic_exec(l2.as_slice());
            push_all(&mut out, l3.as_slice());
            out.push('\n');
        }
        k = k + 1;
    }
    assert(lv.take(k as int) =~= lv);
    if in_table {
        push_str(&mut out, "</span>\n");
    }
    let trimmed = trim_chars(out.as_slice());
    string_of(trimmed.as_slice())
}


/// A letter that names an inline tag: `b`, `i` or `u`.
pub open spec fn inline_tag_letter(c: char) -> bool {
    c == 'b' || c == 'i' || c == 'u'
}

/// The `<` at `i` opens an inline tag that `s` goes on to name: `<b`, `<i`,
/// `<u`, `</b`, `</i` or `</u`.
pub open spec fn names_inline_tag(s: Seq<char>, i: int) -> bool {
    &&& i + 1 < s.len()
    &&& inline_tag_letter(s[i + 1]) || (s[i + 1] == '/' && i + 2 < s.len() && inline_tag_letter(
        s[i + 2],
    ))
}

/// Every `<` in `s` opens an inline tag (bold, italic or underline).
pub open spec fn only_inline_tags(s: Seq<char>) -> bool {
    forall|i: int| 0 <= i < s.len() && #[trigger] s[i] == '<' ==> names_inline_tag(s, i)
}

/// `s` holds none of the characters that start or end an inline span or a
/// link: `*`, `[`, `]`, `(` and `)`.
pub open spec fn no_inline_syntax(s: Seq<char>) -> bool {
    forall|i: int|
        0 <= i < s.len() ==> {
            let c = #[trigger] s[i];
            c != '*' && c != '[' && c != ']' && c != '(' && c != ')'
        }
}

/// `s` holds no `<`.
pub open spec fn no_angle(s: Seq<char>) -> bool {
    forall|i: int| 0 <= i < s.len() ==> #[trigger] s[i] != '<'
}

/// Escaped text holds no `<`.
pub proof fn lemma_escaped_no_angle(s: Seq<char>)
    ensures
        no_angle(escaped(s)),
    decreases s.len(),
{
    if s.len() > 0 {
        lemma_escaped_no_angle(s.drop_last());
        let a = escaped(s.drop_last());
        let b = escape_char(s.last());
        assert forall|i: int| 0 <= i < b.len() implies #[trigger] b[i] != '<' by {
            let n = s.last() as u32;
            if is_escaped_control(n) && n >= 16 {
                assert(hex_digit(n / 16) != '<' && hex_digit(n % 16) != '<');
            }
        }
        assert forall|i: int| 0 <= i < escaped(s).len() implies #[trigger] escaped(s)[i] != '<' by {
            if i < a.len() {
                assert(escaped(s)[i] == a[i]);
            } else {
                assert(escaped(s)[i] == b[i - a.len()]);
            }
        }
    }
}

/// Text without `<` has only inline tags.
pub proof fn lemma_no_angle_only_inline_tags(s: Seq<char>)
    requires
        no_angle(s),
    ensures
        only_inline_tags(s),
{
}

/// Joining two texts with only inline tags gives such a text.
pub proof fn lemma_only_inline_tags_concat(u: Seq<char>, v: Seq<char>)
    requires
        only_inline_tags(u),
        only_inline_tags(v),
    ensures
        only_inline_tags(u + v),
{
    let w = u + v;
    assert forall|i: int| 0 <= i < w.len() && #[trigger] w[i] == '<' implies names_inline_tag(w, i) by {
        if i < u.len() {
            assert(w[i] == u[i]);
            assert(names_inline_tag(u, i));
            assert(w[i + 1] == u[i + 1]);
            if u[i + 1] == '/' {
                assert(w[i + 2] == u[i + 2]);
            }
        } else {
            let j = i - u.len();
            assert(w[i] == v[j]);
            assert(names_inline_tag(v, j));
            assert(w[i + 1] == v[j + 1]);
            if v[j + 1] == '/' {
                assert(w[i + 2] == v[j + 2]);
            }
        }
    }
}

/// The bold pass copies characters that are not `*`.
proof fn lemma_bold_copies(x: Seq<char>, lo: int, hi: int)
    requires
        0 <= lo <= hi <= x.len(),
        forall|i: int| lo <= i < hi ==> #[trigger] x[i] != '*',
    ensures
        bold_pass(x, lo) == x.subrange(lo, hi) + bold_pass(x, hi),
    decreases hi - lo,
{
    if lo < hi {
        if occurs_at(x, double_star(), lo) {
            assert(x.subrange(lo, lo + 2)[0] == x[lo]);
        }
        lemma_bold_copies(x, lo + 1, hi);
        assert(x.subrange(lo, hi) =~= seq![x[lo]] + x.subrange(lo + 1, hi));
    } else {
        assert(x.subrange(lo, hi) =~= Seq::<char>::empty());
    }
}

/// The italic pass copies characters that are not `*`.
proof fn lemma_italic_copies(x: Seq<char>, lo: int, hi: int)
    requires
        0 <= lo <= hi <= x.len(),
        forall|i: int| lo <= i < hi ==> #[trigger] x[i] != '*',
    ensures
        italic_pass(x, lo) == x.subrange(lo, hi) + italic_pass(x, hi),
    decreases hi - lo,
{
    if lo < hi {
        if occurs_at(x, single_star(), lo) {
            assert(x.subrange(lo, lo + 1)[0] == x[lo]);
        }
        lemma_italic_copies(x, lo + 1, hi);
        assert(x.subrange(lo, hi) =~= seq![x[lo]] + x.subrange(lo + 1, hi));
    } else {
        assert(x.subrange(lo, hi) =~= Seq::<char>::empty());
    }
}

/// The link pass copies characters that are not `[`.
proof fn lemma_link_copies(x: Seq<char>, lo: int, hi: int)
    requires
        0 <= lo <= hi <= x.len(),
        forall|i: int| lo <= i < hi ==> #[trigger] x[i] != '[',
    ensures
        link_pass(x, lo) == x.subrange(lo, hi) + link_pass(x, hi),
    decreases hi - lo,
{
    if lo < hi {
        lemma_link_copies(x, lo + 1, hi);
        assert(x.subrange(lo, hi) =~= seq![x[lo]] + x.subrange(lo + 1, hi));
    } else {
        assert(x.subrange(lo, hi) =~= Seq::<char>::empty());
    }
}

/// The bold pass over `a + y + c`, from a position in `y` on, rewrites the
/// rest of `y` into text with only inline tags and copies `c`, when `c` has
/// no inline syntax and `y` only inline tags.
proof fn lemma_bold_frame(a: Seq<char>, y: Seq<char>, c: Seq<char>, pos: int) -> (m: Seq<char>)
    requires
        no_inline_syntax(c),
        only_inline_tags(y),
        a.len() <= pos <= a.len() + y.len(),
    ensures
        bold_pass(a + y + c, pos) == m + c,
        only_inline_tags(m),
    decreases a.len() + y.len() - pos,
{
    let x = a + y + c;
    let end: int = (a.len() + y.len()) as int;
    assert forall|i: int| end <= i < x.len() implies #[trigger] x[i] == c[i - end] by {}
    if pos == end {
        lemma_bold_copies(x, end, x.len() as int);
        assert(x.subrange(end, x.len() as int) =~= c);
        assert(c =~= Seq::<char>::empty() + c);
        Seq::empty()
    } else {
        let j = pos - a.len();
        assert(x[pos] == y[j]);
        if span_at(x, double_star(), pos) {
            let k = span_close(x, double_star(), pos);
            assert(closes_at(x, double_star(), pos, k));
            assert(x.subrange(k, k + 2)[1] == x[k + 1]);
            assert(k + 1 < end) by {
                if k + 1 >= end {
                    assert(c[k + 1 - end] == '*');
                }
            }
            let rest = lemma_bold_frame(a, y, c, k + 2);
            let inner = escaped(x.subrange(pos + 2, k));
            lemma_escaped_no_angle(x.subrange(pos + 2, k));
            let open = seq!['<', 'b', '>'];
            let close = seq!['<', '/', 'b', '>'];
            lemma_only_inline_tags_concat(open, inner);
            lemma_only_inline_tags_concat(open + inner, close);
            lemma_only_inline_tags_concat(open + inner + close, rest);
            assert(bold_pass(x, pos) == open + inner + close + bold_pass(x, k + 2));
            assert(open + inner + close + (rest + c) =~= (open + inner + close + rest) + c);
            open + inner + close + rest
        } else if y[j] != '<' {
            let rest = lemma_bold_frame(a, y, c, pos + 1);
            assert(seq![y[j]] + (rest + c) =~= (seq![y[j]] + rest) + c);
            lemma_only_inline_tags_concat(seq![y[j]], rest);
            seq![y[j]] + rest
        } else {
            assert(names_inline_tag(y, j));
            assert(x[pos + 1] == y[j + 1]);
            if inline_tag_letter(y[j + 1]) {
                lemma_bold_copies(x, pos + 1, pos + 2);
                let rest = lemma_bold_frame(a, y, c, pos + 2);
                let head = seq!['<', y[j + 1]];
                assert(x.subrange(pos + 1, pos + 2) =~= seq![y[j + 1]]);
                assert(head + (rest + c) =~= (head + rest) + c);
                assert(seq![x[pos]] + (seq![y[j + 1]] + bold_pass(x, pos + 2)) =~= head + bold_pass(x, pos + 2));
                lemma_only_inline_tags_concat(head, rest);
                head + rest
            } else {
                assert(x[pos + 2] == y[j + 2]);
                lemma_bold_copies(x, pos + 1, pos + 3);
                let rest = lemma_bold_frame(a, y, c, pos + 3);
                let head = seq!['<', '/', y[j + 2]];
                assert(x.subrange(pos + 1, pos + 3) =~= seq!['/', y[j + 2]]);
                assert(head + (rest + c) =~= (head + rest) + c);
                assert(seq![x[pos]] + (seq!['/', y[j + 2]] + bold_pass(x, pos + 3)) =~= head + bold_pass(x, pos + 3));
                lemma_only_inline_tags_concat(head, rest);
                head + rest
            }
        }
    }
}

/// A stretch of text with only inline tags that ends in `*` keeps only
/// inline tags when cut there.
proof fn lemma_only_inline_tags_cut(y: Seq<char>, lo: int, hi: int)
    requires
        only_inline_tags(y),
        0 <= lo < hi <= y.len(),
        y[hi - 1] == '*',
    ensures
        only_inline_tags(y.subrange(lo, hi)),
{
    let w = y.subrange(lo, hi);
    assert forall|i: int| 0 <= i < w.len() && #[trigger] w[i] == '<' implies names_inline_tag(w, i) by {
        assert(w[i] == y[lo + i]);
        assert(names_inline_tag(y, lo + i));
        assert(lo + i + 1 < hi);
        assert(w[i + 1] == y[lo + i + 1]);
        if y[lo + i + 1] == '/' {
            assert(lo + i + 2 < hi);
            assert(w[i + 2] == y[lo + i + 2]);
        }
    }
}

/// The italic pass over `a + y + c`, from a position in `y` on (see
/// [`lemma_bold_frame`]).
proof fn lemma_italic_frame(a: Seq<char>, y: Seq<char>, c: Seq<char>, pos: int) -> (m: Seq<char>)
    requires
        no_inline_syntax(c),
        only_inline_tags(y),
        a.len() <= pos <= a.len() + y.len(),
    ensures
        italic_pass(a + y + c, pos) == m + c,
        only_inline_tags(m),
    decreases a.len() + y.len() - pos,
{
    let x = a + y + c;
    let end: int = (a.len() + y.len()) as int;
    assert forall|i: int| end <= i < x.len() implies #[trigger] x[i] == c[i - end] by {}
    if pos == end {
        lemma_italic_copies(x, end, x.len() as int);
        assert(x.subrange(end, x.len() as int) =~= c);
        assert(c =~= Seq::<char>::empty() + c);
        Seq::empty()
    } else {
        let j = pos - a.len();
        assert(x[pos] == y[j]);
        if span_at(x, single_star(), pos) {
            let k = span_close(x, single_star(), pos);
            assert(closes_at(x, single_star(), pos, k));
            assert(x.subrange(k, k + 1)[0] == x[k]);
            assert(k < end) by {
                if k >= end {
                    assert(c[k - end] == '*');
                }
            }
            let rest = lemma_italic_frame(a, y, c, k + 1);
            let text = x.subrange(pos + 1, k);
            let piece = if contains_text(text, bold_open()) {
                x.subrange(pos, k + 1)
            } else {
                seq!['<', 'i', '>'] + escaped(text) + seq!['<', '/', 'i', '>']
            };
            if contains_text(text, bold_open()) {
                assert(y[k - a.len()] == x[k]);
                lemma_only_inline_tags_cut(y, j, k - a.len() + 1);
                assert(x.subrange(pos, k + 1) =~= y.subrange(j, k - a.len() + 1));
            } else {
                lemma_escaped_no_angle(text);
                lemma_only_inline_tags_concat(seq!['<', 'i', '>'], escaped(text));
                lemma_only_inline_tags_concat(seq!['<', 'i', '>'] + escaped(text), seq!['<', '/', 'i', '>']);
            }
            lemma_only_inline_tags_concat(piece, rest);
            assert(italic_pass(x, pos) == piece + italic_pass(x, k + 1));
            assert(piece + (rest + c) =~= (piece + rest) + c);
            piece + rest
        } else if y[j] != '<' {
            let rest = lemma_italic_frame(a, y, c, pos + 1);
            assert(seq![y[j]] + (rest + c) =~= (seq![y[j]] + rest) + c);
            lemma_only_inline_tags_concat(seq![y[j]], rest);
            seq![y[j]] + rest
        } else {
            assert(names_inline_tag(y, j));
            assert(x[pos + 1] == y[j + 1]);
            if inline_tag_letter(y[j + 1]) {
                lemma_italic_copies(x, pos + 1, pos + 2);
                let rest = lemma_italic_frame(a, y, c, pos + 2);
                let head = seq!['<', y[j + 1]];
                assert(x.subrange(pos + 1, pos + 2) =~= seq![y[j + 1]]);
                assert(head + (rest + c) =~= (head + rest) + c);
                assert(seq![x[pos]] + (seq![y[j + 1]] + italic_pass(x, pos + 2)) =~= head + italic_pass(x, pos + 2));
                lemma_only_inline_tags_concat(head, rest);
                head + rest
            } else {
                assert(x[pos + 2] == y[j + 2]);
                lemma_italic_copies(x, pos + 1, pos + 3);
                let rest = lemma_italic_frame(a, y, c, pos + 3);
                let head = seq!['<', '/', y[j + 2]];
                assert(x.subrange(pos + 1, pos + 3) =~= seq!['/', y[j + 2]]);
                assert(head + (rest + c) =~= (head + rest) + c);
                assert(seq![x[pos]] + (seq!['/', y[j + 2]] + italic_pass(x, pos + 3)) =~= head + italic_pass(x, pos + 3));
                lemma_only_inline_tags_concat(head, rest);
                head + rest
            }
        }
    }
}

/// The link pass over `a + y + c`, from a position in `y` on (see
/// [`lemma_bold_frame`]).
proof fn lemma_link_frame(a: Seq<char>, y: Seq<char>, c: Seq<char>, pos: int) -> (m: Seq<char>)
    requires
        no_inline_syntax(c),
        only_inline_tags(y),
        a.len() <= pos <= a.len() + y.len(),
    ensures
        link_pass(a + y + c, pos) == m + c,
        only_inline_tags(m),
    decreases a.len() + y.len() - pos,
{
    let x = a + y + c;
    let end: int = (a.len() + y.len()) as int;
    assert forall|i: int| end <= i < x.len() implies #[trigger] x[i] == c[i - end] by {}
    if pos == end {
        lemma_link_copies(x, end, x.len() as int);
        assert(x.subrange(end, x.len() as int) =~= c);
        assert(c =~= Seq::<char>::empty() + c);
        Seq::empty()
    } else {
        let j = pos - a.len();
        assert(x[pos] == y[j]);
        if link_at(x, pos) {
            let q = choose|q: int| link_middle_at(x, pos, q) && exists|r: int| link_close_at(x, q, r);
            let r = choose|r: int| link_close_at(x, q, r);
            assert(link_middle_at(x, pos, q));
            assert(link_close_at(x, q, r));
            assert(x.subrange(r, r + 1)[0] == x[r]);
            assert(r < end) by {
                if r >= end {
                    assert(c[r - end] == ')');
                }
            }
            let rest = lemma_link_frame(a, y, c, r + 1);
            let t1 = escaped(x.subrange(pos + 1, q));
            let t2 = escaped(x.subrange(q + 2, r));
            lemma_escaped_no_angle(x.subrange(pos + 1, q));
            lemma_escaped_no_angle(x.subrange(q + 2, r));
            let o = seq!['<', 'u', '>'];
            let mid = seq!['<', '/', 'u', '>', ' ', '('];
            let cl = seq![')'];
            lemma_only_inline_tags_concat(o, t1);
            lemma_only_inline_tags_concat(o + t1, mid);
            lemma_only_inline_tags_concat(o + t1 + mid, t2);
            lemma_only_inline_tags_concat(o + t1 + mid + t2, cl);
            let piece = o + t1 + mid + t2 + cl;
            lemma_only_inline_tags_concat(piece, rest);
            assert(link_pass(x, pos) == piece + link_pass(x, r + 1));
            assert(piece + (rest + c) =~= (piece + rest) + c);
            piece + rest
        } else if y[j] != '<' {
            let rest = lemma_link_frame(a, y, c, pos + 1);
            assert(seq![y[j]] + (rest + c) =~= (seq![y[j]] + rest) + c);
            lemma_only_inline_tags_concat(seq![y[j]], rest);
            seq![y[j]] + rest
        } else {
            assert(names_inline_tag(y, j));
            assert(x[pos + 1] == y[j + 1]);
            if inline_tag_letter(y[j + 1]) {
                lemma_link_copies(x, pos + 1, pos + 2);
                let rest = lemma_link_frame(a, y, c, pos + 2);
                let head = seq!['<', y[j + 1]];
                assert(x.subrange(pos + 1, pos + 2) =~= seq![y[j + 1]]);
                assert(head + (rest + c) =~= (head + rest) + c);
                assert(seq![x[pos]] + (seq![y[j + 1]] + link_pass(x, pos + 2)) =~= head + link_pass(x, pos + 2));
                lemma_only_inline_tags_concat(head, rest);
                head + rest
            } else {
                assert(x[pos + 2] == y[j + 2]);
                lemma_link_copies(x, pos + 1, pos + 3);
                let rest = lemma_link_frame(a, y, c, pos + 3);
                let head = seq!['<', '/', y[j + 2]];
                assert(x.subrange(pos + 1, pos + 3) =~= seq!['/', y[j + 2]]);
                assert(head + (rest + c) =~= (head + rest) + c);
                assert(seq![x[pos]] + (seq!['/', y[j + 2]] + link_pass(x, pos + 3)) =~= head + link_pass(x, pos + 3));
                lemma_only_inline_tags_concat(head, rest);
                head + rest
            }
        }
    }
}

/// The inline markup of `a + y + c`, where `a` and `c` hold no inline syntax
/// and `y` only inline tags, is `a`, then text with only inline tags, then
/// `c`.
pub proof fn lemma_inline_markup_frame(a: Seq<char>, y: Seq<char>, c: Seq<char>) -> (m: Seq<char>)
    requires
        no_inline_syntax(a),
        no_inline_syntax(c),
        only_inline_tags(y),
    ensures
        inline_markup(a + y + c) == a + m + c,
        only_inline_tags(m),
{
    let x = a + y + c;
    lemma_link_copies(x, 0, a.len() as int);
    assert(x.subrange(0, a.len() as int) =~= a);
    let m1 = lemma_link_frame(a, y, c, a.len() as int);
    let x1 = a + m1 + c;
    assert(link_pass(x, 0) == x1);
    lemma_bold_copies(x1, 0, a.len() as int);
    assert(x1.subrange(0, a.len() as int) =~= a);
    let m2 = lemma_bold_frame(a, m1, c, a.len() as int);
    let x2 = a + m2 + c;
    assert(bold_pass(x1, 0) == x2);
    lemma_italic_copies(x2, 0, a.len() as int);
    assert(x2.subrange(0, a.len() as int) =~= a);
    let m3 = lemma_italic_frame(a, m2, c, a.len() as int);
    assert(italic_pass(x2, 0) == a + m3 + c);
    m3
}

} // verus!
