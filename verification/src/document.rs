//! The Markdown file format of recipes and knowledge-base entries: YAML front
//! matter between two `---` lines, then the body. Also the names of the data
//! files.

use vstd::prelude::*;
use crate::model::CookbookError;
use crate::text::{
    chars_of, find_from, is_space, lemma_trim_leading_space, occurs_at, push_char, string_of, trim,
    trim_chars, trim_end, trim_start,
};

verus! {

/// The delimiter of the front matter.
pub open spec fn dashes() -> Seq<char> {
    seq!['-', '-', '-']
}

/// `i` is the first position at or after `from` where `needle` occurs.
pub open spec fn first_at(hay: Seq<char>, needle: Seq<char>, from: int, i: int) -> bool {
    &&& from <= i
    &&& occurs_at(hay, needle, i)
    &&& forall|j: int| from <= j < i ==> !occurs_at(hay, needle, j)
}

/// `i` and `j` are the positions of the first `---` and of the next one.
pub open spec fn delimited(s: Seq<char>, i: int, j: int) -> bool {
    first_at(s, dashes(), 0, i) && first_at(s, dashes(), i + 3, j)
}

/// The front matter and the body of a document, each trimmed: the text
/// between the first `---` and the next one, and the text after that
/// (`str::splitn(3, "---")`). None when there are fewer than two `---`.
pub open spec fn front_matter(s: Seq<char>) -> Option<(Seq<char>, Seq<char>)> {
    if exists|i: int, j: int| delimited(s, i, j) {
        let (i, j) = choose|i: int, j: int|
            delimited(s, i, j);
        Some((trim(s.subrange(i + 3, j)), trim(s.subrange(j + 3, s.len() as int))))
    } else {
        None
    }
}

/// The first occurrence at or after `from` is unique.
pub proof fn lemma_first_at_unique(hay: Seq<char>, needle: Seq<char>, from: int, i: int, k: int)
    requires
        first_at(hay, needle, from, i),
        first_at(hay, needle, from, k),
    ensures
        i == k,
{
}

/// The three-character delimiter as a vector.
fn dash_chars() -> (v: Vec<char>)
    ensures
        v@ == dashes(),
{
    let mut v: Vec<char> = Vec::new();
    v.push('-');
    v.push('-');
    v.push('-');
    assert(v@ =~= dashes());
    v
}

/// The characters of `v` from `a` to `b`.
fn slice_chars(v: &[char], a: usize, b: usize) -> (r: Vec<char>)
    requires
        a <= b <= v@.len(),
    ensures
        r@ == v@.subrange(a as int, b as int),
{
    let mut r: Vec<char> = Vec::new();
    let mut i: usize = a;
    while i < b
        invariant
            a <= i <= b <= v@.len(),
            r@ == v@.subrange(a as int, i as int),
        decreases b - i,
    {
        r.push(v[i]);
        i = i + 1;
        assert(r@ =~= v@.subrange(a as int, i as int));
    }
    r
}

/// Splits a document into its trimmed front matter and trimmed body. Fails
/// with a Markdown error when the document has fewer than two `---`.
pub fn split_front_matter(content: &str) -> (r: Result<(String, String), CookbookError>)
    ensures
        match r {
            Ok((front, body)) => front_matter(content@) == Some((front@, body@)),
            Err(e) => front_matter(content@) is None && (e matches CookbookError::MarkdownError(m)
                && m@ == "Invalid markdown format: missing frontmatter delimiters"@),
        },
{
    let v = chars_of(content);
    let d = dash_chars();
    let first = find_from(v.as_slice(), d.as_slice(), 0);
    let i = match first {
        Some(i) => i,
        None => {
            assert(!exists|i: int, j: int|
                delimited(content@, i, j));
            return Err(
                CookbookError::MarkdownError(
                    String::from_str("Invalid markdown format: missing frontmatter delimiters"),
                ),
            );
        },
    };
    assert(first_at(content@, dashes(), 0, i as int));
    assert(i + 3 <= v@.len());
    assert(v@.len() == v.len());
    let second = find_from(v.as_slice(), d.as_slice(), i + 3);
    let j = match second {
        Some(j) => j,
        None => {
            assert forall|i2: int, j2: int|
                !(delimited(content@, i2, j2)) by {
                if first_at(content@, dashes(), 0, i2) {
                    lemma_first_at_unique(content@, dashes(), 0, i as int, i2);
                }
            }
            return Err(
                CookbookError::MarkdownError(
                    String::from_str("Invalid markdown format: missing frontmatter delimiters"),
                ),
            );
        },
    };
    assert(first_at(content@, dashes(), i + 3, j as int));
    assert(j + 3 <= v@.len());
    assert(delimited(content@, i as int, j as int));
    let front_raw = slice_chars(v.as_slice(), i + 3, j);
    let body_raw = slice_chars(v.as_slice(), j + 3, v.len());
    let front = trim_chars(front_raw.as_slice());
    let body = trim_chars(body_raw.as_slice());
    proof {
        let (i2, j2) = choose|i2: int, j2: int|
            delimited(content@, i2, j2);
        lemma_first_at_unique(content@, dashes(), 0, i as int, i2);
        lemma_first_at_unique(content@, dashes(), i + 3, j as int, j2);
    }
    Ok((string_of(front.as_slice()), string_of(body.as_slice())))
}

/// A document made of front matter and a body, as the files store it.
pub open spec fn document(front: Seq<char>, body: Seq<char>) -> Seq<char> {
    dashes().push('\n') + front + dashes().push('\n') + body
}

/// Writes a document: `---`, a line break, the front matter, `---`, a line
/// break, the body.
pub fn compose_document(front: &str, body: &str) -> (s: String)
    ensures
        s@ == document(front@, body@),
{
    let mut s = String::from_str("---\n");
    proof {
        reveal_strlit("---\n");
        reveal_strlit("---\n");
    }
    assert(s@ =~= dashes().push('\n'));
    s.append(front);
    let mut t = String::from_str("---\n");
    assert(t@ =~= dashes().push('\n'));
    s.append(t.as_str());
    s.append(body);
    s
}

/// What a read gives back of a write: reading the document written from
/// front matter and a body gives both back, trimmed, as long as the front
/// matter holds no `---` and does not end with `-`.
pub proof fn lemma_document_roundtrip(front: Seq<char>, body: Seq<char>)
    requires
        forall|k: int| !occurs_at(front, dashes(), k),
        front.len() == 0 || front.last() != '-',
    ensures
        front_matter(document(front, body)) == Some((trim(front), trim(body))),
{
    let s = document(front, body);
    let n = front.len() as int;
    let j = 4 + n;
    assert(s.subrange(0, 3) =~= dashes());
    assert(first_at(s, dashes(), 0, 0));
    assert(s.subrange(j, j + 3) =~= dashes());
    assert forall|p: int| 3 <= p < j implies !occurs_at(s, dashes(), p) by {
        if occurs_at(s, dashes(), p) {
            if p == 3 {
                assert(s[3] == '\n');
                assert(s.subrange(p, p + 3)[0] == s[3]);
            } else if p + 3 <= j {
                assert(front.subrange(p - 4, p - 1) =~= s.subrange(p, p + 3));
                assert(occurs_at(front, dashes(), p - 4));
            } else {
                assert(s[j - 1] == front.last());
                assert(s.subrange(p, p + 3)[j - 1 - p] == s[j - 1]);
            }
        }
    }
    assert(first_at(s, dashes(), 3, j));
    assert(delimited(s, 0, j));
    let (i2, j2) = choose|i2: int, j2: int|
        delimited(s, i2, j2);
    lemma_first_at_unique(s, dashes(), 0, 0, i2);
    lemma_first_at_unique(s, dashes(), 3, j, j2);
    assert(s.subrange(3, j) =~= seq!['\n'] + front);
    assert(s.subrange(j + 3, s.len() as int) =~= seq!['\n'] + body);
    lemma_trim_leading_space('\n', front);
    lemma_trim_leading_space('\n', body);
}

/// `s` with every space replaced by an underscore.
pub open spec fn underscored(s: Seq<char>) -> Seq<char> {
    Seq::new(s.len(), |i: int| if s[i] == ' ' { '_' } else { s[i] })
}

/// `s` with every space replaced by an underscore (`str::replace(" ", "_")`).
pub fn underscore_spaces(s: &str) -> (r: String)
    ensures
        r@ == underscored(s@),
{
    let v = chars_of(s);
    let mut r = String::new();
    let mut i: usize = 0;
    while i < v.len()
        invariant
            v@ == s@,
            i <= v@.len(),
            r@ =~= underscored(s@).take(i as int),
        decreases v@.len() - i,
    {
        let c = if v[i] == ' ' {
            '_'
        } else {
            v[i]
        };
        push_char(&mut r, c);
        i = i + 1;
    }
    assert(underscored(s@).take(i as int) =~= underscored(s@));
    r
}

/// The file name of an ingredient: its name with spaces as underscores, then
/// `.yaml`.
pub fn ingredient_file_name(name: &str) -> (r: String)
    ensures
        r@ == underscored(name@) + ".yaml"@,
{
    let mut r = underscore_spaces(name);
    r.append(".yaml");
    r
}

/// The file name of a recipe: its title with spaces as underscores, then
/// `.md`.
pub fn recipe_file_name(title: &str) -> (r: String)
    ensures
        r@ == underscored(title@) + ".md"@,
{
    let mut r = underscore_spaces(title);
    r.append(".md");
    r
}

} // verus!
