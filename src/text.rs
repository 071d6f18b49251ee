//! Line-level text helpers for card files.

use vstd::prelude::*;

verus! {

/// What `str::trim` returns for a text: the text without its leading and
/// trailing white space.
pub uninterp spec fn trimmed(s: Seq<char>) -> Seq<char>;

/// Relies on `str::trim`: its result depends on the characters alone.
#[verifier::external_body]
fn trim(s: &str) -> (r: String)
    ensures
        r@ == trimmed(s@),
{
    s.trim().to_string()
}

/// A trimmed line, or nothing when the line holds only white space.
pub open spec fn line_value(s: Seq<char>) -> Option<Seq<char>> {
    if trimmed(s).len() == 0 {
        None
    } else {
        Some(trimmed(s))
    }
}

/// Trims a line; a line left empty by trimming gives `None`.
pub fn trim_line(line: &str) -> (r: Option<String>)
    ensures
        r matches Some(t) ==> line_value(line@) == Some(t@),
        r is None ==> line_value(line@) is None,
{
    let t = trim(line);
    if t.as_str().is_empty() {
        None
    } else {
        Some(t)
    }
}

/// The lines of a text, split at each line feed. The text after the last line
/// feed forms a last line, empty where the text ends with one.
pub open spec fn split_lines(s: Seq<char>) -> Seq<Seq<char>>
    decreases s.len(),
{
    if s.len() == 0 {
        seq![Seq::<char>::empty()]
    } else {
        let p = split_lines(s.drop_last());
        if s.last() == '\n' {
            p.push(Seq::<char>::empty())
        } else {
            p.update(p.len() - 1, p.last().push(s.last()))
        }
    }
}

/// A text always splits into at least one line.
pub proof fn lemma_split_lines_nonempty(s: Seq<char>)
    ensures
        split_lines(s).len() >= 1,
    decreases s.len(),
{
    if s.len() > 0 {
        lemma_split_lines_nonempty(s.drop_last());
    }
}

/// Whether a text begins with a two-character tag such as `Q:`.
pub open spec fn has_tag(s: Seq<char>, tag: Seq<char>) -> bool {
    tag.len() <= s.len() && s.subrange(0, tag.len() as int) == tag
}

/// The value of a tagged field after one more line: where the trimmed line
/// carries `tag`, the trimmed text after the tag (`None` if that is empty);
/// otherwise the value before.
pub open spec fn tag_step(prev: Option<Seq<char>>, line: Seq<char>, tag: Seq<char>) -> Option<
    Seq<char>,
> {
    let l = trimmed(line);
    if l.len() > 0 && has_tag(l, tag) {
        line_value(l.subrange(tag.len() as int, l.len() as int))
    } else {
        prev
    }
}

/// The value that the last line tagged with `tag` gives, once both the line and
/// the text after the tag are trimmed; `None` where no line carries the tag, or
/// where the last one that does has nothing after it.
pub open spec fn last_tagged(lines: Seq<Seq<char>>, tag: Seq<char>) -> Option<Seq<char>>
    decreases lines.len(),
{
    if lines.len() == 0 {
        None
    } else {
        tag_step(last_tagged(lines.drop_last(), tag), lines.last(), tag)
    }
}

/// The text after a two-character tag `a` `b` at the start of `s`, or `None`
/// where `s` does not begin with it.
pub fn strip_tag(s: &str, a: char, b: char) -> (r: Option<&str>)
    ensures
        r matches Some(t) ==> has_tag(s@, seq![a, b]) && t@ == s@.subrange(2, s@.len() as int),
        r is None ==> !has_tag(s@, seq![a, b]),
{
    let n = s.unicode_len();
    if n >= 2 && s.get_char(0) == a && s.get_char(1) == b {
        assert(s@.subrange(0, 2) =~= seq![a, b]);
        Some(s.substring_char(2, n))
    } else {
        proof {
            if has_tag(s@, seq![a, b]) {
                assert(s@.subrange(0, 2)[0] == a);
                assert(s@.subrange(0, 2)[1] == b);
            }
        }
        None
    }
}

} // verus!
