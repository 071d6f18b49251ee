//! Flashcards and the parser that reads one from a card file.

use vstd::prelude::*;
use vstd::string::StringSliceAdditionalSpecFns;
use vstd::utf8::encode_utf8;
use crate::text::{
    has_tag, last_tagged, lemma_split_lines_nonempty, split_lines, strip_tag,
    tag_step, trim_line, trimmed,
};

verus! {

/// What a card asks.
#[derive(Clone, Debug, PartialEq, Eq)]
pub enum CardContent {
    /// A question with its answer.
    Basic { question: String, answer: String },
    /// A text with a hidden part between `[` and `]`; `start` and `end` are the
    /// byte offsets of those two brackets in `text`.
    Cloze { text: String, start: usize, end: usize },
}

/// The model of a card's content: its texts as characters.
pub ghost enum CardContentView {
    Basic { question: Seq<char>, answer: Seq<char> },
    Cloze { text: Seq<char>, start: usize, end: usize },
}

impl View for CardContent {
    type V = CardContentView;

    open spec fn view(&self) -> CardContentView {
        match self {
            CardContent::Basic { question, answer } => CardContentView::Basic {
                question: question@,
                answer: answer@,
            },
            CardContent::Cloze { text, start, end } => CardContentView::Cloze {
                text: text@,
                start: *start,
                end: *end,
            },
        }
    }
}

/// A card read from a file.
#[derive(Clone, Debug, PartialEq, Eq)]
pub struct Card {
    pub file_path: String,
    pub content: CardContent,
}

/// Why a path or a file's text gives no card.
#[derive(Clone, Copy, Debug, PartialEq, Eq, Structural)]
pub enum CardError {
    /// The path is empty once trimmed.
    EmptyPath,
    /// The path names a directory.
    Directory,
    /// The path has no `md` extension.
    NotMarkdown,
    /// The cloze line holds no bracketed text.
    MissingClozeText,
    /// The text has neither a question and an answer nor a cloze line.
    Unrecognized,
}

/// The byte of `[`.
pub const OPEN_BRACKET: u8 = 91;

/// The byte of `]`.
pub const CLOSE_BRACKET: u8 = 93;

/// The bracket pairs of a byte string, scanning left to right: a `[` opens a
/// pair when none is open, and a `]` closes the open one. Also returns where a
/// pair is still open at the end.
pub open spec fn cloze_scan(b: Seq<u8>) -> (Seq<(usize, usize)>, Option<usize>)
    decreases b.len(),
{
    if b.len() == 0 {
        (seq![], None)
    } else {
        let (ranges, open) = cloze_scan(b.drop_last());
        let i = (b.len() - 1) as usize;
        if b.last() == OPEN_BRACKET && open is None {
            (ranges, Some(i))
        } else if b.last() == CLOSE_BRACKET && open is Some {
            (ranges.push((open.unwrap(), i)), None)
        } else {
            (ranges, open)
        }
    }
}

/// The closed bracket pairs of a text, as byte offsets of `[` and `]`.
pub open spec fn cloze_ranges(b: Seq<u8>) -> Seq<(usize, usize)> {
    cloze_scan(b).0
}

/// Finds the bracket pairs of a cloze text, as byte offsets.
pub fn find_cloze_ranges(text: &str) -> (r: Vec<(usize, usize)>)
    ensures
        r@ == cloze_ranges(text.spec_bytes()),
{
    let b = text.as_bytes();
    let mut ranges: Vec<(usize, usize)> = Vec::new();
    let mut start: Option<usize> = None;
    let mut i: usize = 0;
    while i < b.len()
        invariant
            i <= b@.len(),
            b@ == text.spec_bytes(),
            (ranges@, start) == cloze_scan(b@.subrange(0, i as int)),
        decreases b@.len() - i,
    {
        let ghost pre = b@.subrange(0, i as int);
        assert(b@.subrange(0, i + 1).drop_last() =~= pre);
        let x = b[i];
        if x == OPEN_BRACKET && start.is_none() {
            start = Some(i);
        } else if x == CLOSE_BRACKET && start.is_some() {
            let s = start.unwrap();
            ranges.push((s, i));
            start = None;
        }
        i = i + 1;
    }
    assert(b@.subrange(0, b@.len() as int) =~= b@);
    ranges
}

/// The lowercase form of an ASCII letter; other characters stay as they are.
pub open spec fn ascii_lower(c: char) -> char {
    if 'A' <= c && c <= 'Z' {
        (((c as u8) + 32) as u8) as char
    } else {
        c
    }
}

/// Whether a text is `md`, in any mix of ASCII case.
pub open spec fn is_md(e: Seq<char>) -> bool {
    e.len() == 2 && ascii_lower(e[0]) == 'm' && ascii_lower(e[1]) == 'd'
}

fn lower_char(c: char) -> (r: char)
    ensures
        r == ascii_lower(c),
{
    if 'A' <= c && c <= 'Z' {
        (((c as u8) + 32) as u8) as char
    } else {
        c
    }
}

/// What `Path::extension` gives for a path: the text of its file name after the
/// final `.`, if there is one.
pub uninterp spec fn extension_of(p: Seq<char>) -> Option<Seq<char>>;

/// Relies on `std::path::Path::extension`, for a path given as text.
#[verifier::external_body]
fn path_extension(p: &str) -> (r: Option<String>)
    ensures
        r matches Some(e) ==> extension_of(p@) == Some(e@),
        r is None ==> extension_of(p@) is None,
{
    match std::path::Path::new(p).extension() {
        Some(e) => match e.to_str() {
            Some(t) => Some(t.to_string()),
            None => None,
        },
        None => None,
    }
}

/// Whether the extension of a path is markdown's.
pub open spec fn markdown_path(p: Seq<char>) -> bool {
    extension_of(p) matches Some(e) && is_md(e)
}

/// Whether an extension, once found, is `md` in any ASCII case.
pub fn is_md_extension(e: &str) -> (r: bool)
    ensures
        r == is_md(e@),
{
    if e.unicode_len() != 2 {
        return false;
    }
    lower_char(e.get_char(0)) == 'm' && lower_char(e.get_char(1)) == 'd'
}

/// Whether a path names a markdown file, judged by its extension alone.
pub fn is_markdown(path: &str) -> (r: bool)
    ensures
        r == markdown_path(path@),
{
    match path_extension(path) {
        Some(e) => is_md_extension(e.as_str()),
        None => false,
    }
}

/// Checks a path given for a card. `is_dir` tells whether the trimmed path
/// names a directory. On success the trimmed path is returned.
pub fn validate_file_can_be_card(path: String, is_dir: bool) -> (r: Result<String, CardError>)
    ensures
        trimmed(path@).len() == 0 <==> r == Err::<String, CardError>(CardError::EmptyPath),
        trimmed(path@).len() > 0 && is_dir <==> r == Err::<String, CardError>(
            CardError::Directory,
        ),
        trimmed(path@).len() > 0 && !is_dir && !markdown_path(trimmed(path@)) <==> r == Err::<
            String,
            CardError,
        >(CardError::NotMarkdown),
        r is Ok <==> trimmed(path@).len() > 0 && !is_dir && markdown_path(trimmed(path@)),
        r matches Ok(p) ==> p@ == trimmed(path@),
{
    let p = match trim_line(path.as_str()) {
        Some(p) => p,
        None => return Err(CardError::EmptyPath),
    };
    if is_dir {
        return Err(CardError::Directory);
    }
    if !is_markdown(p.as_str()) {
        return Err(CardError::NotMarkdown);
    }
    Ok(p)
}

/// The tag of a question line.
pub open spec fn question_tag() -> Seq<char> {
    seq!['Q', ':']
}

/// The tag of an answer line.
pub open spec fn answer_tag() -> Seq<char> {
    seq!['A', ':']
}

/// The tag of a cloze line.
pub open spec fn cloze_tag() -> Seq<char> {
    seq!['C', ':']
}

/// The content that a card file's text describes. A question and an answer
/// make a basic card; failing that, a cloze line makes a cloze card, whose
/// hidden part is its first bracket pair. Where a tag occurs on several lines,
/// the last one counts.
pub open spec fn parse_card(contents: Seq<char>) -> Result<CardContentView, CardError> {
    let lines = split_lines(contents);
    let q = last_tagged(lines, question_tag());
    let a = last_tagged(lines, answer_tag());
    let c = last_tagged(lines, cloze_tag());
    if q is Some && a is Some {
        Ok(CardContentView::Basic { question: q.unwrap(), answer: a.unwrap() })
    } else if c is Some {
        let ranges = cloze_ranges(encode_utf8(c.unwrap()));
        if ranges.len() == 0 {
            Err(CardError::MissingClozeText)
        } else {
            Ok(CardContentView::Cloze { text: c.unwrap(), start: ranges[0].0, end: ranges[0].1 })
        }
    } else {
        Err(CardError::Unrecognized)
    }
}

/// The characters of an optional text.
pub open spec fn opt_view(o: Option<String>) -> Option<Seq<char>> {
    match o {
        Some(s) => Some(s@),
        None => None,
    }
}

/// Two different tags never both begin one text.
proof fn lemma_tags_exclusive(l: Seq<char>)
    ensures
        !(has_tag(l, question_tag()) && has_tag(l, answer_tag())),
        !(has_tag(l, question_tag()) && has_tag(l, cloze_tag())),
        !(has_tag(l, answer_tag()) && has_tag(l, cloze_tag())),
{
    if l.len() >= 2 {
        assert(l.subrange(0, 2)[0] == l[0]);
    }
}

/// Folds one line of a card file into the three tagged fields.
fn read_line(
    line: &str,
    question: &mut Option<String>,
    answer: &mut Option<String>,
    cloze: &mut Option<String>,
)
    ensures
        opt_view(*final(question)) == tag_step(opt_view(*old(question)), line@, question_tag()),
        opt_view(*final(answer)) == tag_step(opt_view(*old(answer)), line@, answer_tag()),
        opt_view(*final(cloze)) == tag_step(opt_view(*old(cloze)), line@, cloze_tag()),
{
    let t = match trim_line(line) {
        Some(t) => t,
        None => return,
    };
    proof {
        lemma_tags_exclusive(t@);
        assert(question_tag() =~= seq!['Q', ':']);
        assert(answer_tag() =~= seq!['A', ':']);
        assert(cloze_tag() =~= seq!['C', ':']);
    }
    if let Some(rest) = strip_tag(t.as_str(), 'Q', ':') {
        *question = trim_line(rest);
    } else if let Some(rest) = strip_tag(t.as_str(), 'A', ':') {
        *answer = trim_line(rest);
    } else if let Some(rest) = strip_tag(t.as_str(), 'C', ':') {
        *cloze = trim_line(rest);
    }
}

/// Reads a card from the text of the file at `card_path`.
pub fn content_to_card(card_path: &str, contents: &str) -> (r: Result<Card, CardError>)
    ensures
        match r {
            Ok(card) => card.file_path@ == card_path@ && parse_card(contents@) == Ok::<
                CardContentView,
                CardError,
            >(card.content@),
            Err(e) => parse_card(contents@) == Err::<CardContentView, CardError>(e),
        },
{
    let mut question: Option<String> = None;
    let mut answer: Option<String> = None;
    let mut cloze: Option<String> = None;
    let n = contents.unicode_len();
    let mut line_start: usize = 0;
    let mut i: usize = 0;
    proof {
        assert(contents@.subrange(0, 0) =~= Seq::<char>::empty());
    }
    while i < n
        invariant
            n == contents@.len(),
            line_start <= i <= n,
            split_lines(contents@.subrange(0, i as int)).last() =~= contents@.subrange(
                line_start as int,
                i as int,
            ),
            opt_view(question) == last_tagged(
                split_lines(contents@.subrange(0, i as int)).drop_last(),
                question_tag(),
            ),
            opt_view(answer) == last_tagged(
                split_lines(contents@.subrange(0, i as int)).drop_last(),
                answer_tag(),
            ),
            opt_view(cloze) == last_tagged(
                split_lines(contents@.subrange(0, i as int)).drop_last(),
                cloze_tag(),
            ),
        decreases n - i,
    {
        let ghost pre = contents@.subrange(0, i as int);
        let ghost next = contents@.subrange(0, i + 1);
        proof {
            assert(next.drop_last() =~= pre);
            lemma_split_lines_nonempty(pre);
        }
        let ch = contents.get_char(i);
        if ch == '\n' {
            let line = contents.substring_char(line_start, i);
            read_line(line, &mut question, &mut answer, &mut cloze);
            line_start = i + 1;
            proof {
                let p = split_lines(pre);
                assert(split_lines(next) =~= p.push(Seq::<char>::empty()));
                assert(split_lines(next).drop_last() =~= p);
                assert(p =~= p.drop_last().push(p.last()));
                assert(contents@.subrange(line_start as int, i + 1) =~= Seq::<char>::empty());
            }
        } else {
            proof {
                let p = split_lines(pre);
                assert(split_lines(next).drop_last() =~= p.drop_last());
                assert(contents@.subrange(line_start as int, i + 1) =~= contents@.subrange(
                    line_start as int,
                    i as int,
                ).push(ch));
            }
        }
        i = i + 1;
    }
    let line = contents.substring_char(line_start, n);
    read_line(line, &mut question, &mut answer, &mut cloze);
    proof {
        assert(contents@.subrange(0, n as int) =~= contents@);
        let p = split_lines(contents@);
        lemma_split_lines_nonempty(contents@);
        assert(p =~= p.drop_last().push(p.last()));
    }
    if question.is_some() && answer.is_some() {
        let content = CardContent::Basic { question: question.unwrap(), answer: answer.unwrap() };
        return Ok(Card { file_path: card_path.to_owned(), content });
    }
    match cloze {
        Some(c) => {
            let ranges = find_cloze_ranges(c.as_str());
            if ranges.len() == 0 {
                return Err(CardError::MissingClozeText);
            }
            let start = ranges[0].0;
            let end = ranges[0].1;
            let content = CardContent::Cloze { text: c, start, end };
            Ok(Card { file_path: card_path.to_owned(), content })
        },
        None => Err(CardError::Unrecognized),
    }
}

} // verus!
