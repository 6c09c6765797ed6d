//! The directive line that a text may carry near its top: a header token
//! and, after it, a comma-separated list of `key` or `key:kind` entries.
use crate::text::chars_of;
use crate::text::find;
use crate::text::find_char;
use crate::text::find_text;
use crate::text::first_index;
use crate::text::lemma_find_from;
use crate::text::slice;
use crate::text::split;
use crate::text::split_at_each;
use crate::text::text_of;
use crate::text::trim;
use crate::text::trimmed;
use crate::text::views;
use vstd::prelude::*;

verus! {

/// The token that opens a directive line.
pub const HEADER: &'static str = "quickcfg:";

/// How many lines from the top of a text are looked at.
pub const SCAN_LINES: usize = 5;

/// The header as characters.
pub open spec fn header() -> Seq<char> {
    HEADER@
}

/// What follows the header on the first line that holds one, looking at
/// no more than `budget` lines from the start of `text`. Lines end at a
/// line feed; later lines with a header are ignored.
pub open spec fn scan(text: Seq<char>, budget: nat) -> Option<Seq<char>>
    decreases budget,
{
    if budget == 0 {
        None
    } else {
        let end = first_index(text, '\n');
        let line = text.subrange(0, end);
        match find(line, header()) {
            Some(at) => Some(line.subrange(at + header().len(), line.len() as int)),
            None => if 0 <= end < text.len() {
                scan(text.subrange(end + 1, text.len() as int), (budget - 1) as nat)
            } else {
                None
            },
        }
    }
}

/// The rest of the directive line of a text, if it has one.
pub open spec fn directive_tail(text: Seq<char>) -> Option<Seq<char>> {
    scan(text, SCAN_LINES as nat)
}

/// One entry of a directive line as written: the whole entry, the key
/// before the first colon, and what follows that colon, if there is one.
pub struct Token {
    pub part: Seq<char>,
    pub key: Seq<char>,
    pub kind: Option<Seq<char>>,
}

/// Reads one trimmed entry: it is split at its first colon only, so a
/// second colon belongs to the kind.
pub open spec fn token_of(part: Seq<char>) -> Token {
    let at = first_index(part, ':');
    if 0 <= at < part.len() {
        Token {
            part,
            key: part.subrange(0, at),
            kind: Some(part.subrange(at + 1, part.len() as int)),
        }
    } else {
        Token { part, key: part, kind: None }
    }
}

/// The entries among the pieces of a directive line: each piece trimmed,
/// blank ones skipped, in order.
pub open spec fn tokens_of(pieces: Seq<Seq<char>>) -> Seq<Token>
    decreases pieces.len(),
{
    if pieces.len() == 0 {
        Seq::empty()
    } else {
        let front = tokens_of(pieces.drop_last());
        let part = trim(pieces.last());
        if part.len() == 0 {
            front
        } else {
            front.push(token_of(part))
        }
    }
}

/// The entries that a text declares: none where it has no directive line.
pub open spec fn directives(text: Seq<char>) -> Seq<Token> {
    match directive_tail(text) {
        None => Seq::empty(),
        Some(tail) => tokens_of(split(trim(tail), ',')),
    }
}

/// One entry of a directive line.
#[derive(Debug)]
pub struct Entry {
    /// The entry as written, trimmed.
    pub part: String,
    /// The key to resolve.
    pub key: String,
    /// The kind token after the first colon, if any.
    pub kind: Option<String>,
}

impl View for Entry {
    type V = Token;

    open spec fn view(&self) -> Token {
        Token {
            part: self.part@,
            key: self.key@,
            kind: match self.kind {
                Some(kind) => Some(kind@),
                None => None,
            },
        }
    }
}

/// The views of a list of entries.
pub open spec fn tokens(entries: Seq<Entry>) -> Seq<Token> {
    entries.map_values(|entry: Entry| entry@)
}

/// Finds the directive line among the first `lines` lines of `text` and
/// returns what follows its header.
pub fn find_directive(text: &Vec<char>, lines: usize) -> (tail: Option<Vec<char>>)
    ensures
        match tail {
            Some(rest) => scan(text@, lines as nat) == Some(rest@),
            None => scan(text@, lines as nat) is None,
        },
{
    let pattern = chars_of(HEADER);
    let mut rest: Vec<char> = slice(text, 0, text.len());
    assert(rest@ =~= text@);
    let mut budget: usize = lines;
    while budget > 0
        invariant
            pattern@ == header(),
            scan(text@, lines as nat) == scan(rest@, budget as nat),
        decreases budget,
    {
        let end: usize = find_char(&rest, '\n');
        let line = slice(&rest, 0, end);
        match find_text(&line, &pattern) {
            Some(at) => {
                proof {
                    lemma_find_from(line@, pattern@, 0);
                }
                return Some(slice(&line, at + pattern.len(), line.len()));
            },
            None => {
                if end < rest.len() {
                    rest = slice(&rest, end + 1, rest.len());
                    budget -= 1;
                } else {
                    return None;
                }
            },
        }
    }
    None
}

/// Reads one trimmed, non-empty entry.
pub fn read_entry(part: &Vec<char>) -> (entry: Entry)
    ensures
        entry@ == token_of(part@),
{
    let at: usize = find_char(part, ':');
    if at < part.len() {
        let key = slice(part, 0, at);
        let kind = slice(part, at + 1, part.len());
        Entry { part: text_of(part), key: text_of(&key), kind: Some(text_of(&kind)) }
    } else {
        Entry { part: text_of(part), key: text_of(part), kind: None }
    }
}

/// Reads the entries that `content` declares on its directive line.
pub fn parse_spec(content: &str) -> (entries: Vec<Entry>)
    ensures
        tokens(entries@) == directives(content@),
{
    let text = chars_of(content);
    let mut entries: Vec<Entry> = Vec::new();
    let tail = match find_directive(&text, SCAN_LINES) {
        Some(tail) => tail,
        None => {
            assert(tokens(entries@) =~= Seq::<Token>::empty());
            return entries;
        },
    };
    let line = trimmed(&tail);
    let pieces = split_at_each(&line, ',');
    let n: usize = pieces.len();
    let mut i: usize = 0;
    assert(tokens(entries@) =~= tokens_of(views(pieces@).subrange(0, 0)));
    while i < n
        invariant
            i <= n,
            n == pieces@.len(),
            tokens(entries@) == tokens_of(views(pieces@).subrange(0, i as int)),
        decreases n - i,
    {
        let ghost longer = views(pieces@).subrange(0, i + 1);
        assert(longer.drop_last() =~= views(pieces@).subrange(0, i as int));
        assert(longer.last() == pieces@[i as int]@);
        let part = trimmed(&pieces[i]);
        if part.len() > 0 {
            let ghost before = entries@;
            let entry = read_entry(&part);
            entries.push(entry);
            assert(tokens(entries@) =~= tokens(before).push(entry@));
        }
        i += 1;
    }
    assert(views(pieces@).subrange(0, n as int) =~= views(pieces@));
    entries
}

} // verus!
