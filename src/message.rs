//! The data that the chat source delivers: updates, messages and the tagged
//! ranges (entities) inside a message's text.
use vstd::prelude::*;

verus! {

/// The category of a tagged range of text.
#[derive(Clone, Copy, Debug, PartialEq, Eq, Structural)]
pub enum EntityKind {
    Hashtag,
    Cashtag,
    Mention,
    BotCommand,
    Url,
    Other,
}

/// A tagged range of a message's text. `offset` and `length` count UTF-16
/// code units, as the chat source does: a character outside the Basic
/// Multilingual Plane counts two.
#[derive(Clone, Copy, Debug, PartialEq, Eq, Structural)]
pub struct MessageEntity {
    pub kind: EntityKind,
    pub offset: usize,
    pub length: usize,
}

/// A message. Either part may be absent: that only means there is nothing
/// to match.
#[derive(Clone, Debug)]
pub struct Message {
    pub text: Option<String>,
    pub entities: Option<Vec<MessageEntity>>,
}

/// What an update carries: a message, or something this bridge ignores.
#[derive(Clone, Debug)]
pub enum UpdateKind {
    Message(Message),
    Other,
}

/// One unit of data from the source, identified by an id that the source
/// assigns in increasing order.
#[derive(Clone, Debug)]
pub struct Update {
    pub id: i32,
    pub kind: UpdateKind,
}

/// The range of an entity lies outside the text it refers to.
#[derive(Clone, Copy, Debug, PartialEq, Eq, Structural)]
pub struct ExtractionError;

/// The number of UTF-16 code units that encode `c`.
pub open spec fn utf16_width(c: char) -> nat {
    if (c as u32) < 0x10000 {
        1
    } else {
        2
    }
}

/// The number of UTF-16 code units that encode the first `n` characters of `s`.
pub open spec fn utf16_prefix(s: Seq<char>, n: int) -> nat
    decreases n,
{
    if n <= 0 {
        0
    } else {
        utf16_prefix(s, n - 1) + utf16_width(s[n - 1])
    }
}

/// Whether the characters `i..j` of `text` are exactly the UTF-16 range of
/// `e`.
pub open spec fn span_bounds(text: Seq<char>, e: MessageEntity, i: int, j: int) -> bool {
    &&& 0 <= i <= j <= text.len()
    &&& utf16_prefix(text, i) == e.offset
    &&& utf16_prefix(text, j) == e.offset + e.length
}

/// The characters that `e` covers in `text`, or `None` where its range
/// reaches past the end of the text or splits a character.
pub open spec fn entity_span(text: Seq<char>, e: MessageEntity) -> Option<Seq<char>> {
    if exists|i: int, j: int| span_bounds(text, e, i, j) {
        let (i, j) = choose|i: int, j: int| span_bounds(text, e, i, j);
        Some(text.subrange(i, j))
    } else {
        None
    }
}

/// A longer prefix of a text takes strictly more code units.
pub proof fn lemma_utf16_prefix_increases(s: Seq<char>, i: int, j: int)
    requires
        0 <= i < j <= s.len(),
    ensures
        utf16_prefix(s, i) < utf16_prefix(s, j),
    decreases j - i,
{
    if i < j - 1 {
        lemma_utf16_prefix_increases(s, i, j - 1);
    }
}

/// The character position at which the first `units` code units of `text`
/// end, if they end between two characters.
fn char_index(text: &str, n: usize, units: u128) -> (r: Option<usize>)
    requires
        n == text@.len(),
        units <= 2 * (usize::MAX as u128),
    ensures
        match r {
            Some(i) => i <= text@.len() && utf16_prefix(text@, i as int) == units,
            None => forall|i: int| 0 <= i <= text@.len() ==> utf16_prefix(text@, i) != units,
        },
{
    let mut i: usize = 0;
    let mut count: u128 = 0;
    while i < n && count < units
        invariant
            0 <= i <= n,
            n == text@.len(),
            units <= 2 * (usize::MAX as u128),
            count == utf16_prefix(text@, i as int),
            forall|j: int| 0 <= j < i ==> utf16_prefix(text@, j) < units,
        decreases n - i,
    {
        let c = text.get_char(i);
        let w: u128 = if (c as u32) < 0x10000 { 1 } else { 2 };
        count = count + w;
        i += 1;
    }
    if count == units {
        return Some(i);
    }
    assert forall|j: int| 0 <= j <= text@.len() implies utf16_prefix(text@, j) != units by {
        if j > i {
            lemma_utf16_prefix_increases(text@, i as int, j);
        } else if j < i {
            if count < units {
                lemma_utf16_prefix_increases(text@, j, i as int);
            }
        }
    }
    None
}

/// Whether `e` is a hashtag whose span in `text` is exactly `tag`.
pub open spec fn entity_has_tag(text: Seq<char>, e: MessageEntity, tag: Seq<char>) -> bool {
    e.kind == EntityKind::Hashtag && entity_span(text, e) == Some(tag)
}

/// Whether the message has text, entities, and among them a hashtag whose
/// span is exactly `tag`.
pub open spec fn message_has_tag(m: Message, tag: Seq<char>) -> bool {
    &&& m.text is Some
    &&& m.entities is Some
    &&& exists|i: int|
        0 <= i < m.entities->Some_0@.len()
            && entity_has_tag(m.text->Some_0@, #[trigger] m.entities->Some_0@[i], tag)
}

/// Whether the entity is of the hashtag category.
pub fn is_hashtag(e: &MessageEntity) -> (r: bool)
    ensures
        r == (e.kind == EntityKind::Hashtag),
{
    match e.kind {
        EntityKind::Hashtag => true,
        _ => false,
    }
}

/// Any character positions that bound the range of `e` determine its span:
/// no other pair bounds it.
pub proof fn lemma_span_unique(text: Seq<char>, e: MessageEntity, i: int, j: int)
    requires
        span_bounds(text, e, i, j),
    ensures
        entity_span(text, e) == Some(text.subrange(i, j)),
{
    let (a, b) = choose|a: int, b: int| span_bounds(text, e, a, b);
    if a < i {
        lemma_utf16_prefix_increases(text, a, i);
    } else if i < a {
        lemma_utf16_prefix_increases(text, i, a);
    }
    if b < j {
        lemma_utf16_prefix_increases(text, b, j);
    } else if j < b {
        lemma_utf16_prefix_increases(text, j, b);
    }
}

/// The part of `text` that `e` covers; an error, not a panic, where the
/// range reaches past the end of the text or splits a character.
pub fn extract_entity(text: &str, e: &MessageEntity) -> (r: Result<String, ExtractionError>)
    ensures
        match entity_span(text@, *e) {
            Some(s) => r is Ok && r->Ok_0@ == s,
            None => r is Err,
        },
{
    let n = text.unicode_len();
    let start = match char_index(text, n, e.offset as u128) {
        Some(i) => i,
        None => return Err(ExtractionError),
    };
    let end = match char_index(text, n, e.offset as u128 + e.length as u128) {
        Some(j) => j,
        None => return Err(ExtractionError),
    };
    proof {
        if end < start {
            lemma_utf16_prefix_increases(text@, end as int, start as int);
        }
        lemma_span_unique(text@, *e, start as int, end as int);
    }
    Ok(String::from_str(text.substring_char(start, end)))
}

/// Whether the span of `e` in `text` is exactly `tag`, whatever the
/// entity's category.
pub fn span_equals(text: &str, e: &MessageEntity, tag: &str) -> (r: bool)
    ensures
        r == (entity_span(text@, *e) == Some(tag@)),
{
    match extract_entity(text, e) {
        Ok(s) => {
            let t = String::from_str(tag);
            s == t
        },
        Err(_) => false,
    }
}

} // verus!
