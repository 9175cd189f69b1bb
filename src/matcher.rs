//! Rules that decide whether a message is to be forwarded.
use vstd::prelude::*;

use crate::message::{entity_has_tag, entity_span, is_hashtag, message_has_tag, span_equals, Message, MessageEntity};

verus! {

/// A rule on messages. Matching is pure: it reads the message and nothing else.
pub trait Matcher {
    /// The messages that this rule accepts.
    spec fn accepts(&self, m: Message) -> bool;

    fn match_message(&self, m: &Message) -> (r: bool)
        ensures
            r == self.accepts(*m),
    ;
}

/// Accepts a message that carries a hashtag entity whose text is exactly
/// `hash_tag`: no case folding, no trimming.
#[derive(Clone, Debug)]
pub struct HashTagMatcher {
    pub hash_tag: String,
}

impl HashTagMatcher {
    pub fn new(hash_tag: String) -> (r: HashTagMatcher)
        ensures
            r.hash_tag@ == hash_tag@,
    {
        HashTagMatcher { hash_tag }
    }

    /// A short description of the rule, for logs.
    pub fn describe(&self) -> (r: String)
        ensures
            r@ == "hashtag "@ + self.hash_tag@ + " matcher"@,
    {
        let mut r = String::from_str("hashtag ");
        r.append(self.hash_tag.as_str());
        r.append(" matcher");
        r
    }
}

impl Matcher for HashTagMatcher {
    open spec fn accepts(&self, m: Message) -> bool {
        message_has_tag(m, self.hash_tag@)
    }

    /// Looks at the entities in order and stops at the first hashtag whose
    /// text is the tag. An entity whose range lies outside the text does not
    /// match.
    fn match_message(&self, m: &Message) -> (r: bool) {
        let entities = match &m.entities {
            Some(es) => es,
            None => return false,
        };
        let text = match &m.text {
            Some(t) => t,
            None => return false,
        };
        let mut i: usize = 0;
        while i < entities.len()
            invariant
                0 <= i <= entities@.len(),
                m.entities == Some(*entities),
                m.text == Some(*text),
                forall|j: int| 0 <= j < i ==> !entity_has_tag(text@, #[trigger] entities@[j], self.hash_tag@),
            decreases entities@.len() - i,
        {
            let e = &entities[i];
            if is_hashtag(e) && span_equals(text.as_str(), e, self.hash_tag.as_str()) {
                assert(entity_has_tag(m.text->Some_0@, m.entities->Some_0@[i as int], self.hash_tag@));
                return true;
            }
            i += 1;
        }
        false
    }
}

/// A message without text, without entities, or whose every entity reaches
/// past the end of its text is never accepted, whatever the tag.
pub proof fn lemma_malformed_never_matches(matcher: HashTagMatcher, m: Message)
    requires
        m.text is None || m.entities is None || forall|i: int|
            0 <= i < m.entities->Some_0@.len() ==> entity_span(m.text->Some_0@, #[trigger] m.entities->Some_0@[i]) is None,
    ensures
        !matcher.accepts(m),
{
}

/// Whether the span of `e` in `text` is the `#standup` tag, whatever the
/// entity's category.
pub fn standup_matcher(text: &str, e: &MessageEntity) -> (r: bool)
    ensures
        r == (entity_span(text@, *e) == Some("#standup"@)),
{
    span_equals(text, e, "#standup")
}

} // verus!
