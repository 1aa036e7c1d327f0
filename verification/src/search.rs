//! Searching saved conversations: the index maps the text of every saved
//! conversation to its id, and a search lists the conversations whose text
//! holds the word searched for.
use vstd::prelude::*;
use vstd::string::StringSliceAdditionalSpecFns;
use vstd::utf8::{decode_utf8, encode_utf8_decode_utf8, valid_utf8};
use crate::outside::utf8_str;
use crate::text::{contains, str_contains};

verus! {

/// The text that `bytes` encode as UTF-8, or nothing when they are no
/// UTF-8.
pub open spec fn text_or_empty(bytes: Seq<u8>) -> Seq<char> {
    if valid_utf8(bytes) {
        decode_utf8(bytes)
    } else {
        Seq::empty()
    }
}

/// The text that `bytes` encode as UTF-8, or the empty text.
pub fn utf8_or_empty(bytes: &[u8]) -> (res: String)
    ensures
        res@ == text_or_empty(bytes@),
{
    match utf8_str(bytes) {
        Some(s) => {
            proof {
                encode_utf8_decode_utf8(s@);
            }
            s.to_owned()
        },
        None => String::new(),
    }
}

/// The text that `buf` encodes as UTF-8, which it must.
pub fn from_u8_to_str(buf: &[u8]) -> (res: &str)
    requires
        valid_utf8(buf@),
    ensures
        res@ == decode_utf8(buf@),
{
    let s = utf8_str(buf).unwrap();
    proof {
        encode_utf8_decode_utf8(s@);
    }
    s
}

/// A conversation found by a search: its id and its text.
#[derive(Debug)]
pub struct SearchHit {
    pub id: String,
    pub body: String,
}

/// Looks at one entry of the index: the text of a conversation (`key`) and
/// its id (`value`); it is a hit when the text holds `word`.
pub fn search_hit(key: &[u8], value: &[u8], word: &str) -> (res: Option<SearchHit>)
    ensures
        res is Some <==> contains(text_or_empty(key@), word@),
        res matches Some(h) ==> h.body@ == text_or_empty(key@) && h.id@ == text_or_empty(value@),
{
    let body = utf8_or_empty(key);
    if !str_contains(body.as_str(), word) {
        return None;
    }
    let id = utf8_or_empty(value);
    Some(SearchHit { id, body })
}

} // verus!
