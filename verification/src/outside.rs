//! The calls into outside crates, each behind a contract that the crate's
//! documentation or source gives and that nothing here proves.
use vstd::prelude::*;
use vstd::string::StringSliceAdditionalSpecFns;
use crate::data_url::Base64Error;
use crate::ids::uuid_v4_text;
use crate::text::contains;

verus! {

/// `uuid::Uuid::new_v4()`, written out with its `Display` impl: a random
/// version-4 UUID of the RFC 4122 variant, printed hyphenated in lowercase
/// hexadecimal. Which of those texts comes out is left to chance.
#[verifier::external_body]
pub(crate) fn new_uuid_v4() -> (res: String)
    ensures
        uuid_v4_text(res@),
{
    uuid::Uuid::new_v4().to_string()
}

} // verus!

verus! {

/// What `chrono` prints for the UTC instant `nanos` nanoseconds after the
/// Unix epoch in the form `%Y-%m-%d %H:%M:%S`.
pub uninterp spec fn utc_nanos_text(nanos: i64) -> Seq<char>;

/// `chrono::Utc.timestamp_nanos(nanos)` formatted with
/// `%Y-%m-%d %H:%M:%S`; every `i64` is an instant `chrono` can hold. The
/// text is named, not spelled out.
#[verifier::external_body]
pub(crate) fn format_utc_nanos(nanos: i64) -> (res: String)
    ensures
        res@ == utc_nanos_text(nanos),
{
    chrono::TimeZone::timestamp_nanos(&chrono::Utc, nanos).format("%Y-%m-%d %H:%M:%S").to_string()
}

/// What `chrono` prints for the UTC instant `millis` milliseconds after the
/// Unix epoch in the form `%Y-%m-%d %H:%M:%S`, or nothing when that instant
/// lies outside the range `chrono` can hold.
pub uninterp spec fn utc_millis_text(millis: i64) -> Option<Seq<char>>;

/// `chrono::Utc.timestamp_millis_opt(millis)` formatted with
/// `%Y-%m-%d %H:%M:%S` when it is a single instant; `None` when it is out
/// of range. Which instants are in range is not stated.
#[verifier::external_body]
pub(crate) fn format_utc_millis(millis: i64) -> (res: Option<String>)
    ensures
        match res {
            Some(s) => utc_millis_text(millis) == Some(s@),
            None => utc_millis_text(millis) is None,
        },
{
    match chrono::TimeZone::timestamp_millis_opt(&chrono::Utc, millis) {
        chrono::LocalResult::Single(d) => Some(d.format("%Y-%m-%d %H:%M:%S").to_string()),
        _ => None,
    }
}

/// The HTML that `markdown::to_html` renders for a markdown text.
pub uninterp spec fn markdown_html(text: Seq<char>) -> Seq<char>;

/// `markdown::to_html`: renders CommonMark with the default options, which
/// never fails. The HTML is named, not spelled out.
#[verifier::external_body]
pub(crate) fn markdown_to_html(text: &str) -> (res: String)
    ensures
        res@ == markdown_html(text@),
{
    markdown::to_html(text)
}

} // verus!

verus! {

/// `chrono::Utc::now()`, as whole seconds since the Unix epoch and the
/// nanoseconds past that second. The clock decides both; `chrono`
/// documents the nanoseconds to stay below 2,000,000,000 (a leap second
/// runs past 999,999,999).
#[verifier::external_body]
pub(crate) fn utc_now() -> (res: (i64, u32))
    ensures
        res.1 < 2_000_000_000,
{
    let now = chrono::Utc::now();
    (now.timestamp(), now.timestamp_subsec_nanos())
}

/// `std::str::from_utf8`: the text whose UTF-8 encoding is `bytes` when
/// they are valid UTF-8, nothing otherwise.
#[verifier::external_body]
pub(crate) fn utf8_str(bytes: &[u8]) -> (res: Option<&str>)
    ensures
        match res {
            Some(s) => vstd::utf8::valid_utf8(bytes@) && s.spec_bytes() == bytes@,
            None => !vstd::utf8::valid_utf8(bytes@),
        },
{
    std::str::from_utf8(bytes).ok()
}

} // verus!

verus! {

/// The text that the `base64` crate's `STANDARD` engine (RFC 4648
/// alphabet, with `=` padding) encodes `bytes` as.
pub uninterp spec fn base64_standard_text(bytes: Seq<u8>) -> Seq<char>;

/// What the `base64` crate's `STANDARD` engine makes of `text`: the bytes
/// it decodes, or the error it rejects the text with.
pub uninterp spec fn base64_standard_decoding(text: Seq<char>) -> Result<Seq<u8>, Base64Error>;

/// A decoding that gives `bytes`.
pub open spec fn decodes_to(decoding: Result<Seq<u8>, Base64Error>, bytes: Seq<u8>) -> bool {
    decoding == Ok::<Seq<u8>, Base64Error>(bytes)
}

/// The spec value of a decoding result.
pub open spec fn decoding_view(r: Result<Vec<u8>, Base64Error>) -> Result<Seq<u8>, Base64Error> {
    match r {
        Ok(v) => Ok(v@),
        Err(e) => Err(e),
    }
}

/// `base64::engine::general_purpose::STANDARD.encode(bytes)`. The text is
/// named, not spelled out; what is stated of it is that the same engine
/// decodes it back into `bytes`. The engine panics only when the encoded
/// length overflows `usize`, which no slice of at most `isize::MAX` bytes
/// reaches.
#[verifier::external_body]
pub(crate) fn base64_encode(bytes: &[u8]) -> (res: String)
    requires
        bytes@.len() <= isize::MAX,
    ensures
        res@ == base64_standard_text(bytes@),
        decodes_to(base64_standard_decoding(res@), bytes@),
{
    base64::Engine::encode(&base64::engine::general_purpose::STANDARD, bytes)
}

/// `base64::engine::general_purpose::STANDARD.decode(text)`: the decoded
/// bytes, or the engine's `DecodeError` moved variant by variant into a
/// `Base64Error`. Which texts it rejects, and with which error, is named,
/// not spelled out.
#[verifier::external_body]
pub(crate) fn base64_decode(text: &str) -> (res: Result<Vec<u8>, Base64Error>)
    ensures
        base64_standard_decoding(text@) == decoding_view(res),
{
    match base64::Engine::decode(&base64::engine::general_purpose::STANDARD, text) {
        Ok(v) => Ok(v),
        Err(base64::DecodeError::InvalidByte(i, b)) => Err(Base64Error::InvalidByte(i, b)),
        Err(base64::DecodeError::InvalidLength(n)) => Err(Base64Error::InvalidLength(n)),
        Err(base64::DecodeError::InvalidLastSymbol(i, b)) => Err(Base64Error::InvalidLastSymbol(i, b)),
        Err(base64::DecodeError::InvalidPadding) => Err(Base64Error::InvalidPadding),
    }
}

/// The MIME type that `mime_guess` guesses from the extension of `path`.
pub uninterp spec fn guessed_mime(path: Seq<char>) -> Seq<char>;

/// `mime_guess::from_path(path).first_or_octet_stream()`, displayed: the
/// first MIME type known for the extension of `path`, or
/// `application/octet-stream`. No disk access is made. The table itself is
/// not spelled out; none of its types (nor the default) holds a comma.
#[verifier::external_body]
pub(crate) fn guess_mime(path: &str) -> (res: String)
    ensures
        res@ == guessed_mime(path@),
        !contains(res@, seq![',']),
{
    mime_guess::from_path(path).first_or_octet_stream().to_string()
}

} // verus!

verus! {

/// `rand::thread_rng().gen_range(20..=55)`: a random temperature between
/// 20 and 55 inclusive. Which one is left to chance.
#[verifier::external_body]
pub(crate) fn random_temperature() -> (res: i32)
    ensures
        20 <= res <= 55,
{
    rand::Rng::gen_range(&mut rand::thread_rng(), 20..=55)
}

/// `SliceRandom::choose` on `options` with `rand::thread_rng()`: one of
/// the options, picked at random, or `None` when there are none. Which one
/// is left to chance.
#[verifier::external_body]
pub(crate) fn choose_one(options: &Vec<String>) -> (res: Option<String>)
    ensures
        options.len() > 0 <==> res is Some,
        res matches Some(s) ==> exists|i: int| 0 <= i < options.len() && options[i]@ == s@,
{
    rand::seq::SliceRandom::choose(options.as_slice(), &mut rand::thread_rng()).cloned()
}

} // verus!
