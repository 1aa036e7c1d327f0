//! Files travel between the window and the service as data URLs
//! (`data:<mime>;base64,<base64 text>`); this module makes them and reads
//! the bytes back out of them.
use vstd::prelude::*;
use crate::outside::{
    base64_decode, base64_encode, base64_standard_decoding, base64_standard_text, guess_mime,
    guessed_mime,
};
use crate::text::{concat_str, contains, lemma_find, lemma_find_at, split_once, starts_with, str_split_once};

verus! {

/// The data URL of `bytes` of the MIME type `mime`.
pub open spec fn data_url(mime: Seq<char>, bytes: Seq<u8>) -> Seq<char> {
    "data:"@ + mime + ";base64,"@ + base64_standard_text(bytes)
}

/// Why the `base64` crate rejected a text: its `DecodeError`, variant by
/// variant.
#[derive(Debug, PartialEq, Eq, Structural, Clone, Copy)]
pub enum Base64Error {
    /// A byte outside the alphabet, at this offset.
    InvalidByte(usize, u8),
    /// The number of base64 symbols is not a valid length.
    InvalidLength(usize),
    /// The last symbol, at this offset, has bits that would be discarded.
    InvalidLastSymbol(usize, u8),
    /// The padding is not canonical.
    InvalidPadding,
}

/// Why the bytes of a file could not be read out of what the window sent.
#[derive(Debug, PartialEq, Eq, Structural, Clone, Copy)]
pub enum FileBodyError {
    /// The text holds no `base64,`.
    InvalidFormat,
    /// The text after `base64,` is no base64.
    InvalidBase64(Base64Error),
}

/// The bytes held in a file body sent by the window: the base64 text after
/// the first `base64,`, decoded; `InvalidFormat` when there is no
/// `base64,`, and the decoding error when the rest is no base64.
pub open spec fn body_bytes(body: Seq<char>) -> Result<Seq<u8>, FileBodyError> {
    match split_once(body, "base64,"@) {
        None => Err(FileBodyError::InvalidFormat),
        Some((_, rest)) => match base64_standard_decoding(rest) {
            Ok(b) => Ok(b),
            Err(e) => Err(FileBodyError::InvalidBase64(e)),
        },
    }
}

/// The spec value of a decoding result.
pub open spec fn body_result_view(r: Result<Vec<u8>, FileBodyError>) -> Result<Seq<u8>, FileBodyError> {
    match r {
        Ok(v) => Ok(v@),
        Err(e) => Err(e),
    }
}

/// Reads the bytes out of a file body sent by the window.
pub fn decode_file_body(body: &str) -> (res: Result<Vec<u8>, FileBodyError>)
    ensures
        body_result_view(res) == body_bytes(body@),
{
    let marker = "base64,";
    match str_split_once(body, marker) {
        None => Err(FileBodyError::InvalidFormat),
        Some((_, rest)) => match base64_decode(rest.as_str()) {
            Ok(v) => Ok(v),
            Err(e) => Err(FileBodyError::InvalidBase64(e)),
        },
    }
}

/// A text with no comma in it has no comma anywhere.
proof fn lemma_no_comma(m: Seq<char>, i: int)
    requires
        !contains(m, seq![',']),
        0 <= i < m.len(),
    ensures
        m[i] != ',',
{
    lemma_find(m, seq![',']);
    assert(m.skip(i).take(1) =~= seq![m[i]]);
    if m[i] == ',' {
        assert(starts_with(m.skip(i), seq![',']));
    }
}

/// The bytes of a data URL whose MIME type holds no comma can be read back
/// out of it.
proof fn lemma_data_url_round_trip(mime: Seq<char>, bytes: Seq<u8>)
    requires
        !contains(mime, seq![',']),
        base64_standard_decoding(base64_standard_text(bytes)) == Ok::<Seq<u8>, Base64Error>(bytes),
    ensures
        body_bytes(data_url(mime, bytes)) == Ok::<Seq<u8>, FileBodyError>(bytes),
{
    reveal_strlit("data:");
    reveal_strlit(";base64,");
    reveal_strlit("base64,");
    let enc = base64_standard_text(bytes);
    let s = data_url(mime, bytes);
    let p = "base64,"@;
    let k: int = 6 + mime.len() as int;
    assert(s.len() == 13 + mime.len() + enc.len());
    assert forall|i: int| 0 <= i < k + 6 implies s[i] != ',' by {
        if 5 <= i < 5 + mime.len() {
            assert(s[i] == mime[i - 5]);
            lemma_no_comma(mime, i - 5);
        } else if i >= 5 + mime.len() {
            assert(s[i] == ";base64,"@[i - 5 - mime.len()]);
        } else {
            assert(s[i] == "data:"@[i]);
        }
    }
    assert(s.skip(k).take(7) =~= p);
    assert forall|j: int| 0 <= j < k implies !starts_with(#[trigger] s.skip(j), p) by {
        if starts_with(s.skip(j), p) {
            assert(s.skip(j).take(7)[6] == p[6]);
            assert(s[j + 6] == ',');
        }
    }
    lemma_find_at(s, p, k);
    assert(s.skip(k + 7) =~= enc);
}

/// The data URL of `bytes` of the MIME type `mime`. When the MIME type
/// holds no comma, the bytes can be read back out of it.
pub fn make_data_url(mime: &str, bytes: &[u8]) -> (res: String)
    requires
        bytes@.len() <= isize::MAX,
    ensures
        res@ == data_url(mime@, bytes@),
        !contains(mime@, seq![',']) ==> body_bytes(res@) == Ok::<Seq<u8>, FileBodyError>(bytes@),
{
    let encoded = base64_encode(bytes);
    let head = concat_str("data:", mime);
    let head = concat_str(head.as_str(), ";base64,");
    let res = concat_str(head.as_str(), encoded.as_str());
    proof {
        if !contains(mime@, seq![',']) {
            lemma_data_url_round_trip(mime@, bytes@);
        }
    }
    res
}

/// The data URL of the contents of the file at `file_path`, of the MIME
/// type guessed from the path's extension. The contents can always be read
/// back out of it: no guessed MIME type holds a comma.
pub fn get_file_base64(file_path: &str, contents: &[u8]) -> (res: String)
    requires
        contents@.len() <= isize::MAX,
    ensures
        res@ == data_url(guessed_mime(file_path@), contents@),
        body_bytes(res@) == Ok::<Seq<u8>, FileBodyError>(contents@),
{
    let mime = guess_mime(file_path);
    make_data_url(mime.as_str(), contents)
}

/// A file to upload: its name and its bytes.
pub struct UploadFile {
    pub name: String,
    pub bytes: Vec<u8>,
}

/// Reads a file to upload out of what the window sent for it: the data URL
/// first, the file name second.
pub fn prepare_upload(file: &Vec<String>) -> (res: Result<UploadFile, FileBodyError>)
    requires
        file.len() >= 2,
    ensures
        match res {
            Ok(u) => u.name@ == file[1]@ && body_bytes(file[0]@) == Ok::<Seq<u8>, FileBodyError>(u.bytes@),
            Err(e) => body_bytes(file[0]@) == Err::<Seq<u8>, FileBodyError>(e),
        },
{
    let name = file[1].clone();
    match decode_file_body(file[0].as_str()) {
        Ok(bytes) => Ok(UploadFile { name, bytes }),
        Err(e) => Err(e),
    }
}

} // verus!
