//! Calls into std and outside crates whose results the library relies on.
use crate::extractors::text::opt_view;
use sha2::Digest;
use tokenizers::Tokenizer as HfTokenizer;
use vstd::prelude::*;

verus! {

/// What `str::to_lowercase` returns for a string.
pub uninterp spec fn lower_of(s: Seq<char>) -> Seq<char>;

/// Relies on `str::to_lowercase`: the result depends on the characters alone.
#[verifier::external_body]
pub(crate) fn lowercase(s: &str) -> (r: String)
    ensures
        r@ == lower_of(s@),
{
    s.to_lowercase()
}

/// Relies on `String`'s `FromIterator<char>`: the string of exactly these characters.
#[verifier::external_body]
pub(crate) fn string_of_chars(chars: &[char]) -> (r: String)
    ensures
        r@ == chars@,
{
    chars.iter().collect()
}

/// Relies on `dirs::home_dir`: the current user's home directory, if one is known.
/// It depends on the environment, so nothing is claimed of it.
#[verifier::external_body]
pub(crate) fn home_dir() -> (r: Option<String>) {
    dirs::home_dir().map(|p| p.to_string_lossy().into_owned())
}

#[verifier::external_type_specification]
#[verifier::external_body]
pub struct ExTokenizer(HfTokenizer);

/// Whether `tokenizers` accepts some bytes as a tokenizer descriptor.
pub uninterp spec fn tokenizer_parses(descriptor: Seq<u8>) -> bool;

/// Relies on `tokenizers::Tokenizer::from_bytes`: whether a JSON tokenizer
/// descriptor parses depends on its bytes alone; the error says why not.
#[verifier::external_body]
pub(crate) fn parse_tokenizer(bytes: &[u8]) -> (r: Result<HfTokenizer, String>)
    ensures
        r is Ok <==> tokenizer_parses(bytes@),
{
    HfTokenizer::from_bytes(bytes).map_err(|e| e.to_string())
}

/// The padding id that the descriptor configures, if it parses and configures padding.
pub uninterp spec fn padding_of(descriptor: Seq<u8>) -> Option<u32>;

/// Relies on `tokenizers::Tokenizer::encode` with special tokens and on the
/// encoding's `get_ids`, `get_attention_mask` and `get_type_ids`. Some
/// models sample their segmentation (BPE dropout, unigram sampling), so
/// nothing is claimed of the result.
#[verifier::external_body]
pub(crate) fn encode_tokens(tok: &HfTokenizer, text: &str) -> (r: Result<
    (Vec<u32>, Vec<u32>, Vec<u32>),
    String,
>) {
    match tok.encode(text, true) {
        Ok(e) => Ok(
            (e.get_ids().to_vec(), e.get_attention_mask().to_vec(), e.get_type_ids().to_vec()),
        ),
        Err(e) => Err(e.to_string()),
    }
}

/// Relies on `tokenizers::Tokenizer::get_padding` of the tokenizer parsed by
/// `from_bytes` from `descriptor`: the configured padding id, if any.
#[verifier::external_body]
pub(crate) fn padding_id(descriptor: &[u8]) -> (r: Option<u32>)
    ensures
        r == padding_of(descriptor@),
{
    HfTokenizer::from_bytes(descriptor).ok().and_then(|t| t.get_padding().map(|p| p.pad_id))
}

/// What SHA-256 followed by lower-case hex formatting gives for some bytes.
pub uninterp spec fn sha256_hex_of(b: Seq<u8>) -> Seq<char>;

/// Relies on `sha2::Sha256::digest` and the lower-case hex formatting of its
/// 32-byte output: two digits per byte, 64 in all.
#[verifier::external_body]
pub(crate) fn sha256_hex(bytes: &[u8]) -> (r: String)
    ensures
        r@ == sha256_hex_of(bytes@),
        r@.len() == 64,
{
    format!("{:x}", sha2::Sha256::digest(bytes))
}

/// What `mime_guess` registers first for the extension of a path.
pub uninterp spec fn mime_of_path(p: Seq<char>) -> Option<Seq<char>>;

/// Relies on `mime_guess::from_path(..).first()`: the first MIME type that
/// mime_guess's table lists for the path's extension, if any.
#[verifier::external_body]
pub(crate) fn guess_mime(path: &str) -> (r: Option<String>)
    ensures
        opt_view(r) == mime_of_path(path@),
{
    mime_guess::from_path(path).first().map(|m| m.to_string())
}

} // verus!
