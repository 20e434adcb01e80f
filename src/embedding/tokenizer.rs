//! WordPiece-style tokenization into fixed-length model inputs.
use vstd::prelude::*;

use crate::error::Error;
use crate::foreign::{
    encode_tokens, padding_id, padding_of, parse_tokenizer, tokenizer_parses,
};
use tokenizers::Tokenizer as HfTokenizer;

verus! {

/// The three input tensors of a text encoder, each of one fixed length.
#[derive(Debug, Clone, PartialEq, Eq)]
pub struct TokenizedInput {
    pub input_ids: Vec<i64>,
    pub attention_mask: Vec<i64>,
    pub token_type_ids: Vec<i64>,
}

/// `v` cut or padded with `pad` to exactly `n` values.
pub open spec fn fitted(v: Seq<u32>, n: int, pad: i64) -> Seq<i64> {
    Seq::new(
        n as nat,
        |i: int|
            if i < v.len() {
                v[i] as i64
            } else {
                pad
            },
    )
}

/// `v` cut or padded with `pad` to exactly `n` values.
pub fn fit_to_length(v: &Vec<u32>, n: usize, pad: i64) -> (r: Vec<i64>)
    ensures
        r@ == fitted(v@, n as int, pad),
{
    let mut out: Vec<i64> = Vec::new();
    let mut i: usize = 0;
    while i < n
        invariant
            i <= n,
            out@ == fitted(v@, i as int, pad),
        decreases n - i,
    {
        if i < v.len() {
            out.push(v[i] as i64);
        } else {
            out.push(pad);
        }
        assert(out@ =~= fitted(v@, i + 1, pad));
        i = i + 1;
    }
    out
}

impl TokenizedInput {
    /// The inputs for a text whose token ids, attention mask and token type
    /// ids are given: each cut to `max_length`, then padded to it, ids with
    /// the padding id (0 where there is none) and the others with 0.
    pub fn fit(
        ids: &Vec<u32>,
        mask: &Vec<u32>,
        types: &Vec<u32>,
        max_length: usize,
        pad_id: Option<u32>,
    ) -> (r: TokenizedInput)
        ensures
            r.input_ids@ == fitted(
                ids@,
                max_length as int,
                match pad_id {
                    Some(p) => p as i64,
                    None => 0,
                },
            ),
            r.attention_mask@ == fitted(mask@, max_length as int, 0),
            r.token_type_ids@ == fitted(types@, max_length as int, 0),
    {
        let pad: i64 = match pad_id {
            Some(p) => p as i64,
            None => 0,
        };
        TokenizedInput {
            input_ids: fit_to_length(ids, max_length, pad),
            attention_mask: fit_to_length(mask, max_length, 0),
            token_type_ids: fit_to_length(types, max_length, 0),
        }
    }
}

/// A tokenizer parsed from a descriptor, with the padding id it configures.
pub struct Tokenizer {
    tokenizer: HfTokenizer,
    pad_id: Option<u32>,
    descriptor: Ghost<Seq<u8>>,
}

/// The id that pads token ids: the configured padding id, else 0.
pub open spec fn pad_value(p: Option<u32>) -> i64 {
    match p {
        Some(x) => x as i64,
        None => 0,
    }
}

/// The encoder inputs of length `n` for the encoding `e` and padding id `pad`.
pub open spec fn fitted_input(t: TokenizedInput, e: (Seq<u32>, Seq<u32>, Seq<u32>), n: int, pad: Option<u32>) -> bool {
    &&& t.input_ids@ == fitted(e.0, n, pad_value(pad))
    &&& t.attention_mask@ == fitted(e.1, n, 0)
    &&& t.token_type_ids@ == fitted(e.2, n, 0)
}

/// The message of an error: `prefix` followed by the cause.
pub open spec fn embedding_error(e: Error, prefix: Seq<char>) -> bool {
    exists|m: String| e == Error::Embedding(m) && m@.len() >= prefix.len() && m@.subrange(
        0,
        prefix.len() as int,
    ) == prefix
}

impl Tokenizer {
    /// The descriptor the tokenizer was read from.
    pub closed spec fn descriptor(&self) -> Seq<u8> {
        self.descriptor@
    }

    /// The padding id kept is the one the descriptor configures.
    #[verifier::type_invariant]
    spec fn pad_matches(&self) -> bool {
        self.pad_id == padding_of(self.descriptor@)
    }

    /// The tokenizer described by the JSON descriptor `bytes`.
    pub fn from_bytes(bytes: &[u8]) -> (r: Result<Tokenizer, Error>)
        ensures
            r is Ok <==> tokenizer_parses(bytes@),
            r matches Ok(t) ==> t.descriptor() == bytes@,
            r is Err ==> embedding_error(r->Err_0, "Failed to load tokenizer: "@),
    {
        match parse_tokenizer(bytes) {
            Ok(tokenizer) => {
                let pad_id = padding_id(bytes);
                Ok(Tokenizer { tokenizer, pad_id, descriptor: Ghost(bytes@) })
            },
            Err(e) => {
                let mut m = String::from_str("Failed to load tokenizer: ");
                m.append(e.as_str());
                proof {
                    reveal_strlit("Failed to load tokenizer: ");
                    assert(m@.subrange(0, 26) =~= "Failed to load tokenizer: "@);
                }
                Err(Error::Embedding(m))
            },
        }
    }

    /// Loading by model name is not offered: descriptors are read from files.
    pub fn from_pretrained(identifier: &str) -> (r: Result<Tokenizer, Error>)
        ensures
            r is Err,
            r->Err_0 is Embedding,
    {
        Err(
            Error::Embedding(
                String::from_str(
                    "from_pretrained not supported. Download tokenizer.json and use from_file() instead",
                ),
            ),
        )
    }

    /// The encoder inputs for `text`: some encoding of it (token ids,
    /// attention mask and token type ids), each cut to `max_length` and
    /// padded to it, ids with the descriptor's padding id (0 where it
    /// configures none), the others with 0.
    pub fn encode(&self, text: &str, max_length: usize) -> (r: Result<TokenizedInput, Error>)
        ensures
            r is Ok ==> exists|e: (Seq<u32>, Seq<u32>, Seq<u32>)|
                #[trigger] fitted_input(r->Ok_0, e, max_length as int, padding_of(self.descriptor())),
            r is Err ==> embedding_error(r->Err_0, "Tokenization failed: "@),
    {
        proof {
            use_type_invariant(self);
        }
        match encode_tokens(&self.tokenizer, text) {
            Ok((ids, mask, types)) => {
                let t = TokenizedInput::fit(&ids, &mask, &types, max_length, self.pad_id);
                let ghost e = (ids@, mask@, types@);
                assert(fitted_input(t, e, max_length as int, padding_of(self.descriptor())));
                let r: Result<TokenizedInput, Error> = Ok(t);
                assert(r->Ok_0 == t);
                assert(exists|e: (Seq<u32>, Seq<u32>, Seq<u32>)|
                    #[trigger] fitted_input(r->Ok_0, e, max_length as int, padding_of(self.descriptor())));
                r
            },
            Err(e) => {
                let mut m = String::from_str("Tokenization failed: ");
                m.append(e.as_str());
                proof {
                    reveal_strlit("Tokenization failed: ");
                    assert(m@.subrange(0, 21) =~= "Tokenization failed: "@);
                }
                Err(Error::Embedding(m))
            },
        }
    }
}

} // verus!
