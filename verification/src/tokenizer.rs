use vstd::prelude::*;
use vstd::utf8::*;

verus! {

/// Token ids of a byte sequence: each byte is its own token.
pub open spec fn token_ids(bytes: Seq<u8>) -> Seq<u32> {
    bytes.map_values(|b: u8| b as u32)
}

/// The bytes that a token sequence stands for: each token keeps its low eight bits.
pub open spec fn token_bytes(tokens: Seq<u32>) -> Seq<u8> {
    tokens.map_values(|t: u32| t as u8)
}

/// What `String::from_utf8_lossy` makes of a byte sequence.
pub uninterp spec fn lossy_utf8(bytes: Seq<u8>) -> Seq<char>;

/// The text that a byte sequence decodes to: the UTF-8 decoding where the
/// bytes are valid UTF-8, the lossy decoding otherwise.
pub open spec fn decoded_text(bytes: Seq<u8>) -> Seq<char> {
    if valid_utf8(bytes) {
        decode_utf8(bytes)
    } else {
        lossy_utf8(bytes)
    }
}

/// The number of distinct tokens of the byte tokenizer.
pub open spec fn spec_vocab_size() -> nat {
    256
}

/// Calls `String::from_utf8_lossy` and takes the owned string.
/// Trusted: the result is `lossy_utf8` of the bytes; valid UTF-8 comes back
/// unchanged (as its decoding); a single byte that is not valid UTF-8 becomes
/// one replacement character U+FFFD. Nothing else about invalid input is stated.
#[verifier::external_body]
fn utf8_lossy_string(bytes: &[u8]) -> (s: String)
    ensures
        s@ == lossy_utf8(bytes@),
        valid_utf8(bytes@) ==> s@ == decode_utf8(bytes@),
        bytes@.len() == 1 && !valid_utf8(bytes@) ==> s@ == seq!['\u{FFFD}'],
{
    String::from_utf8_lossy(bytes).into_owned()
}

/// A tokenizer whose tokens are the bytes of the UTF-8 encoding of a text.
pub struct ByteTokenizer;

impl ByteTokenizer {
    /// The tokens of `text`: one token per byte of its UTF-8 encoding.
    pub fn encode(&self, text: &str) -> (tokens: Vec<u32>)
        ensures
            tokens@ == token_ids(encode_utf8(text@)),
            forall|i: int| 0 <= i < tokens@.len() ==> (#[trigger] tokens@[i]) < spec_vocab_size(),
    {
        let bytes = text.as_bytes();
        let mut tokens: Vec<u32> = Vec::new();
        let mut i: usize = 0;
        while i < bytes.len()
            invariant
                i <= bytes@.len(),
                bytes@ == encode_utf8(text@),
                tokens@ == token_ids(bytes@.subrange(0, i as int)),
            decreases bytes@.len() - i,
        {
            tokens.push(bytes[i] as u32);
            i = i + 1;
            assert(token_ids(bytes@.subrange(0, i as int)) =~= token_ids(
                bytes@.subrange(0, (i - 1) as int),
            ).push(bytes@[i - 1] as u32));
        }
        assert(bytes@.subrange(0, i as int) =~= bytes@);
        tokens
    }

    /// The text of `tokens`: each token contributes its low byte, and the bytes
    /// are decoded as UTF-8, invalid sequences becoming U+FFFD.
    pub fn decode(&self, tokens: &[u32]) -> (text: String)
        ensures
            text@ == decoded_text(token_bytes(tokens@)),
            tokens@.len() == 1 ==> text@.len() > 0,
    {
        let mut bytes: Vec<u8> = Vec::new();
        let mut i: usize = 0;
        while i < tokens.len()
            invariant
                i <= tokens@.len(),
                bytes@ == token_bytes(tokens@.subrange(0, i as int)),
            decreases tokens@.len() - i,
        {
            bytes.push(tokens[i] as u8);
            i = i + 1;
            assert(token_bytes(tokens@.subrange(0, i as int)) =~= token_bytes(
                tokens@.subrange(0, (i - 1) as int),
            ).push(tokens@[i - 1] as u8));
        }
        assert(tokens@.subrange(0, i as int) =~= tokens@);
        let text = utf8_lossy_string(bytes.as_slice());
        proof {
            if tokens@.len() == 1 && valid_utf8(bytes@) {
                assert(decode_utf8(bytes@).len() > 0);
            }
        }
        text
    }

    /// The number of distinct tokens: one per byte value.
    pub fn vocab_size(&self) -> (n: usize)
        ensures
            n == spec_vocab_size(),
    {
        256
    }
}

/// Decoding the tokens of a text gives the text back.
pub proof fn lemma_decode_encode(text: Seq<char>)
    ensures
        decoded_text(token_bytes(token_ids(encode_utf8(text)))) == text,
{
    let bytes = encode_utf8(text);
    assert(token_bytes(token_ids(bytes)) =~= bytes);
    encode_utf8_valid_utf8(text);
    encode_utf8_decode_utf8(text);
}

} // verus!
