use crate::tokenizer::{decoded_text, token_bytes, ByteTokenizer};
use vstd::prelude::*;
use vstd::string::*;

verus! {

/// The characters after which generation may stop.
pub open spec fn is_stop_char(c: char) -> bool {
    c == '.' || c == '!' || c == '?'
}

/// What the model sees of `tokens`: the last `seq_length` of them, padded with zero tokens at
/// the start where there are fewer.
pub open spec fn context_window(tokens: Seq<u32>, seq_length: nat) -> Seq<u32> {
    if tokens.len() <= seq_length {
        Seq::new((seq_length - tokens.len()) as nat, |i: int| 0u32) + tokens
    } else {
        tokens.subrange(tokens.len() - seq_length, tokens.len() as int)
    }
}

/// Generation stops once the token count passes `max_new_tokens`, or once it has reached
/// `min_new_tokens` and the last character written is a stop character.
pub open spec fn generation_stops(len: nat, min_new_tokens: nat, max_new_tokens: nat, last: char) -> bool {
    len > max_new_tokens || (len >= min_new_tokens && is_stop_char(last))
}

/// The input sequence for the next prediction: the last `seq_length` tokens, with zero
/// padding at the start so that the real tokens sit where the model predicts.
pub fn padded_context(tokens: &[u32], seq_length: usize) -> (context: Vec<u32>)
    ensures
        context@ == context_window(tokens@, seq_length as nat),
        context@.len() == seq_length,
{
    let context_len = if tokens.len() < seq_length {
        tokens.len()
    } else {
        seq_length
    };
    let context_start = tokens.len().saturating_sub(seq_length);
    let padding_len = seq_length - context_len;
    let mut context: Vec<u32> = Vec::new();
    let mut i: usize = 0;
    while i < padding_len
        invariant
            i <= padding_len,
            context@ == Seq::new(i as nat, |j: int| 0u32),
        decreases padding_len - i,
    {
        context.push(0);
        i = i + 1;
        assert(context@ =~= Seq::new(i as nat, |j: int| 0u32));
    }
    let mut k: usize = context_start;
    while k < tokens.len()
        invariant
            context_start <= k <= tokens@.len(),
            context@ == Seq::new(padding_len as nat, |j: int| 0u32) + tokens@.subrange(
                context_start as int,
                k as int,
            ),
        decreases tokens@.len() - k,
    {
        context.push(tokens[k]);
        k = k + 1;
        assert(context@ =~= Seq::new(padding_len as nat, |j: int| 0u32) + tokens@.subrange(
            context_start as int,
            k as int,
        ));
    }
    assert(context@ =~= context_window(tokens@, seq_length as nat));
    context
}

/// Takes the sampled `next_token` into the generated `tokens`: returns the text of that token
/// and whether generation stops here.
pub fn push_generated(
    tokenizer: &ByteTokenizer,
    tokens: &mut Vec<u32>,
    next_token: u32,
    min_new_tokens: usize,
    max_new_tokens: usize,
) -> (r: (String, bool))
    ensures
        final(tokens)@ == old(tokens)@.push(next_token),
        r.0@ == decoded_text(seq![next_token as u8]),
        r.0@.len() > 0,
        r.1 == generation_stops(
            final(tokens)@.len(),
            min_new_tokens as nat,
            max_new_tokens as nat,
            r.0@.last(),
        ),
{
    tokens.push(next_token);
    let one: Vec<u32> = vec![next_token];
    let decoded = tokenizer.decode(one.as_slice());
    assert(token_bytes(one@) =~= seq![next_token as u8]);
    let n = decoded.as_str().unicode_len();
    let last = decoded.as_str().get_char(n - 1);
    let stop = tokens.len() > max_new_tokens || (tokens.len() >= min_new_tokens && (last == '.'
        || last == '!' || last == '?'));
    (decoded, stop)
}

/// The code of `c` with ASCII upper-case letters mapped to lower case.
pub open spec fn ascii_lower_code(c: char) -> u32 {
    if 65 <= (c as u32) <= 90 {
        (c as u32 + 32) as u32
    } else {
        c as u32
    }
}

/// `s` and `word` are equal once ASCII letters are taken without case.
pub open spec fn equal_ignoring_ascii_case(s: Seq<char>, word: Seq<char>) -> bool {
    &&& s.len() == word.len()
    &&& forall|i: int| 0 <= i < s.len() ==> ascii_lower_code(#[trigger] s[i]) == ascii_lower_code(word[i])
}

/// `c` has the Unicode property White_Space.
pub open spec fn is_white_space(c: char) -> bool {
    let u = c as u32;
    ||| 9 <= u <= 13
    ||| u == 32
    ||| u == 0x85
    ||| u == 0xa0
    ||| u == 0x1680
    ||| 0x2000 <= u <= 0x200a
    ||| u == 0x2028
    ||| u == 0x2029
    ||| u == 0x202f
    ||| u == 0x205f
    ||| u == 0x3000
}

/// `s` without its leading white space.
pub open spec fn trim_start(s: Seq<char>) -> Seq<char>
    decreases s.len(),
{
    if s.len() > 0 && is_white_space(s[0]) {
        trim_start(s.drop_first())
    } else {
        s
    }
}

/// `s` without its trailing white space.
pub open spec fn trim_end(s: Seq<char>) -> Seq<char>
    decreases s.len(),
{
    if s.len() > 0 && is_white_space(s.last()) {
        trim_end(s.drop_last())
    } else {
        s
    }
}

/// `s` without its leading and trailing white space.
pub open spec fn trimmed(s: Seq<char>) -> Seq<char> {
    trim_end(trim_start(s))
}

/// Calls `str::trim`.
/// Trusted: the result is the text without its leading and trailing characters of the Unicode
/// property White_Space, as the documentation of `str::trim` says.
#[verifier::external_body]
fn trim_text(s: &str) -> (t: &str)
    ensures
        t@ == trimmed(s@),
{
    s.trim()
}

fn ascii_lower(c: char) -> (r: u32)
    ensures
        r == ascii_lower_code(c),
{
    let code = c as u32;
    if 65 <= code && code <= 90 {
        code + 32
    } else {
        code
    }
}

/// Compares `s` with `word`, ASCII letters taken without case.
fn eq_ignoring_ascii_case(s: &str, word: &str) -> (r: bool)
    ensures
        r == equal_ignoring_ascii_case(s@, word@),
{
    let n = s.unicode_len();
    if n != word.unicode_len() {
        return false;
    }
    let mut i: usize = 0;
    while i < n
        invariant
            n == s@.len(),
            n == word@.len(),
            i <= n,
            forall|j: int| 0 <= j < i ==> ascii_lower_code(#[trigger] s@[j]) == ascii_lower_code(word@[j]),
        decreases n - i,
    {
        if ascii_lower(s.get_char(i)) != ascii_lower(word.get_char(i)) {
            return false;
        }
        i = i + 1;
    }
    true
}

/// What a line typed into the chat asks for.
pub enum ChatInput {
    /// End the chat.
    Quit,
    /// Nothing was typed: ask again.
    Skip,
    /// Continue this text.
    Prompt(String),
}

/// Reads a chat line: without surrounding whitespace, "quit" or "exit" in any ASCII case ends
/// the chat, an empty line is skipped, and anything else is a prompt.
pub fn read_chat_input(line: &str) -> (r: ChatInput)
    ensures
        (equal_ignoring_ascii_case(trimmed(line@), "quit"@) || equal_ignoring_ascii_case(
            trimmed(line@),
            "exit"@,
        )) ==> r is Quit,
        !(equal_ignoring_ascii_case(trimmed(line@), "quit"@) || equal_ignoring_ascii_case(
            trimmed(line@),
            "exit"@,
        )) ==> (if trimmed(line@).len() == 0 {
            r is Skip
        } else {
            r matches ChatInput::Prompt(p) && p@ == trimmed(line@)
        }),
{
    let input = trim_text(line);
    if eq_ignoring_ascii_case(input, "quit") || eq_ignoring_ascii_case(input, "exit") {
        return ChatInput::Quit;
    }
    if input.unicode_len() == 0 {
        return ChatInput::Skip;
    }
    ChatInput::Prompt(input.to_owned())
}

} // verus!
