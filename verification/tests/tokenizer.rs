use crabformer::tokenizer::ByteTokenizer;

#[test]
fn encode_gives_utf8_bytes() {
    let t = ByteTokenizer;
    assert_eq!(t.encode("héllo"), vec![104, 195, 169, 108, 108, 111]);
    assert_eq!(t.encode(""), Vec::<u32>::new());
}

#[test]
fn decode_of_encode_gives_text_back() {
    let t = ByteTokenizer;
    for text in ["hello world", "héllo 🦀!", "", "a\nb"] {
        assert_eq!(t.decode(&t.encode(text)), text);
    }
}

#[test]
fn tokens_are_below_vocab_size() {
    let t = ByteTokenizer;
    assert_eq!(t.vocab_size(), 256);
    assert!(t.encode("ÿ€𝄞").iter().all(|&x| (x as usize) < t.vocab_size()));
}

#[test]
fn decode_keeps_low_byte_of_each_token() {
    let t = ByteTokenizer;
    assert_eq!(t.decode(&[256 + 65, 66]), "AB");
}

#[test]
fn decode_replaces_invalid_bytes() {
    let t = ByteTokenizer;
    assert_eq!(t.decode(&[200]), "\u{FFFD}");
    assert_eq!(t.decode(&[104, 255, 105]), "h\u{FFFD}i");
}
