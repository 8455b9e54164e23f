use crabformer::generate::{padded_context, push_generated, read_chat_input, ChatInput};
use crabformer::tokenizer::ByteTokenizer;

#[test]
fn context_is_padded_at_the_start() {
    assert_eq!(padded_context(&[1, 2, 3], 5), vec![0, 0, 1, 2, 3]);
    assert_eq!(padded_context(&[1, 2, 3, 4], 2), vec![3, 4]);
    assert_eq!(padded_context(&[], 2), vec![0, 0]);
}

#[test]
fn generation_stops_at_stop_character_after_minimum() {
    let t = ByteTokenizer;
    let mut tokens = vec![104, 105];
    let (piece, stop) = push_generated(&t, &mut tokens, 46, 3, 10);
    assert_eq!(piece, ".");
    assert!(stop);
    assert_eq!(tokens, vec![104, 105, 46]);

    let mut tokens = vec![104, 105];
    let (_, stop) = push_generated(&t, &mut tokens, 33, 5, 10);
    assert!(!stop);
    let (_, stop) = push_generated(&t, &mut tokens, 120, 1, 10);
    assert!(!stop);
}

#[test]
fn generation_stops_past_maximum() {
    let t = ByteTokenizer;
    let mut tokens = vec![1, 2, 3];
    let (piece, stop) = push_generated(&t, &mut tokens, 200, 100, 3);
    assert_eq!(piece, "\u{FFFD}");
    assert!(stop);
}

#[test]
fn chat_lines_are_read() {
    assert!(matches!(read_chat_input("  QuIt \n"), ChatInput::Quit));
    assert!(matches!(read_chat_input("exit"), ChatInput::Quit));
    assert!(matches!(read_chat_input(" \t\n"), ChatInput::Skip));
    match read_chat_input(" hi there \n") {
        ChatInput::Prompt(p) => assert_eq!(p, "hi there"),
        _ => panic!("expected a prompt"),
    }
    assert!(matches!(read_chat_input("quitting"), ChatInput::Prompt(_)));
}
