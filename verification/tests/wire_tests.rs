use rustacor::wire::{push_word, word_at};

#[test]
fn push_word_puts_the_low_byte_first() {
    let mut out = Vec::new();
    push_word(&mut out, 0x1234);
    assert_eq!(out, vec![0x34, 0x12]);
    push_word(&mut out, 0x00FF);
    push_word(&mut out, 0xFF00);
    assert_eq!(out, vec![0x34, 0x12, 0xFF, 0x00, 0x00, 0xFF]);
}

#[test]
fn word_at_reads_the_low_byte_first() {
    let image = [0x34u8, 0x12, 0xFF, 0x00, 0x00, 0xFF, 0x01];
    assert_eq!(word_at(&image, 0), 0x1234);
    assert_eq!(word_at(&image, 1), 0x00FF);
    assert_eq!(word_at(&image, 2), 0xFF00);
}

#[test]
fn words_survive_writing_and_reading() {
    let words = [0u16, 1, 255, 256, 0x7FFF, 0x8000, 0xABCD, 0xFFFF];
    let mut out = Vec::new();
    for w in words {
        push_word(&mut out, w);
    }
    assert_eq!(out.len(), 16);
    for (i, w) in words.iter().enumerate() {
        assert_eq!(word_at(&out, i), *w);
    }
}
