use kule::unicode::{
    linebreak_property, read_utf8, utf8_acc_cont_byte, wrap_mask, LinebreakTables, CONT_MASK, LINEBREAK_HARD,
    LINEBREAK_NONE, LINEBREAK_SOFT,
};

/// Tables with two classes: class 1 for the line feed, U+2028 and U+1F600,
/// class 0 for the rest. After a code point of class 1 the machine is in
/// state 1, where class 0 asks for a hard break and class 1 for a soft one.
fn tables() -> LinebreakTables {
    let mut low = vec![0u8; 0x800];
    low[0x0A] = 1;
    let mut root3 = vec![0u8; 0x400];
    root3[0x2028 >> 6] = 1;
    let mut child3 = vec![0u8; 128];
    child3[64 + (0x2028 & 0x3f)] = 1;
    let mut root4 = vec![0u8; 0x110];
    root4[0x1F600 >> 12] = 1;
    let mut mid4 = vec![0u8; 128];
    mid4[64 + ((0x1F600 >> 6) & 0x3f)] = 1;
    let mut leaves4 = vec![0u8; 128];
    leaves4[64 + (0x1F600 & 0x3f)] = 1;
    LinebreakTables {
        categories: 2,
        low,
        root3,
        child3,
        root4,
        mid4,
        leaves4,
        state_machine: vec![0x00, 0x01, 0xC0, 0x81],
    }
}

#[test]
fn classes_come_from_the_table_of_the_code_point() {
    let t = tables();
    assert_eq!(t.class('a'), 0);
    assert_eq!(t.class('\n'), 1);
    assert_eq!(t.class('\u{7FF}'), 0);
    assert_eq!(t.class('\u{800}'), 0);
    assert_eq!(t.class('\u{2028}'), 1);
    assert_eq!(t.class('\u{2029}'), 0);
    assert_eq!(t.class('\u{FFFF}'), 0);
    assert_eq!(t.class('\u{10000}'), 0);
    assert_eq!(t.class('\u{1F600}'), 1);
    assert_eq!(t.class('\u{1F601}'), 0);
    assert_eq!(t.class('\u{10FFFF}'), 0);
}

#[test]
fn line_feed_forces_a_break_before_the_next_character() {
    let t = tables();
    let mut state = 0u8;
    assert_eq!(linebreak_property(&mut state, 'a', &t), LINEBREAK_NONE);
    assert_eq!(state, 0);
    assert_eq!(linebreak_property(&mut state, '\n', &t), LINEBREAK_NONE);
    assert_eq!(state, 1);
    assert_eq!(linebreak_property(&mut state, 'b', &t), LINEBREAK_HARD);
    assert_eq!(state, 0);
    assert_eq!(linebreak_property(&mut state, 'c', &t), LINEBREAK_NONE);
    assert_eq!(state, 0);
}

#[test]
fn soft_break_keeps_the_low_bits_as_state() {
    let t = tables();
    let mut state = 0u8;
    assert_eq!(linebreak_property(&mut state, '\u{2028}', &t), LINEBREAK_NONE);
    assert_eq!(state, 1);
    assert_eq!(linebreak_property(&mut state, '\u{1F600}', &t), LINEBREAK_SOFT);
    assert_eq!(state, 1);
    assert_eq!(linebreak_property(&mut state, '\u{1F601}', &t), LINEBREAK_HARD);
    assert_eq!(state, 0);
}

#[test]
fn wrap_mask_combines_the_break_kinds() {
    assert_eq!(wrap_mask(true, true, true), LINEBREAK_HARD | LINEBREAK_SOFT);
    assert_eq!(wrap_mask(true, true, true), 3);
    assert_eq!(wrap_mask(true, false, true), LINEBREAK_HARD);
    assert_eq!(wrap_mask(true, true, false), LINEBREAK_SOFT);
    assert_eq!(wrap_mask(true, false, false), LINEBREAK_NONE);
}

#[test]
fn wrap_mask_is_empty_without_wrapping() {
    assert_eq!(wrap_mask(false, true, true), 0);
    assert_eq!(wrap_mask(false, false, true), 0);
    assert_eq!(wrap_mask(false, true, false), 0);
    assert_eq!(wrap_mask(false, false, false), 0);
}

#[test]
fn continuation_byte_adds_six_bits() {
    assert_eq!(CONT_MASK, 0x3F);
    assert_eq!(utf8_acc_cont_byte(0, 0x80), 0);
    assert_eq!(utf8_acc_cont_byte(0x03, 0xA9), 0xE9);
    assert_eq!(utf8_acc_cont_byte(1, 0xBF), 0x7F);
    assert_eq!(utf8_acc_cont_byte(u32::MAX, 0), 0xFFFF_FFC0);
}

#[test]
fn tables_are_checked_before_use() {
    let t = tables();
    assert!(t.is_valid());
    assert!(t.has_state(0));
    assert!(t.has_state(1));
    assert!(!t.has_state(2));
    assert!(!t.has_state(255));
    let mut short = tables();
    short.low.pop();
    assert!(!short.is_valid());
    let mut wild_class = tables();
    wild_class.leaves4[5] = 2;
    assert!(!wild_class.is_valid());
    let mut wild_block = tables();
    wild_block.root3[7] = 2;
    assert!(!wild_block.is_valid());
    let mut wild_state = tables();
    wild_state.state_machine[0] = 0x82;
    assert!(!wild_state.is_valid());
    let mut none = tables();
    none.categories = 0;
    assert!(!none.is_valid());
}

#[test]
fn characters_are_read_one_after_the_other() {
    let text = "a\u{E9}\u{20AC}\u{1F600}z";
    let mut offset = 0;
    assert_eq!(read_utf8(text, &mut offset), 'a');
    assert_eq!(offset, 1);
    assert_eq!(read_utf8(text, &mut offset), '\u{E9}');
    assert_eq!(offset, 3);
    assert_eq!(read_utf8(text, &mut offset), '\u{20AC}');
    assert_eq!(offset, 6);
    assert_eq!(read_utf8(text, &mut offset), '\u{1F600}');
    assert_eq!(offset, 10);
    assert_eq!(read_utf8(text, &mut offset), 'z');
    assert_eq!(offset, text.len());
}

#[test]
fn edges_of_each_encoding_length_are_read() {
    for ch in ['\0', '\u{7F}', '\u{80}', '\u{7FF}', '\u{800}', '\u{D7FF}', '\u{E000}', '\u{FFFF}', '\u{10000}', '\u{10FFFF}'] {
        let mut text = String::from("x");
        text.push(ch);
        let mut offset = 1;
        assert_eq!(read_utf8(&text, &mut offset), ch);
        assert_eq!(offset, 1 + ch.len_utf8());
    }
}
