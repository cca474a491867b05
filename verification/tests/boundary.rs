use pinyin_tokens::{
    free_array, free_pointer, to_pinyin, to_pinyin_array, Mode, PinyinArray, PinyinStr,
};

#[test]
fn joined_buffer_for_three_known_characters() {
    let out = to_pinyin("中国人", 0, 0, b'-', 0, Mode::Plain, 0);
    assert_eq!(out.data, b"zhong-guo-ren");
    assert_eq!(out.len, 13);
    assert!(out.owned);
    assert_eq!(out.convert, 0);
}

#[test]
fn joined_buffer_under_split_and_merge() {
    assert_eq!(to_pinyin("a中b", 0, 0, b'-', 0, Mode::Plain, 0).data, b"a-zhong-b");
    assert_eq!(to_pinyin("a中b", 0, 0, b'-', 1, Mode::Plain, 0).data, b"a-zhong-b");
}

#[test]
fn empty_text_gives_empty_buffer_and_empty_array() {
    for ignore in [0, 1] {
        for multi in [0, 1] {
            for merge in [0, 1] {
                for slug in [0, 1] {
                    let out = to_pinyin("", ignore, multi, b'-', merge, Mode::Plain, slug);
                    assert_eq!(out.len, 0);
                    assert!(out.data.is_empty());
                    assert!(out.owned);
                }
                let array = to_pinyin_array("", ignore, multi, merge, Mode::Tone);
                assert_eq!(array.len, 0);
                assert!(array.array.is_empty());
            }
        }
    }
}

#[test]
fn only_the_number_one_sets_a_flag() {
    assert_eq!(to_pinyin("a中", 2, 0, b'-', 0, Mode::Plain, 0).data, b"a-zhong");
    assert_eq!(to_pinyin("a中", -1, 0, b'-', 0, Mode::Plain, 0).data, b"a-zhong");
    assert_eq!(to_pinyin("a中", 1, 0, b'-', 0, Mode::Plain, 0).data, b"zhong");
    assert_eq!(to_pinyin("中", 0, 2, b'-', 0, Mode::Plain, 0).data, b"zhong");
    assert_eq!(to_pinyin("中", 0, 1, b'-', 0, Mode::Plain, 0).data, b"zhong:zhong");
    assert_eq!(to_pinyin("ab中", 0, 0, b'-', 7, Mode::Plain, 0).data, b"a-b-zhong");
    assert_eq!(to_pinyin("A 中", 0, 0, b'-', 0, Mode::Plain, 3).data, "A- -zhong".as_bytes());
}

#[test]
fn slug_is_put_into_lower_case() {
    let out = to_pinyin("Hello World! 中国", 0, 0, b'-', 0, Mode::Plain, 1);
    assert_eq!(out.data, b"hello-world-zhong-guo");
    assert_eq!(out.len, 21);
    assert_eq!(to_pinyin("ABC", 0, 0, b'-', 1, Mode::Plain, 1).data, b"abc");
}

#[test]
fn slug_with_every_reading_is_lowered_but_not_filtered() {
    assert_eq!(to_pinyin("A! 中", 0, 1, b'-', 1, Mode::Plain, 1).data, b"a! -zhong:zhong");
}

#[test]
fn separator_above_ascii_is_one_character_of_two_bytes() {
    let out = to_pinyin("中国", 0, 0, 0xB7, 0, Mode::Plain, 0);
    assert_eq!(out.data, "zhong·guo".as_bytes());
    assert_eq!(out.len, 10);
}

#[test]
fn array_of_tokens() {
    let array = to_pinyin_array("a中b", 0, 0, 1, Mode::Plain);
    assert_eq!(array.len, 3);
    assert_eq!(array.array.len(), 3);
    assert_eq!(array.array[0].data, b"a");
    assert_eq!(array.array[0].convert, 0);
    assert_eq!(array.array[1].data, b"zhong");
    assert_eq!(array.array[1].convert, 1);
    assert_eq!(array.array[2].data, b"b");
    assert_eq!(array.array[2].convert, 0);
}

#[test]
fn array_flags() {
    assert_eq!(to_pinyin_array("a中b", 1, 0, 1, Mode::Plain).len, 1);
    assert_eq!(to_pinyin_array("ab中", 0, 0, 0, Mode::Plain).len, 3);
    assert_eq!(to_pinyin_array("ab中", 0, 0, 1, Mode::Plain).len, 2);
    let every = to_pinyin_array("中", 0, 1, 0, Mode::Tone);
    assert_eq!(every.array[0].data, "zhōng:zhòng".as_bytes());
    let first = to_pinyin_array("中", 0, 5, 0, Mode::Tone);
    assert_eq!(first.array[0].data, "zhōng".as_bytes());
}

#[test]
fn from_string_takes_the_bytes() {
    let buffer = PinyinStr::from_string(String::from("zhōng"), 1);
    assert_eq!(buffer.data, "zhōng".as_bytes());
    assert_eq!(buffer.len, 6);
    assert!(buffer.owned);
    assert_eq!(buffer.convert, 1);
    let empty = PinyinStr::from_string(String::new(), 0);
    assert_eq!(empty.len, 0);
    assert!(empty.owned);
}

#[test]
fn default_buffer_is_empty_and_not_owned() {
    let buffer = PinyinStr::default();
    assert_eq!(buffer.len, 0);
    assert!(buffer.data.is_empty());
    assert!(!buffer.owned);
    assert_eq!(buffer.convert, 0);
}

#[test]
fn free_empties_an_owned_buffer_once() {
    let mut buffer = PinyinStr::from_string(String::from("ren"), 1);
    buffer.free();
    assert_eq!(buffer.len, 0);
    assert!(buffer.data.is_empty());
    assert!(!buffer.owned);
    assert_eq!(buffer.convert, 1);
    buffer.free();
    assert_eq!(buffer.len, 0);
    assert!(!buffer.owned);
    assert_eq!(buffer.convert, 1);
}

#[test]
fn free_leaves_a_buffer_that_is_not_owned() {
    let mut buffer = PinyinStr::default();
    buffer.free();
    assert_eq!(buffer, PinyinStr::default());
}

#[test]
fn releasing_an_empty_handle_does_nothing() {
    let mut buffer: Option<PinyinStr> = None;
    free_pointer(&mut buffer);
    assert!(buffer.is_none());
    let mut array: Option<PinyinArray> = None;
    free_array(&mut array);
    assert!(array.is_none());
}

#[test]
fn releasing_empties_the_handle() {
    let mut buffer = Some(to_pinyin("中国", 0, 0, b'-', 0, Mode::Plain, 0));
    free_pointer(&mut buffer);
    assert!(buffer.is_none());
    free_pointer(&mut buffer);
    assert!(buffer.is_none());
    let mut array = Some(to_pinyin_array("中国", 0, 0, 0, Mode::Plain));
    free_array(&mut array);
    assert!(array.is_none());
    free_array(&mut array);
    assert!(array.is_none());
}

#[test]
fn freeing_an_array_empties_it() {
    let mut array = to_pinyin_array("a中b", 0, 0, 0, Mode::Plain);
    array.free();
    assert_eq!(array.len, 0);
    assert!(array.array.is_empty());
    array.free();
    assert_eq!(array.len, 0);
}

#[test]
fn from_vec_keeps_the_buffers() {
    let array = PinyinArray::from_vec(vec![
        PinyinStr::from_string(String::from("a"), 0),
        PinyinStr::from_string(String::from("zhong"), 1),
    ]);
    assert_eq!(array.len, 2);
    assert_eq!(array.array[1].data, b"zhong");
    assert_eq!(PinyinArray::from_vec(Vec::new()).len, 0);
}
