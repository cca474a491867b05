use pinyin_tokens::{to_convert, to_convert_array, to_pinyin, to_pinyin_array, Mode};

fn text_of(bytes: &[u8]) -> String {
    String::from_utf8(bytes.to_vec()).unwrap()
}

#[test]
fn ignoring_equals_taking_the_unknowns_out() {
    let with = "最快的php汉字转拼音rust库。";
    let without = "最快的汉字转拼音库";
    for merge in [0, 1] {
        for multi in [0, 1] {
            for slug in [0, 1] {
                let a = to_pinyin(with, 1, multi, b'-', merge, Mode::Tone, slug);
                let b = to_pinyin(without, 0, multi, b'-', 1 - merge, Mode::Tone, slug);
                assert_eq!(a, b);
            }
            let a = to_pinyin_array(with, 1, multi, merge, Mode::Tone);
            let b = to_pinyin_array(without, 0, multi, 1 - merge, Mode::Tone);
            assert_eq!(a, b);
            assert_eq!(a.len, 9);
            assert!(a.array.iter().all(|token| token.convert == 1));
        }
    }
}

#[test]
fn joined_text_splits_into_the_tokens() {
    let text = "最快的php汉字转拼音rust库。";
    for ignore in [0, 1] {
        for multi in [0, 1] {
            for merge in [0, 1] {
                let joined = text_of(&to_pinyin(text, ignore, multi, b' ', merge, Mode::Tone, 0).data);
                let array = to_pinyin_array(text, ignore, multi, merge, Mode::Tone);
                let cut: Vec<&str> = joined.split(' ').collect();
                let tokens: Vec<String> = array.array.iter().map(|t| text_of(&t.data)).collect();
                assert_eq!(cut, tokens);
            }
        }
    }
}

#[test]
fn a_token_with_the_separator_breaks_the_split() {
    let joined = text_of(&to_pinyin("a-b中", 0, 0, b'-', 1, Mode::Plain, 0).data);
    let array = to_pinyin_array("a-b中", 0, 0, 1, Mode::Plain);
    assert_eq!(joined, "a-b-zhong");
    assert_eq!(joined.split('-').count(), 3);
    assert_eq!(array.len, 2);
}

#[test]
fn slug_literals_are_letters_digits_and_separators() {
    let out = to_convert("Rust 2021: 最快的 (php) library—ok?", false, '-', false, Mode::Plain, true);
    assert_eq!(out, "Rust-2021-zui-kuai-de-php-libraryok");
    let tokens = to_convert_array("Rust 2021: 最快的", false, false, true, Mode::Plain);
    assert_eq!(tokens.len(), 4);
    for c in out.chars() {
        assert!(c.is_ascii_alphanumeric() || c == '-');
    }
}

#[test]
fn slug_text_never_holds_two_separators_in_a_row() {
    for text in ["a  b", "a   b", "a \t\n  b", " 中  国 ", "a - b", "最快的  php   汉字"] {
        let out = to_convert(text, false, '-', true, Mode::Plain, true);
        assert!(!out.contains("--"));
        let buffer = to_pinyin(text, 0, 0, b'-', 1, Mode::Plain, 1);
        assert!(!text_of(&buffer.data).contains("--"));
    }
    assert_eq!(text_of(&to_pinyin("a   b", 0, 0, b'-', 1, Mode::Plain, 1).data), "a-b");
    assert_eq!(text_of(&to_pinyin("A\tb", 0, 0, b'-', 1, Mode::Plain, 1).data), "a-b");
}

#[test]
fn no_buffer_of_the_array_is_empty() {
    let text = "最快的php汉字转拼音rust库。 ok";
    for ignore in [0, 1] {
        for multi in [0, 1] {
            for merge in [0, 1] {
                let array = to_pinyin_array(text, ignore, multi, merge, Mode::Letter);
                assert!(array.len > 0);
                assert!(array.array.iter().all(|token| token.len > 0 && !token.data.is_empty()));
            }
        }
    }
}

#[test]
fn all_readings_keep_the_shape_of_the_array() {
    let text = "还没php行长。";
    for merge in [0, 1] {
        let first = to_pinyin_array(text, 0, 0, merge, Mode::Tone);
        let every = to_pinyin_array(text, 0, 1, merge, Mode::Tone);
        assert_eq!(first.len, every.len);
        for (a, b) in first.array.iter().zip(every.array.iter()) {
            assert_eq!(a.convert, b.convert);
            if a.convert == 0 {
                assert_eq!(a, b);
            } else {
                assert!(text_of(&b.data).starts_with(&text_of(&a.data)));
            }
        }
    }
}

#[test]
fn one_reading_each_makes_both_forms_equal() {
    let text = "人国php汉字。";
    for merge in [0, 1] {
        assert_eq!(
            to_pinyin_array(text, 0, 0, merge, Mode::Tone),
            to_pinyin_array(text, 0, 1, merge, Mode::Tone)
        );
        assert_eq!(
            to_pinyin(text, 0, 0, b' ', merge, Mode::Tone, 0),
            to_pinyin(text, 0, 1, b' ', merge, Mode::Tone, 0)
        );
    }
}
