use pinyin_tokens::segment::{ascii_alphanumeric, whitespace};
use pinyin_tokens::{
    collapse, join, match_mode, render_all, romanize, segment, Candidate, Mode, Policy, Segmenter,
    Token,
};

fn zhong() -> Candidate {
    Candidate {
        plain: "zhong",
        tone: "zhōng",
        tone_num: "zho1ng",
        tone_num_end: "zhong1",
        letter: "z",
    }
}

fn zhong_fourth() -> Candidate {
    Candidate {
        plain: "zhong",
        tone: "zhòng",
        tone_num: "zho4ng",
        tone_num_end: "zhong4",
        letter: "z",
    }
}

fn literal(text: &str) -> Token {
    Token::Literal(String::from(text))
}

fn converted(text: &str) -> Token {
    Token::Converted(String::from(text))
}

#[test]
fn mode_picks_the_form() {
    assert_eq!(match_mode(zhong(), Mode::Plain), "zhong");
    assert_eq!(match_mode(zhong(), Mode::Tone), "zhōng");
    assert_eq!(match_mode(zhong(), Mode::Letter), "z");
    assert_eq!(match_mode(zhong(), Mode::ToneNum), "zho1ng");
    assert_eq!(match_mode(zhong(), Mode::ToneNumEnd), "zhong1");
}

#[test]
fn mode_codes() {
    assert_eq!(Mode::Plain.code(), 1);
    assert_eq!(Mode::Tone.code(), 2);
    assert_eq!(Mode::Letter.code(), 3);
    assert_eq!(Mode::ToneNum.code(), 4);
    assert_eq!(Mode::ToneNumEnd.code(), 5);
    for n in 1..=5 {
        assert_eq!(Mode::from_code(n).unwrap().code(), n);
    }
    assert_eq!(Mode::from_code(0), None);
    assert_eq!(Mode::from_code(6), None);
    assert_eq!(Mode::from_code(255), None);
}

#[test]
fn readings_are_joined_by_colons() {
    assert_eq!(render_all(&vec![zhong(), zhong_fourth()], Mode::Tone), "zhōng:zhòng");
    assert_eq!(render_all(&vec![zhong(), zhong_fourth()], Mode::ToneNumEnd), "zhong1:zhong4");
    assert_eq!(render_all(&vec![zhong()], Mode::Letter), "z");
    assert_eq!(render_all(&Vec::new(), Mode::Plain), "");
}

#[test]
fn romanize_looks_the_character_up() {
    assert_eq!(romanize('中', false, Mode::Tone), Some(String::from("zhōng")));
    assert_eq!(romanize('中', true, Mode::Tone), Some(String::from("zhōng:zhòng")));
    assert_eq!(romanize('行', true, Mode::Plain), Some(String::from("xing:hang:heng:xing:hang")));
    assert_eq!(romanize('子', true, Mode::ToneNumEnd), Some(String::from("zi:zi3")));
    assert_eq!(romanize('a', false, Mode::Plain), None);
    assert_eq!(romanize('a', true, Mode::Plain), None);
    assert_eq!(romanize('。', false, Mode::Plain), None);
    assert_eq!(romanize('\u{10FFFF}', true, Mode::Plain), None);
}

#[test]
fn join_puts_the_separator_between() {
    let parts = vec![String::from("a"), String::from("zhong"), String::from("b")];
    assert_eq!(join(&parts, '-'), "a-zhong-b");
    assert_eq!(join(&parts, '·'), "a·zhong·b");
    assert_eq!(join(&vec![String::from("a")], '-'), "a");
    assert_eq!(join(&Vec::new(), '-'), "");
    assert_eq!(join(&vec![String::new(), String::new()], '-'), "-");
    assert_eq!(join(&vec![String::from("a"), String::new(), String::from("b")], '-'), "a--b");
}

#[test]
fn collapse_leaves_one_separator_of_each_run() {
    assert_eq!(collapse("", '-'), "");
    assert_eq!(collapse("-", '-'), "-");
    assert_eq!(collapse("--", '-'), "-");
    assert_eq!(collapse("---", '-'), "-");
    assert_eq!(collapse("----", '-'), "-");
    assert_eq!(collapse("-----", '-'), "-");
    assert_eq!(collapse("a--b", '-'), "a-b");
    assert_eq!(collapse("a---b", '-'), "a-b");
    assert_eq!(collapse("a-b--c-", '-'), "a-b-c-");
    assert_eq!(collapse("--a--", '-'), "-a-");
    assert_eq!(collapse("a--b---c----d", '-'), "a-b-c-d");
    assert_eq!(collapse("a--b", '_'), "a--b");
    assert_eq!(collapse("中··国", '·'), "中·国");
    assert_eq!(collapse("中···国", '·'), "中·国");
}

#[test]
fn collapse_leaves_no_pair_and_changes_nothing_else() {
    for text in ["", "-", "--", "---", "a--b---c----d", "-a-", "----a", "a-----", "a-b-c"] {
        let out = collapse(text, '-');
        assert!(!out.contains("--"));
        assert_eq!(collapse(&out, '-'), out);
        let kept: String = text.chars().filter(|c| *c != '-').collect();
        let left: String = out.chars().filter(|c| *c != '-').collect();
        assert_eq!(kept, left);
        if !text.contains("--") {
            assert_eq!(out, text);
        }
    }
}

#[test]
fn whitespace_is_what_unicode_lists() {
    for code in 0..=0x10FFFF_u32 {
        if let Some(c) = char::from_u32(code) {
            assert_eq!(whitespace(c), c.is_whitespace());
        }
    }
}

#[test]
fn letters_and_digits_are_the_ascii_ones() {
    for code in 0..=0x10FFFF_u32 {
        if let Some(c) = char::from_u32(code) {
            assert_eq!(ascii_alphanumeric(c), c.is_ascii_alphanumeric());
        }
    }
}

#[test]
fn a_known_character_closes_the_run() {
    let merge = Policy { ignore_unknown: false, merge_unknown: true, slug: None };
    let mut walk = Segmenter::new();
    walk.unknown('a', merge);
    walk.unknown('b', merge);
    assert!(walk.tokens.is_empty());
    assert_eq!(walk.unknown, "ab");
    walk.known(String::from("zhong"));
    assert_eq!(walk.tokens, vec![literal("ab"), converted("zhong")]);
    assert_eq!(walk.unknown, "");
    walk.known(String::from("guo"));
    walk.unknown('c', merge);
    assert_eq!(
        walk.finish(),
        vec![literal("ab"), converted("zhong"), converted("guo"), literal("c")]
    );
}

#[test]
fn split_policy_emits_each_unknown_at_once() {
    let split = Policy { ignore_unknown: false, merge_unknown: false, slug: None };
    let mut walk = Segmenter::new();
    walk.unknown('a', split);
    walk.unknown('b', split);
    assert_eq!(walk.tokens, vec![literal("a"), literal("b")]);
    assert_eq!(walk.unknown, "");
    assert_eq!(walk.finish(), vec![literal("a"), literal("b")]);
}

#[test]
fn ignore_comes_before_the_other_fields() {
    for merge_unknown in [false, true] {
        for slug in [None, Some('-')] {
            let policy = Policy { ignore_unknown: true, merge_unknown, slug };
            let mut walk = Segmenter::new();
            walk.unknown('a', policy);
            walk.unknown(' ', policy);
            walk.known(String::from("ren"));
            walk.unknown('b', policy);
            assert_eq!(walk.finish(), vec![converted("ren")]);
        }
    }
}

#[test]
fn slug_policy_filters_the_run() {
    let slug = Policy { ignore_unknown: false, merge_unknown: false, slug: Some('_') };
    let mut walk = Segmenter::new();
    for c in "Ab 9!?\t-_é中z".chars() {
        walk.unknown(c, slug);
    }
    assert_eq!(walk.finish(), vec![literal("Ab_9_z")]);
}

#[test]
fn flush_closes_only_an_open_run() {
    let merge = Policy { ignore_unknown: false, merge_unknown: true, slug: None };
    let mut walk = Segmenter::new();
    walk.flush();
    assert!(walk.tokens.is_empty());
    walk.unknown('x', merge);
    walk.flush();
    walk.flush();
    assert_eq!(walk.tokens, vec![literal("x")]);
    assert!(Segmenter::new().finish().is_empty());
}

#[test]
fn token_text_and_tag() {
    assert_eq!(converted("ren").tag(), 1);
    assert_eq!(literal("x").tag(), 0);
    assert_eq!(converted("ren").into_text(), "ren");
    assert_eq!(literal("x").into_text(), "x");
}

#[test]
fn segment_walks_the_text() {
    let merge = Policy { ignore_unknown: false, merge_unknown: true, slug: None };
    assert_eq!(
        segment("ab中国cd", false, Mode::Plain, merge),
        vec![literal("ab"), converted("zhong"), converted("guo"), literal("cd")]
    );
    assert_eq!(
        segment("还", true, Mode::Plain, merge),
        vec![converted("hai:huan:fu")]
    );
    let slug = Policy { ignore_unknown: false, merge_unknown: false, slug: Some('-') };
    assert_eq!(
        segment("a b,中", false, Mode::Letter, slug),
        vec![literal("a-b"), converted("z")]
    );
    assert!(segment("", false, Mode::Plain, merge).is_empty());
}
