use tundra::text::{chars_of, split_words, whitespace};
use tundra::token::{lex, Token};

fn text(s: &str) -> Token {
    Token::Text(s.to_string())
}

fn tag(s: &str) -> Token {
    Token::Tag(s.to_string())
}

fn markup_of(tokens: &[Token]) -> String {
    let mut out = String::new();
    for token in tokens {
        match token {
            Token::Text(body) => out.push_str(body),
            Token::Tag(body) => {
                out.push('<');
                out.push_str(body);
                out.push('>');
            }
        }
    }
    out
}

#[test]
fn whitespace_agrees_with_std_on_every_character() {
    for code in 0..=0x10FFFFu32 {
        if let Some(c) = char::from_u32(code) {
            assert_eq!(whitespace(c), c.is_whitespace(), "U+{:04X}", code);
        }
    }
}

#[test]
fn split_words_drops_all_whitespace() {
    let words = split_words(&chars_of("  one\ttwo \n three  "));
    assert_eq!(words, vec!["one".to_string(), "two".to_string(), "three".to_string()]);
}

#[test]
fn split_words_of_blank_text_is_empty() {
    assert!(split_words(&chars_of("")).is_empty());
    assert!(split_words(&chars_of(" \n\t ")).is_empty());
}

#[test]
fn split_words_splits_on_unicode_whitespace() {
    let words = split_words(&chars_of("a\u{00A0}b\u{3000}c\u{2003}d"));
    assert_eq!(words, vec!["a".to_string(), "b".to_string(), "c".to_string(), "d".to_string()]);
}

#[test]
fn split_words_agrees_with_std() {
    for s in ["", "x", " x", "x ", "two words", "\ttabs\tand\nlines\r\n", "é ü  ñ"] {
        let expected: Vec<String> = s.split_whitespace().map(|w| w.to_string()).collect();
        assert_eq!(split_words(&chars_of(s)), expected);
    }
}

#[test]
fn lex_paragraph() {
    assert_eq!(lex("<p>a</p>"), vec![tag("p"), text("a"), tag("/p")]);
}

#[test]
fn lex_empty_source_has_no_tokens() {
    assert_eq!(lex(""), Vec::<Token>::new());
}

#[test]
fn lex_keeps_whitespace_and_attributes_verbatim() {
    assert_eq!(
        lex("<a href=\"x\"> hi  there </a>"),
        vec![tag("a href=\"x\""), text(" hi  there "), tag("/a")]
    );
}

#[test]
fn lex_emits_empty_tag_but_no_empty_text() {
    assert_eq!(lex("<><b></b>"), vec![tag(""), tag("b"), tag("/b")]);
}

#[test]
fn lex_drops_text_after_the_last_bracket() {
    assert_eq!(lex("<p>a</p>tail"), vec![tag("p"), text("a"), tag("/p")]);
    assert_eq!(lex("no tags at all"), Vec::<Token>::new());
}

#[test]
fn lex_does_not_nest_brackets() {
    assert_eq!(lex("<a<b>"), vec![text("a"), tag("b")]);
    assert_eq!(lex("a>b>"), vec![tag("a"), tag("b")]);
    assert_eq!(lex("<a title=\"x<y\">"), vec![text("a title=\"x"), tag("y\"")]);
}

#[test]
fn lex_does_not_decode_entities() {
    assert_eq!(lex("<p>a &amp; b</p>"), vec![tag("p"), text("a &amp; b"), tag("/p")]);
}

#[test]
fn tokens_of_balanced_markup_reconstruct_it() {
    for source in [
        "",
        "<p>a</p>",
        "<body><h1>Hi</h1><p>one two</p></body>",
        "text before<b>bold</b> and after<br>",
        "<><a b=c></a>",
    ] {
        assert_eq!(markup_of(&lex(source)), source);
    }
}

#[test]
fn tokens_of_markup_with_trailing_text_lose_the_tail() {
    assert_eq!(markup_of(&lex("<p>a</p>b")), "<p>a</p>");
}
