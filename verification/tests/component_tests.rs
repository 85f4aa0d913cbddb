use lolcompiler::chars::{escape_chars, split_words, trim_chars};
use lolcompiler::htmlgen::{Frag, Html};
use lolcompiler::lexer::Lexer;
use lolcompiler::parser::{FrontEnd, Parser};
use lolcompiler::scope::Scope;
use lolcompiler::token::{TokKind, Token};

fn cv(s: &str) -> Vec<char> {
    let mut v = Vec::new();
    for c in s.chars() {
        v.push(c);
    }
    v
}

fn sv(v: &[char]) -> String {
    let mut s = String::new();
    for c in v {
        s.push(*c);
    }
    s
}

#[test]
fn lexer_produces_tags_keywords_and_text() {
    let mut lex = Lexer::new("#HAI title Words #I HAZ #MKAY");
    assert!(matches!(lex.next_token(), Ok(Token::HashHai)));
    assert!(matches!(lex.next_token(), Ok(Token::Title)));
    match lex.next_token() {
        Ok(Token::Text(t)) => assert_eq!(sv(&t), "Words"),
        _ => panic!("expected free text"),
    }
    assert!(matches!(lex.next_token(), Ok(Token::HashIHaz)));
    assert!(matches!(lex.next_token(), Ok(Token::HashMKay)));
    assert!(matches!(lex.next_token(), Ok(Token::Eof)));
}

#[test]
fn lexer_reads_verbatim_text_until_tag() {
    let mut lex = Lexer::new("  \"free text, 42!\nmore  #MKAY");
    match lex.next_token() {
        Ok(Token::Text(t)) => assert_eq!(sv(&t), "\"free text, 42!\nmore"),
        _ => panic!("expected free text"),
    }
    assert!(matches!(lex.next_token(), Ok(Token::HashMKay)));
}

#[test]
fn lexer_reads_url_like_words() {
    let mut lex = Lexer::new("a1:b.c/d_e #MKAY");
    match lex.next_token() {
        Ok(Token::Text(t)) => assert_eq!(sv(&t), "a1:b.c/d_e"),
        _ => panic!("expected a word token"),
    }
    assert!(matches!(lex.next_token(), Ok(Token::HashMKay)));
}

#[test]
fn lexer_rejects_unknown_tag() {
    let mut lex = Lexer::new("#WAT");
    assert!(lex.next_token().is_err());
}

#[test]
fn token_kind_and_is_text() {
    assert!(Token::Text(cv("x")).is_text());
    assert!(!Token::HashHai.is_text());
    assert_eq!(Token::HashGimmeh.kind(), TokKind::Gimmeh);
    assert_eq!(Token::Eof.kind(), TokKind::Eof);
}

#[test]
fn scope_defines_resolves_and_shadows() {
    let mut sc = Scope::new();
    sc.define(&cv("a"), cv("one"));
    assert_eq!(sc.resolve(&cv("a")).map(|v| sv(&v)), Some("one".to_string()));
    sc.push();
    assert_eq!(sc.resolve(&cv("a")).map(|v| sv(&v)), Some("one".to_string()));
    sc.define(&cv("a"), cv("two"));
    assert_eq!(sc.resolve(&cv("a")).map(|v| sv(&v)), Some("two".to_string()));
    sc.define(&cv("a"), cv("three"));
    assert_eq!(sc.resolve(&cv("a")).map(|v| sv(&v)), Some("three".to_string()));
    sc.pop();
    assert_eq!(sc.resolve(&cv("a")).map(|v| sv(&v)), Some("one".to_string()));
    assert!(sc.resolve(&cv("b")).is_none());
}

#[test]
fn scope_keeps_the_global_frame_on_unmatched_pop() {
    let mut sc = Scope::new();
    sc.define(&cv("a"), cv("one"));
    sc.pop();
    sc.pop();
    assert_eq!(sc.resolve(&cv("a")).map(|v| sv(&v)), Some("one".to_string()));
}

#[test]
fn builder_synthesizes_an_empty_body() {
    let mut h = Html::new();
    h.begin_html();
    let out = h.finish();
    assert_eq!(out, "<!doctype html>\n<html>\n<body>\n</body>\n</html>");
}

#[test]
fn builder_closes_an_open_body_once() {
    let mut h = Html::new();
    h.begin_html();
    h.begin_body();
    h.begin_body();
    h.text(&cv("red blue"));
    let out = h.finish();
    assert_eq!(out, "<!doctype html>\n<html>\n<body>\nred\nblue\n</body>\n</html>");
}

#[test]
fn builder_skips_synthetic_close_after_raw_body_close() {
    let mut h = Html::new();
    h.begin_html();
    h.begin_body();
    h.push(Frag::BodyClose);
    let out = h.finish();
    assert_eq!(out, "<!doctype html>\n<html>\n<body>\n</body>\n</html>");
}

#[test]
fn builder_paragraph_switches_rendering_mode() {
    let mut h = Html::new();
    h.begin_html();
    h.begin_p();
    h.text(&cv("red blue"));
    h.end_p();
    h.text(&cv("red blue"));
    h.end_body();
    let out = h.finish();
    assert_eq!(
        out,
        "<!doctype html>\n<html>\n<body>\n<p>\nred blue\n</p>\nred\nblue\n</body>\n</html>"
    );
}

#[test]
fn builder_head_title_and_inline_elements() {
    let mut h = Html::new();
    h.begin_html();
    h.begin_head();
    h.title(&cv("  T  "));
    h.end_head();
    h.begin_body();
    h.bold(&cv(" b "));
    h.italics(&cv(" i "));
    h.br();
    h.comment(&cv(" c "));
    h.push(Frag::UlOpen);
    h.push(Frag::UlClose);
    let out = h.finish();
    assert_eq!(
        out,
        "<!doctype html>\n<html>\n<head>\n<title>T</title>\n</head>\n<body>\n<b>b</b>\n<i>i</i>\n<br>\n<!-- c -->\n<ul>\n</ul>\n</body>\n</html>"
    );
}

#[test]
fn escape_replaces_the_five_specials() {
    let out = escape_chars(&cv("a&b<c>d\"e'f"));
    assert_eq!(sv(&out), "a&amp;b&lt;c&gt;d&quot;e&#39;f");
}

#[test]
fn trim_and_split_words() {
    assert_eq!(sv(&trim_chars(&cv("  a b  "))), "a b");
    assert_eq!(sv(&trim_chars(&cv("   "))), "");
    let words = split_words(&cv("  one  two\tthree "));
    let joined: Vec<String> = words.iter().map(|w| sv(w)).collect();
    assert_eq!(joined, vec!["one", "two", "three"]);
}

#[test]
fn parser_drives_a_compilation() {
    let mut p = Parser::new("#HAI hello #KTHXBYE").unwrap();
    p.parse_lolcode().unwrap();
    let out = p.into_html();
    assert_eq!(out, "<!doctype html>\n<html>\n<body>\nhello\n</body>\n</html>");
}

#[test]
fn front_end_runs_a_compilation() {
    let out = FrontEnd::new("#HAI hello #KTHXBYE").run().unwrap();
    assert_eq!(out, "<!doctype html>\n<html>\n<body>\nhello\n</body>\n</html>");
}
