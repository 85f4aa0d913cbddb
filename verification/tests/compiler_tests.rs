use lolcompiler::compile;
use lolcompiler::error::ErrorKind;

#[test]
fn deterministic_output() {
    let src = "#HAI #MAEK HEAD #GIMMEH TITLE The Simpsons #MKAY #OIC red blue #KTHXBYE";
    let a = compile(src).unwrap();
    let b = compile(src).unwrap();
    assert_eq!(a, b);
}

#[test]
fn title_without_head_is_discarded() {
    let out = compile("#HAI #GIMMEH TITLE hello world #MKAY #KTHXBYE").unwrap();
    assert!(!out.contains("<title>"));
    assert!(!out.contains("</title>"));
    assert_eq!(out, "<!doctype html>\n<html>\n<body>\n</body>\n</html>");
}

#[test]
fn head_with_title() {
    let out = compile("#HAI #MAEK HEAD #GIMMEH TITLE The Simpsons #MKAY #OIC #KTHXBYE").unwrap();
    assert_eq!(
        out,
        "<!doctype html>\n<html>\n<head>\n<title>The Simpsons</title>\n</head>\n<body>\n</body>\n</html>"
    );
}

#[test]
fn paragraph_variable_definition_and_use() {
    let out =
        compile("#HAI #MAEK PARAGRAF #I HAZ X #IT IZ hi #MKAY #LEMME SEE X #MKAY #OIC #KTHXBYE")
            .unwrap();
    assert_eq!(out, "<!doctype html>\n<html>\n<body>\n<p>\nhi\n</p>\n</body>\n</html>");
    assert!(out.contains("hi"));
}

#[test]
fn undefined_variable_is_a_semantic_error() {
    let r = compile("#HAI #LEMME SEE Y #MKAY #KTHXBYE");
    match r {
        Err(e) => {
            assert_eq!(e.kind, ErrorKind::Semantic);
            assert_eq!(e.describe(), "static semantic error");
        }
        Ok(_) => panic!("an undefined variable must fail the compilation"),
    }
}

#[test]
fn sibling_paragraph_cannot_see_variable() {
    let r = compile(
        "#HAI #MAEK PARAGRAF #I HAZ X #IT IZ hi #MKAY #OIC \
         #MAEK PARAGRAF #LEMME SEE X #MKAY #OIC #KTHXBYE",
    );
    match r {
        Err(e) => assert_eq!(e.kind, ErrorKind::Semantic),
        Ok(_) => panic!("a sibling paragraph must not see the definition"),
    }
}

#[test]
fn free_text_is_word_per_line_outside_paragraphs() {
    let out = compile("#HAI red blue #KTHXBYE").unwrap();
    assert_eq!(out, "<!doctype html>\n<html>\n<body>\nred\nblue\n</body>\n</html>");
}

#[test]
fn free_text_is_one_fragment_inside_a_paragraph() {
    let out = compile("#HAI #MAEK PARAGRAF red blue #OIC #KTHXBYE").unwrap();
    assert_eq!(out, "<!doctype html>\n<html>\n<body>\n<p>\nred blue\n</p>\n</body>\n</html>");
}

#[test]
fn audio_source_is_escaped() {
    let out = compile("#HAI #GIMMEH SOUNDZ \"a&b.mp3 #MKAY #KTHXBYE").unwrap();
    assert!(out.contains("<audio controls><source src=\"&quot;a&amp;b.mp3\" /></audio>"));
    assert!(!out.contains("\"a&b.mp3"));
}

#[test]
fn video_source_is_escaped() {
    let out = compile("#HAI #GIMMEH VIDZ \"a&b.mp4 #MKAY #KTHXBYE").unwrap();
    assert!(out.contains(
        "<iframe src=\"&quot;a&amp;b.mp4\" allowfullscreen loading=\"lazy\"></iframe>"
    ));
}

#[test]
fn bold_and_italics() {
    let out = compile("#HAI #GIMMEH BOLD Hi there #MKAY #GIMMEH ITALICS so soft #MKAY #KTHXBYE")
        .unwrap();
    assert!(out.contains("<b>Hi there</b>"));
    assert!(out.contains("<i>so soft</i>"));
}

#[test]
fn keywords_are_case_insensitive() {
    let out = compile("#hai #gimmeh bold Hi #mkay #kthxbye").unwrap();
    assert!(out.contains("<b>Hi</b>"));
}

#[test]
fn newline_element() {
    let out = compile("#HAI #GIMMEH NEWLINE #MKAY #KTHXBYE").unwrap();
    assert_eq!(out, "<!doctype html>\n<html>\n<body>\n<br>\n</body>\n</html>");
}

#[test]
fn list_with_items() {
    let out = compile(
        "#HAI #MAEK LIST #GIMMEH ITEM one #MKAY #GIMMEH ITEM two #MKAY #OIC #KTHXBYE",
    )
    .unwrap();
    assert_eq!(
        out,
        "<!doctype html>\n<html>\n<body>\n<ul>\n<li>\none\n</li>\n<li>\ntwo\n</li>\n</ul>\n</body>\n</html>"
    );
}

#[test]
fn comment_before_body() {
    let out = compile("#HAI #OBTW hello there #TLDR #KTHXBYE").unwrap();
    assert_eq!(
        out,
        "<!doctype html>\n<html>\n<!-- hello there -->\n<body>\n</body>\n</html>"
    );
}

#[test]
fn top_level_variable_keeps_spaces() {
    let out = compile("#HAI #I HAZ A #IT IZ x y #MKAY #LEMME SEE A #MKAY #KTHXBYE").unwrap();
    assert!(out.contains("\nx y\n"));
}

#[test]
fn inner_definition_shadows_and_expires() {
    let out = compile(
        "#HAI #I HAZ A #IT IZ outer #MKAY \
         #MAEK PARAGRAF #I HAZ A #IT IZ inner #MKAY #LEMME SEE A #MKAY #OIC \
         #LEMME SEE A #MKAY #KTHXBYE",
    )
    .unwrap();
    assert!(out.contains("<p>\ninner\n</p>"));
    assert!(out.contains("</p>\nouter\n</body>"));
}

#[test]
fn unknown_tag_is_a_lexical_error() {
    let r = compile("#HAI #BOGUS #KTHXBYE");
    match r {
        Err(e) => assert_eq!(e.kind, ErrorKind::Lexical),
        Ok(_) => panic!("an unknown tag must fail the compilation"),
    }
}

#[test]
fn bad_second_tag_word_is_a_lexical_error() {
    let r = compile("#HAI #I HAX #KTHXBYE");
    match r {
        Err(e) => assert_eq!(e.kind, ErrorKind::Lexical),
        Ok(_) => panic!("a bad second tag word must fail the compilation"),
    }
}

#[test]
fn maek_without_construct_is_a_syntax_error() {
    let r = compile("#HAI #MAEK #KTHXBYE");
    match r {
        Err(e) => assert_eq!(e.kind, ErrorKind::Syntax),
        Ok(_) => panic!("#MAEK must be followed by HEAD, PARAGRAF or LIST"),
    }
}

#[test]
fn missing_program_end_is_a_syntax_error() {
    let r = compile("#HAI red");
    match r {
        Err(e) => assert_eq!(e.kind, ErrorKind::Syntax),
        Ok(_) => panic!("a program must end with #KTHXBYE"),
    }
}

#[test]
fn missing_program_start_is_a_syntax_error() {
    let r = compile("red #KTHXBYE");
    match r {
        Err(e) => assert_eq!(e.kind, ErrorKind::Syntax),
        Ok(_) => panic!("a program must start with #HAI"),
    }
}

#[test]
fn stray_mkay_is_tolerated() {
    let out = compile("#HAI #MKAY #KTHXBYE").unwrap();
    assert_eq!(out, "<!doctype html>\n<html>\n<body>\n</body>\n</html>");
}

#[test]
fn embedded_line_breaks_become_spaces() {
    let out = compile("#HAI 1a b\nc #KTHXBYE").unwrap();
    assert_eq!(out, "<!doctype html>\n<html>\n<body>\n1a\nb\nc\n</body>\n</html>");
}

#[test]
fn empty_program_has_an_empty_body() {
    let out = compile("#HAI #KTHXBYE").unwrap();
    assert_eq!(out, "<!doctype html>\n<html>\n<body>\n</body>\n</html>");
}
