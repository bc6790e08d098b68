use treewalk::scanner::{scan, scan_chars, Scanned};
use treewalk::text::{chars_of, slice_of, spells, text_of};
use treewalk::token::{Token, TokenType};

fn kinds(out: &Scanned) -> Vec<TokenType> {
    out.tokens.iter().map(|t| t.token_type).collect()
}

fn messages(out: &Scanned) -> Vec<String> {
    out.diagnostics.iter().map(|d| d.message.clone()).collect()
}

#[test]
fn token_new_keeps_its_parts() {
    let t = Token::new(TokenType::NUMBER, "12".to_string(), vec!['1', '2'], 3, 4);
    assert_eq!(t.token_type, TokenType::NUMBER);
    assert_eq!(t.lexeme, "12");
    assert_eq!(t.literal, vec!['1', '2']);
    assert_eq!(t.line, 3);
    assert_eq!(t.index, 4);
    let u = t.clone();
    assert_eq!(u.lexeme, "12");
    assert_eq!(u.literal, vec!['1', '2']);
    assert_eq!(u.line, 3);
}

#[test]
fn text_and_characters_convert_both_ways() {
    assert_eq!(chars_of("a\u{e9}z"), vec!['a', '\u{e9}', 'z']);
    assert_eq!(text_of(&vec!['a', 'b', 'c']), "abc");
    assert_eq!(text_of(&vec![]), "");
    assert_eq!(slice_of(&vec!['a', 'b', 'c', 'd'], 1, 3), vec!['b', 'c']);
    assert!(spells(&vec!['v', 'a', 'r'], "var"));
    assert!(!spells(&vec!['v', 'a'], "var"));
    assert!(!spells(&vec!['v', 'a', 'r', 's'], "var"));
    assert!(!spells(&vec!['v', 'a', 'x'], "var"));
    assert!(spells(&vec![], ""));
}

#[test]
fn empty_source_gives_only_the_end_token() {
    let out = scan("");
    assert_eq!(kinds(&out), vec![TokenType::EOF]);
    assert_eq!(out.tokens[0].lexeme, "");
    assert!(out.tokens[0].literal.is_empty());
    assert!(out.diagnostics.is_empty());
    assert!(!out.exit);
}

#[test]
fn punctuation_scans_one_by_one() {
    let out = scan("(){},.-+;*/");
    assert_eq!(
        kinds(&out),
        vec![
            TokenType::LEFT_PAREN,
            TokenType::RIGHT_PAREN,
            TokenType::LEFT_BRACE,
            TokenType::RIGHT_BRACE,
            TokenType::COMMA,
            TokenType::DOT,
            TokenType::MINUS,
            TokenType::PLUS,
            TokenType::SEMICOLON,
            TokenType::STAR,
            TokenType::SLASH,
            TokenType::EOF,
        ]
    );
    assert_eq!(out.tokens[0].lexeme, "(");
    assert_eq!(out.tokens[0].literal, vec!['(']);
    assert_eq!(out.tokens[10].lexeme, "/");
}

#[test]
fn operators_take_a_following_equal_sign() {
    let out = scan("! != = == > >= < <=");
    assert_eq!(
        kinds(&out),
        vec![
            TokenType::BANG,
            TokenType::BANG_EQUAL,
            TokenType::EQUAL,
            TokenType::EQUAL_EQUAL,
            TokenType::GREATER,
            TokenType::GREATER_EQUAL,
            TokenType::LESS,
            TokenType::LESS_EQUAL,
            TokenType::EOF,
        ]
    );
    assert_eq!(out.tokens[1].lexeme, "!=");
    assert_eq!(out.tokens[1].literal, vec!['!']);
    assert_eq!(out.tokens[5].lexeme, ">=");
    assert_eq!(out.tokens[7].index, 7);
}

#[test]
fn three_equal_signs_are_two_tokens() {
    let out = scan("===");
    assert_eq!(kinds(&out), vec![TokenType::EQUAL_EQUAL, TokenType::EQUAL, TokenType::EOF]);
}

#[test]
fn keywords_are_looked_up() {
    let out = scan("and class else false for fn if nul or print return super this true var while");
    assert_eq!(
        kinds(&out),
        vec![
            TokenType::AND,
            TokenType::CLASS,
            TokenType::ELSE,
            TokenType::FALSE,
            TokenType::FOR,
            TokenType::FUN,
            TokenType::IF,
            TokenType::NIL,
            TokenType::OR,
            TokenType::PRINT,
            TokenType::RETURN,
            TokenType::SUPER,
            TokenType::THIS,
            TokenType::TRUE,
            TokenType::VAR,
            TokenType::WHILE,
            TokenType::EOF,
        ]
    );
    assert_eq!(out.tokens[5].lexeme, "fun");
    assert_eq!(out.tokens[5].literal, vec!['f', 'n']);
    assert_eq!(out.tokens[7].lexeme, "nil");
    assert_eq!(out.tokens[7].literal, vec!['n', 'u', 'l']);
}

#[test]
fn other_words_are_identifiers() {
    let out = scan("nil fun Var _x foo_bar");
    assert_eq!(
        kinds(&out),
        vec![
            TokenType::IDENTIFIER,
            TokenType::IDENTIFIER,
            TokenType::IDENTIFIER,
            TokenType::IDENTIFIER,
            TokenType::IDENTIFIER,
            TokenType::EOF,
        ]
    );
    assert_eq!(out.tokens[4].lexeme, "foo_bar");
}

#[test]
fn identifier_at_the_very_end_is_scanned() {
    let out = scan("x");
    assert_eq!(kinds(&out), vec![TokenType::IDENTIFIER, TokenType::EOF]);
    assert_eq!(out.tokens[0].lexeme, "x");
}

#[test]
fn digits_do_not_belong_to_identifiers() {
    let out = scan("ab12cd");
    assert_eq!(
        kinds(&out),
        vec![TokenType::IDENTIFIER, TokenType::NUMBER, TokenType::IDENTIFIER, TokenType::EOF]
    );
    assert_eq!(out.tokens[0].lexeme, "ab");
    assert_eq!(out.tokens[1].lexeme, "12");
    assert_eq!(out.tokens[2].lexeme, "cd");
}

#[test]
fn numbers_have_no_fraction() {
    let out = scan("12.5");
    assert_eq!(
        kinds(&out),
        vec![TokenType::NUMBER, TokenType::DOT, TokenType::NUMBER, TokenType::EOF]
    );
    assert_eq!(out.tokens[0].lexeme, "12");
    assert_eq!(out.tokens[0].literal, vec!['1', '2']);
    assert_eq!(out.tokens[2].lexeme, "5");
}

#[test]
fn string_literal_is_what_stands_between_the_quotes() {
    let out = scan("\"hi there\" 1");
    assert_eq!(kinds(&out), vec![TokenType::STRING, TokenType::NUMBER, TokenType::EOF]);
    assert_eq!(out.tokens[0].lexeme, "hi there");
    assert_eq!(out.tokens[0].literal, chars_of("hi there"));
    assert!(out.diagnostics.is_empty());
}

#[test]
fn empty_string_literal() {
    let out = scan("\"\"");
    assert_eq!(kinds(&out), vec![TokenType::STRING, TokenType::EOF]);
    assert_eq!(out.tokens[0].lexeme, "");
    assert!(out.diagnostics.is_empty());
}

#[test]
fn unterminated_string_is_reported_and_kept() {
    let out = scan("\"abc");
    assert_eq!(messages(&out), vec!["Unterminated string".to_string()]);
    assert_eq!(kinds(&out), vec![TokenType::STRING, TokenType::EOF]);
    assert_eq!(out.tokens[0].literal, vec!['a', 'b', 'c']);
    assert_eq!(out.tokens[0].lexeme, "abc");
    assert!(!out.exit);
}

#[test]
fn lone_quote_is_an_unterminated_empty_string() {
    let out = scan("\"");
    assert_eq!(messages(&out), vec!["Unterminated string".to_string()]);
    assert_eq!(kinds(&out), vec![TokenType::STRING, TokenType::EOF]);
    assert_eq!(out.tokens[0].lexeme, "");
}

#[test]
fn unexpected_character_is_reported_and_skipped() {
    let out = scan("1 # 2");
    assert_eq!(kinds(&out), vec![TokenType::NUMBER, TokenType::NUMBER, TokenType::EOF]);
    assert_eq!(messages(&out), vec!["Unexpected token".to_string()]);
    assert_eq!(out.diagnostics[0].line, 0);
    assert_eq!(out.diagnostics[0].index, 1);
}

#[test]
fn column_counts_blanks_and_tabs_since_the_line_break() {
    let out = scan("a \tb\n c\r\nd");
    assert_eq!(
        kinds(&out),
        vec![
            TokenType::IDENTIFIER,
            TokenType::IDENTIFIER,
            TokenType::IDENTIFIER,
            TokenType::IDENTIFIER,
            TokenType::EOF,
        ]
    );
    assert_eq!((out.tokens[0].line, out.tokens[0].index), (0, 0));
    assert_eq!((out.tokens[1].line, out.tokens[1].index), (0, 2));
    assert_eq!((out.tokens[2].line, out.tokens[2].index), (1, 1));
    assert_eq!((out.tokens[3].line, out.tokens[3].index), (3, 0));
    assert_eq!((out.tokens[4].line, out.tokens[4].index), (3, 0));
}

#[test]
fn line_comment_runs_to_the_line_feed() {
    let out = scan("1 // two three\n4");
    assert_eq!(kinds(&out), vec![TokenType::NUMBER, TokenType::NUMBER, TokenType::EOF]);
    assert_eq!(out.tokens[1].lexeme, "4");
    assert_eq!(out.tokens[1].line, 1);
    assert!(out.diagnostics.is_empty());
}

#[test]
fn line_comment_at_the_end_of_input() {
    let out = scan("1 //");
    assert_eq!(kinds(&out), vec![TokenType::NUMBER, TokenType::EOF]);
}

#[test]
fn block_comment_runs_through_its_end_mark() {
    let out = scan("1 /* two * / \n three */ 4");
    assert_eq!(kinds(&out), vec![TokenType::NUMBER, TokenType::NUMBER, TokenType::EOF]);
    assert_eq!(out.tokens[1].lexeme, "4");
    assert_eq!(out.tokens[1].line, 0);
    assert_eq!(out.tokens[1].index, 2);
}

#[test]
fn block_comment_does_not_nest() {
    let out = scan("/* a /* b */ c */");
    assert_eq!(
        kinds(&out),
        vec![TokenType::IDENTIFIER, TokenType::STAR, TokenType::SLASH, TokenType::EOF]
    );
}

#[test]
fn unclosed_block_comment_runs_to_the_end() {
    let out = scan("1 /* two");
    assert_eq!(kinds(&out), vec![TokenType::NUMBER, TokenType::EOF]);
    let out = scan("/*");
    assert_eq!(kinds(&out), vec![TokenType::EOF]);
    let out = scan("/*/");
    assert_eq!(kinds(&out), vec![TokenType::EOF]);
}

#[test]
fn lone_slash_is_a_token() {
    let out = scan("6 / 3");
    assert_eq!(
        kinds(&out),
        vec![TokenType::NUMBER, TokenType::SLASH, TokenType::NUMBER, TokenType::EOF]
    );
}

#[test]
fn exit_stops_the_scan() {
    let out = scan("1 # exit 2 3");
    assert!(out.exit);
    assert_eq!(kinds(&out), vec![TokenType::NUMBER, TokenType::EOF]);
    assert_eq!(messages(&out), vec!["Unexpected token".to_string()]);
}

#[test]
fn exit_inside_a_longer_word_is_an_identifier() {
    let out = scan("exits exit_ _exit");
    assert!(!out.exit);
    assert_eq!(
        kinds(&out),
        vec![TokenType::IDENTIFIER, TokenType::IDENTIFIER, TokenType::IDENTIFIER, TokenType::EOF]
    );
}

#[test]
fn exit_with_brackets_stops_the_scan() {
    let out = scan("exit()");
    assert!(out.exit);
    assert_eq!(kinds(&out), vec![TokenType::EOF]);
}

#[test]
fn scan_ends_with_exactly_one_end_token() {
    for source in ["", "1 + 2;", "\"abc", "var x = 1;\nprint x;", "exit", "@@@"] {
        let out = scan(source);
        let n = out.tokens.len();
        assert!(n > 0);
        assert_eq!(out.tokens[n - 1].token_type, TokenType::EOF);
        assert!(out.tokens[..n - 1].iter().all(|t| t.token_type != TokenType::EOF));
    }
}

#[test]
fn lexemes_of_text_tokens_stand_in_the_source() {
    let source = "var total = 12 + \"a b\" ; foo";
    let out = scan(source);
    let mut seen = 0;
    for t in out.tokens.iter() {
        match t.token_type {
            TokenType::NUMBER | TokenType::IDENTIFIER => {
                assert!(source.contains(t.lexeme.as_str()));
                assert_eq!(text_of(&t.literal), t.lexeme);
                seen += 1;
            }
            TokenType::STRING => {
                assert!(source.contains(format!("\"{}\"", t.lexeme).as_str()));
                seen += 1;
            }
            _ => {}
        }
    }
    assert_eq!(seen, 4);
}

#[test]
fn scanning_characters_is_scanning_text() {
    let a = scan("print 1 >= 2;");
    let b = scan_chars(&chars_of("print 1 >= 2;"));
    assert_eq!(kinds(&a), kinds(&b));
    assert_eq!(
        kinds(&a),
        vec![
            TokenType::PRINT,
            TokenType::NUMBER,
            TokenType::GREATER_EQUAL,
            TokenType::NUMBER,
            TokenType::SEMICOLON,
            TokenType::EOF,
        ]
    );
}
