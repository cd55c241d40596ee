use cloup::toml::data::{Toml, TomlValue, TomlValueKind};
use cloup::toml::lexer::{Lexer, Token, TokenType};
use cloup::text::{
    char_is_alphanumeric, char_is_digit, char_is_whitespace, chars_of, parse_i64, push_decimal,
    push_integer, push_str, same_text, string_of, string_of_range, truncate_trailing_whitespace,
};
use cloup::toml::parser::{DuplicatePlace, Parser};

const SAMPLE: &str =
    "version = \"1.0\"\nactive_workspace = \"default\"\n\n[workspaces]\ndefault = \"/home/u/proj\"\n";

fn lex(text: &str) -> Vec<(TokenType, String)> {
    let mut lexer = Lexer::new(text);
    lexer.collect().into_iter().map(|t| (t.token_type, t.value)).collect()
}

fn parse(text: &str) -> Toml {
    let mut lexer = Lexer::new(text);
    Parser::new(lexer.collect()).parse()
}

fn tok(kind: TokenType, text: &str) -> (TokenType, String) {
    (kind, text.to_string())
}

fn text_of(kind: &TomlValueKind) -> String {
    match kind {
        TomlValueKind::String(s) => format!("s:{}", s),
        TomlValueKind::Integer(n) => format!("i:{}", n),
        TomlValueKind::Boolean(b) => format!("b:{}", b),
        TomlValueKind::Table(items) => {
            let inner: Vec<String> =
                items.iter().map(|e| format!("{}={}", e.key, text_of(&e.kind))).collect();
            format!("t:[{}]", inner.join(","))
        }
    }
}

fn shape(toml: &Toml) -> Vec<String> {
    toml.data.iter().map(|e| format!("{}={}", e.key, text_of(&e.kind))).collect()
}

#[test]
fn lexer_tokens_of_a_pair() {
    assert_eq!(
        lex("name = \"value\"\n"),
        vec![
            tok(TokenType::Key, "name"),
            tok(TokenType::Equals, "="),
            tok(TokenType::Value, "value"),
            tok(TokenType::Newline, "\n"),
        ]
    );
}

#[test]
fn lexer_newline_kinds() {
    assert_eq!(
        lex("\r\n\n"),
        vec![
            tok(TokenType::Newline, "\r"),
            tok(TokenType::Newline, "\n"),
            tok(TokenType::Newline, "\n"),
        ]
    );
}

#[test]
fn lexer_comment_becomes_one_newline() {
    assert_eq!(
        lex("a # = [ ] \"x\"\nb"),
        vec![tok(TokenType::Key, "a"), tok(TokenType::Newline, "\n"), tok(TokenType::Key, "b")]
    );
    assert_eq!(lex("# to the end"), vec![tok(TokenType::Newline, "\n")]);
    assert_eq!(
        lex("#x\r\ny"),
        vec![
            tok(TokenType::Newline, "\n"),
            tok(TokenType::Newline, "\n"),
            tok(TokenType::Key, "y"),
        ]
    );
}

#[test]
fn lexer_structural_tokens() {
    assert_eq!(
        lex("[t]="),
        vec![
            tok(TokenType::LeftBracket, "["),
            tok(TokenType::Key, "t"),
            tok(TokenType::RightBracket, "]"),
            tok(TokenType::Equals, "="),
        ]
    );
}

#[test]
fn lexer_digit_leading_run_is_a_value() {
    assert_eq!(
        lex("123abc = \"x\""),
        vec![
            tok(TokenType::Value, "123abc"),
            tok(TokenType::Equals, "="),
            tok(TokenType::Value, "x"),
        ]
    );
}

#[test]
fn lexer_key_run_stops_at_value_only_characters() {
    assert_eq!(lex("abc.def"), vec![tok(TokenType::Key, "abc"), tok(TokenType::Value, ".def")]);
    assert_eq!(lex("1.5"), vec![tok(TokenType::Value, "1"), tok(TokenType::Value, ".5")]);
    assert_eq!(lex("/a/b_c.d"), vec![tok(TokenType::Value, "/a/b_c.d")]);
}

#[test]
fn lexer_strips_matching_quotes() {
    assert_eq!(lex("\"abc\""), vec![tok(TokenType::Value, "abc")]);
    assert_eq!(lex("'abc'"), vec![tok(TokenType::Value, "abc")]);
    assert_eq!(lex("\"\""), vec![tok(TokenType::Value, "")]);
    assert_eq!(lex("\"abc'"), vec![tok(TokenType::Value, "\"abc'")]);
    assert_eq!(lex("\"abc"), vec![tok(TokenType::Value, "\"abc")]);
    assert_eq!(lex("\"a\"b\""), vec![tok(TokenType::Value, "a\"b")]);
}

#[test]
fn lexer_lone_quote_is_kept() {
    assert_eq!(lex("\""), vec![tok(TokenType::Value, "\"")]);
    assert_eq!(lex("a = '"), vec![
        tok(TokenType::Key, "a"),
        tok(TokenType::Equals, "="),
        tok(TokenType::Value, "'"),
    ]);
}

#[test]
fn lexer_no_escapes_inside_quotes() {
    assert_eq!(
        lex("\"a\\nb\""),
        vec![tok(TokenType::Value, "\"a"), tok(TokenType::Key, "nb"), tok(TokenType::Value, "\"")]
    );
}

#[test]
fn lexer_skips_unrecognized_characters() {
    assert_eq!(lex("  \t-+*é€ "), Vec::<(TokenType, String)>::new());
    assert_eq!(lex("a - 5"), vec![tok(TokenType::Key, "a"), tok(TokenType::Value, "5")]);
    assert_eq!(lex(""), Vec::<(TokenType, String)>::new());
}

#[test]
fn lexer_next_token_walks_the_input() {
    let mut lexer = Lexer::new("k = 1");
    let first = lexer.next_token().unwrap();
    assert_eq!((first.token_type, first.value.as_str()), (TokenType::Key, "k"));
    let second = lexer.next_token().unwrap();
    assert_eq!((second.token_type, second.value.as_str()), (TokenType::Equals, "="));
    let third = lexer.next_token().unwrap();
    assert_eq!((third.token_type, third.value.as_str()), (TokenType::Value, "1"));
    assert!(lexer.next_token().is_none());
    assert!(lexer.next_token().is_none());
}

#[test]
fn lexer_character_classes() {
    let lexer = Lexer::new("");
    assert!(lexer.is_newline('\n') && lexer.is_newline('\r') && !lexer.is_newline(' '));
    for c in ['a', 'z', 'A', 'Z', '0', '9', '_'] {
        assert!(lexer.is_key_char(c));
        assert!(lexer.is_value_char(c));
    }
    for c in ['"', '\'', '/', '.'] {
        assert!(!lexer.is_key_char(c));
        assert!(lexer.is_value_char(c));
    }
    for c in ['-', ' ', '=', '[', ']', '#', 'é', '\n', '٣'] {
        assert!(!lexer.is_key_char(c));
        assert!(!lexer.is_value_char(c));
    }
}

#[test]
fn lexer_consume_and_peek() {
    let mut lexer = Lexer::new("ab");
    assert_eq!(lexer.peek_char(), Some('a'));
    assert_eq!(lexer.consume_char(), Some('a'));
    assert_eq!(lexer.peek_char(), Some('b'));
    assert_eq!(lexer.consume_char(), Some('b'));
    assert_eq!(lexer.peek_char(), None);
    assert_eq!(lexer.consume_char(), None);
    assert_eq!(lexer.consume_char(), None);
}

#[test]
fn parser_classifies_values() {
    let toml = parse("a = 42\nb = true\nc = false\nd = \"text\"\ne = bare\nf = \"7\"\ng = 'true'\n");
    assert_eq!(
        shape(&toml),
        vec!["a=i:42", "b=b:true", "c=b:false", "d=s:text", "e=s:bare", "f=i:7", "g=b:true"]
    );
}

#[test]
fn parser_integer_edges() {
    let toml = parse(
        "a = 9223372036854775807\nb = 9223372036854775808\nc = 007\nd = 0\ne = 1_0\nf = True\n",
    );
    assert_eq!(
        shape(&toml),
        vec![
            "a=i:9223372036854775807",
            "b=s:9223372036854775808",
            "c=i:7",
            "d=i:0",
            "e=s:1_0",
            "f=s:True"
        ]
    );
}

#[test]
fn parser_minus_sign_is_not_lexed() {
    let toml = parse("a = -5\n");
    assert_eq!(shape(&toml), vec!["a=i:5"]);
}

#[test]
fn parser_payloads_with_signs() {
    let tokens = |value: &str| {
        vec![
            Token { token_type: TokenType::Key, value: "k".to_string() },
            Token { token_type: TokenType::Equals, value: "=".to_string() },
            Token { token_type: TokenType::Value, value: value.to_string() },
        ]
    };
    let kind = |value: &str| shape(&Parser::new(tokens(value)).parse());
    assert_eq!(kind("-5"), vec!["k=i:-5"]);
    assert_eq!(kind("+5"), vec!["k=i:5"]);
    assert_eq!(kind("-9223372036854775808"), vec!["k=i:-9223372036854775808"]);
    assert_eq!(kind("-9223372036854775809"), vec!["k=s:-9223372036854775809"]);
    assert_eq!(kind("-"), vec!["k=s:-"]);
    assert_eq!(kind("+"), vec!["k=s:+"]);
    assert_eq!(kind(""), vec!["k=s:"]);
    assert_eq!(kind("--1"), vec!["k=s:--1"]);
    assert_eq!(kind("1 "), vec!["k=s:1 "]);
    assert_eq!(kind("٣"), vec!["k=s:٣"]);
    assert_eq!(kind("00000000000000000000000000012"), vec!["k=i:12"]);
}

#[test]
fn classification_agrees_with_the_standard_integer_parser() {
    let samples = [
        "0", "1", "-1", "+1", "12345", "-0", "+0", "00", "-00012", "9223372036854775807",
        "9223372036854775808", "-9223372036854775808", "-9223372036854775809",
        "99999999999999999999999", "", "-", "+", "+-1", "1+", "1-", " 1", "1 ", "1_000", "0x10",
        "1.5", "abc", "true", "١٢٣", "１２", "1e5",
    ];
    for text in samples {
        let kind = cloup::toml::parser::classify_text(text.to_string());
        match text.parse::<i64>() {
            Ok(n) => assert!(matches!(kind, TomlValueKind::Integer(m) if m == n), "{:?}", text),
            Err(_) => assert!(!matches!(kind, TomlValueKind::Integer(_)), "{:?}", text),
        }
    }
}

#[test]
fn parser_first_occurrence_wins() {
    let toml = parse("a = 1\nb = 2\na = 3\n");
    assert_eq!(shape(&toml), vec!["a=i:1", "b=i:2"]);
}

#[test]
fn parser_duplicates_inside_a_table() {
    let toml = parse("[t]\na = 1\na = 2\nb = 3\n");
    assert_eq!(shape(&toml), vec!["t=t:[a=i:1,b=i:3]"]);
}

#[test]
fn parser_duplicate_table_and_scalar_names() {
    let toml = parse("t = 1\n\n[t]\na = 1\n\n[u]\nb = 2\n\n[u]\nc = 3\n");
    assert_eq!(shape(&toml), vec!["t=i:1", "u=t:[b=i:2]"]);
}

#[test]
fn parser_blank_line_ends_a_table() {
    let toml = parse("[t]\na = 1\n\nb = 2\n");
    assert_eq!(shape(&toml), vec!["t=t:[a=i:1]", "b=i:2"]);
}

#[test]
fn parser_end_of_input_ends_a_table() {
    assert_eq!(shape(&parse("[t]\na = 1")), vec!["t=t:[a=i:1]"]);
    assert_eq!(shape(&parse("[t]\na = 1\n")), vec!["t=t:[a=i:1]"]);
    assert_eq!(shape(&parse("[t]")), vec!["t=t:[]"]);
    assert_eq!(shape(&parse("[t]\n\n")), vec!["t=t:[]"]);
}

#[test]
fn parser_comment_line_ends_a_table() {
    let toml = parse("[t]\na = 1\n# note\nb = 2\n");
    assert_eq!(shape(&toml), vec!["t=t:[a=i:1]", "b=i:2"]);
}

#[test]
fn parser_digit_leading_key_is_not_recorded() {
    let toml = parse("123abc = \"x\"");
    assert_eq!(shape(&toml), Vec::<String>::new());
    let toml = parse("123abc = \"x\"\nok = 1\n");
    assert_eq!(shape(&toml), vec!["ok=i:1"]);
}

#[test]
fn parser_truncated_input_is_dropped() {
    assert_eq!(shape(&parse("a = 1\nb")), vec!["a=i:1"]);
    assert_eq!(shape(&parse("a = 1\nb =")), vec!["a=i:1"]);
    assert_eq!(shape(&parse("a")), Vec::<String>::new());
    assert_eq!(shape(&parse("[")), Vec::<String>::new());
    assert_eq!(shape(&parse("[t")), Vec::<String>::new());
    assert_eq!(shape(&parse("")), Vec::<String>::new());
}

#[test]
fn parser_takes_pair_tokens_by_position() {
    assert_eq!(shape(&parse("a b c")), vec!["a=s:c"]);
    assert_eq!(shape(&parse("a = \nb = 1")), vec!["a=s:\n", "b=i:1"]);
    assert_eq!(shape(&parse("a b c d e f")), vec!["a=s:c", "d=s:f"]);
}

#[test]
fn parser_stray_tokens_are_ignored() {
    assert_eq!(shape(&parse("\n\n= ] \"v\" 12\na = 1\n")), vec!["a=i:1"]);
}

#[test]
fn parser_methods_step_by_step() {
    let mut lexer = Lexer::new("a = 1\n[t]\nb = 2\n");
    let mut parser = Parser::new(lexer.collect());
    assert_eq!(parser.peek_token().map(|t| t.value.as_str()), Some("a"));
    let pair = parser.parse_key().unwrap();
    assert_eq!((pair.key.as_str(), text_of(&pair.kind)), ("a", "i:1".to_string()));
    assert_eq!(parser.consume_token().map(|t| t.token_type), Some(TokenType::Newline));
    let table = parser.parse_table().unwrap();
    assert_eq!((table.key.as_str(), text_of(&table.kind)), ("t", "t:[b=i:2]".to_string()));
    assert!(parser.peek_token().is_none());
    assert!(parser.consume_token().is_none());
    assert!(parser.parse_key().is_none());
    assert!(parser.parse_table().is_none());
    assert_eq!(shape(&parser.parse()), Vec::<String>::new());
}

#[test]
fn end_to_end_parse_and_serialize() {
    let toml = parse(SAMPLE);
    assert_eq!(
        shape(&toml),
        vec![
            "version=s:1.0",
            "active_workspace=s:default",
            "workspaces=t:[default=s:/home/u/proj]"
        ]
    );
    assert_eq!(toml.to_toml(), SAMPLE);
}

#[test]
fn end_to_end_set_changes_one_line() {
    let mut toml = parse(SAMPLE);
    toml.set("version".to_string(), TomlValueKind::String("2.0".to_string()));
    assert_eq!(
        toml.to_toml(),
        "version = \"2.0\"\nactive_workspace = \"default\"\n\n[workspaces]\ndefault = \"/home/u/proj\"\n"
    );
}

#[test]
fn end_to_end_delete_omits_the_line() {
    let mut toml = parse(SAMPLE);
    toml.delete("active_workspace");
    assert_eq!(toml.to_toml(), "version = \"1.0\"\n\n[workspaces]\ndefault = \"/home/u/proj\"\n");
}

#[test]
fn document_new_is_empty() {
    let toml = Toml::new();
    assert!(toml.data.is_empty());
    assert_eq!(toml.to_toml(), "\n");
}

#[test]
fn document_get_finds_top_level_only() {
    let toml = parse(SAMPLE);
    assert!(matches!(toml.get("version"), Some(TomlValueKind::String(s)) if s == "1.0"));
    assert!(matches!(toml.get("workspaces"), Some(TomlValueKind::Table(items)) if items.len() == 1));
    assert!(toml.get("default").is_none());
    assert!(toml.get("").is_none());
    assert!(toml.get("Version").is_none());
}

#[test]
fn document_get_mut_changes_in_place() {
    let mut toml = parse(SAMPLE);
    if let Some(TomlValueKind::String(value)) = toml.get_mut("active_workspace") {
        *value = "other".to_string();
    }
    if let Some(TomlValueKind::Table(items)) = toml.get_mut("workspaces") {
        items.push(TomlValue {
            key: "other".to_string(),
            kind: TomlValueKind::String("/tmp/o".to_string()),
        });
    }
    assert!(toml.get_mut("missing").is_none());
    assert_eq!(
        toml.to_toml(),
        "version = \"1.0\"\nactive_workspace = \"other\"\n\n[workspaces]\ndefault = \"/home/u/proj\"\nother = \"/tmp/o\"\n"
    );
}

#[test]
fn document_set_appends_and_replaces_in_place() {
    let mut toml = Toml::new();
    toml.set("b".to_string(), TomlValueKind::Integer(1));
    toml.set("a".to_string(), TomlValueKind::Boolean(true));
    toml.set("c_3".to_string(), TomlValueKind::String("x".to_string()));
    assert_eq!(shape(&toml), vec!["b=i:1", "a=b:true", "c_3=s:x"]);
    toml.set("a".to_string(), TomlValueKind::Integer(-9));
    assert_eq!(shape(&toml), vec!["b=i:1", "a=i:-9", "c_3=s:x"]);
    assert_eq!(toml.to_toml(), "b = 1\na = -9\nc_3 = \"x\"\n");
}

#[test]
fn document_try_set_rejects_invalid_keys() {
    let mut toml = Toml::new();
    assert!(toml.try_set("ok_1".to_string(), TomlValueKind::Integer(1)).is_ok());
    for key in ["", "a b", "a-b", "a.b", "é", "a=", "[a]"] {
        let refused = toml.try_set(key.to_string(), TomlValueKind::Integer(2));
        assert_eq!(refused.unwrap_err().key, key);
    }
    assert!(toml.try_set("9lives".to_string(), TomlValueKind::Integer(3)).is_ok());
    assert_eq!(shape(&toml), vec!["ok_1=i:1", "9lives=i:3"]);
    assert!(Toml::is_valid_key("abc_DEF_019"));
    assert!(!Toml::is_valid_key(""));
    assert!(!Toml::is_valid_key("a/b"));
}

#[test]
fn document_delete_is_a_no_op_when_absent() {
    let mut toml = parse("a = 1\nb = 2\n");
    toml.delete("c");
    assert_eq!(shape(&toml), vec!["a=i:1", "b=i:2"]);
    toml.delete("a");
    assert_eq!(shape(&toml), vec!["b=i:2"]);
    toml.delete("b");
    assert_eq!(shape(&toml), Vec::<String>::new());
    toml.delete("b");
    assert_eq!(toml.to_toml(), "\n");
}

#[test]
fn document_delete_removes_every_entry_with_the_key() {
    let item = |key: &str, n: i64| TomlValue { key: key.to_string(), kind: TomlValueKind::Integer(n) };
    let mut toml = Toml { data: vec![item("a", 1), item("b", 2), item("a", 3), item("c", 4)] };
    toml.delete("a");
    assert_eq!(shape(&toml), vec!["b=i:2", "c=i:4"]);
}

#[test]
fn serializer_scalars() {
    let mut toml = Toml::new();
    toml.set("s".to_string(), TomlValueKind::String("a b".to_string()));
    toml.set("i".to_string(), TomlValueKind::Integer(i64::MIN));
    toml.set("j".to_string(), TomlValueKind::Integer(i64::MAX));
    toml.set("z".to_string(), TomlValueKind::Integer(0));
    toml.set("t".to_string(), TomlValueKind::Boolean(true));
    toml.set("f".to_string(), TomlValueKind::Boolean(false));
    assert_eq!(
        toml.to_toml(),
        "s = \"a b\"\ni = -9223372036854775808\nj = 9223372036854775807\nz = 0\nt = true\nf = false\n"
    );
}

#[test]
fn serializer_table_first_has_no_blank_line_before() {
    let mut toml = Toml::new();
    toml.set(
        "t".to_string(),
        TomlValueKind::Table(vec![TomlValue { key: "a".to_string(), kind: TomlValueKind::Integer(1) }]),
    );
    toml.set("x".to_string(), TomlValueKind::Integer(2));
    toml.set("u".to_string(), TomlValueKind::Table(vec![]));
    assert_eq!(toml.to_toml(), "[t]\na = 1\n\nx = 2\n\n[u]\n");
}

#[test]
fn serializer_skips_tables_inside_tables() {
    let inner = TomlValue { key: "inner".to_string(), kind: TomlValueKind::Table(vec![]) };
    let kept = TomlValue { key: "kept".to_string(), kind: TomlValueKind::Boolean(false) };
    let toml = Toml {
        data: vec![TomlValue { key: "t".to_string(), kind: TomlValueKind::Table(vec![inner, kept]) }],
    };
    assert_eq!(toml.to_toml(), "[t]\nkept = false\n");
}

#[test]
fn serializer_trims_trailing_white_space() {
    let toml = Toml {
        data: vec![TomlValue { key: "k \u{3000}\t".to_string(), kind: TomlValueKind::Table(vec![]) }],
    };
    assert_eq!(toml.to_toml(), "[k \u{3000}\t]\n");
    let toml = Toml {
        data: vec![TomlValue { key: "\u{85}\u{a0}\u{2028} ".to_string(), kind: TomlValueKind::Table(vec![]) }],
    };
    assert_eq!(toml.to_toml(), "[\u{85}\u{a0}\u{2028} ]\n");
}

#[test]
fn round_trip_of_scalars() {
    let mut toml = Toml::new();
    toml.set("name".to_string(), TomlValueKind::String("/a/b.c_d".to_string()));
    toml.set("count".to_string(), TomlValueKind::Integer(120));
    toml.set("on".to_string(), TomlValueKind::Boolean(true));
    toml.set("off".to_string(), TomlValueKind::Boolean(false));
    toml.set("empty".to_string(), TomlValueKind::String(String::new()));
    let text = toml.to_toml();
    let again = parse(&text);
    assert_eq!(shape(&again), shape(&toml));
    assert_eq!(again.to_toml(), text);
}

#[test]
fn round_trip_with_tables() {
    let written = "a = 1\n\n[t]\nx = \"p\"\ny = 2\n\n[u]\n\n[v]\nz = false\n\nb = \"q\"\n";
    let text = "a = 1\n\n[t]\nx = \"p\"\ny = 2\n\n\n[u]\n\n\n[v]\nz = false\n\nb = \"q\"\n";
    let expected = vec!["a=i:1", "t=t:[x=s:p,y=i:2]", "u=t:[]", "v=t:[z=b:false]", "b=s:q"];
    let toml = parse(written);
    assert_eq!(shape(&toml), expected);
    assert_eq!(toml.to_toml(), text);
    let again = parse(text);
    assert_eq!(shape(&again), expected);
    assert_eq!(again.to_toml(), text);
}

#[test]
fn round_trip_fails_outside_the_grammar() {
    let mut toml = Toml::new();
    toml.set("n".to_string(), TomlValueKind::Integer(-5));
    assert_eq!(shape(&parse(&toml.to_toml())), vec!["n=i:5"]);
    let mut toml = Toml::new();
    toml.set("s".to_string(), TomlValueKind::String("12".to_string()));
    assert_eq!(shape(&parse(&toml.to_toml())), vec!["s=i:12"]);
}

#[test]
fn parser_reports_duplicates() {
    let mut lexer = Lexer::new("a = 1\na = 2\n\n[t]\nx = 1\nx = 2\n\n[t]\ny = 1\ny = 2\n\n[a]\n");
    let mut parser = Parser::new(lexer.collect());
    assert!(parser.duplicates().is_empty());
    let toml = parser.parse();
    assert_eq!(shape(&toml), vec!["a=i:1", "t=t:[x=i:1]"]);
    let found: Vec<(DuplicatePlace, String, String)> =
        parser.duplicates().iter().map(|d| (d.place, d.key.clone(), d.message())).collect();
    assert_eq!(
        found,
        vec![
            (DuplicatePlace::Pair, "a".to_string(), "Duplicate key for key-value pair found: a".to_string()),
            (
                DuplicatePlace::TablePair,
                "x".to_string(),
                "Duplicate key for table key-value pair found: 'x'".to_string()
            ),
            (
                DuplicatePlace::TablePair,
                "y".to_string(),
                "Duplicate key for table key-value pair found: 'y'".to_string()
            ),
            (DuplicatePlace::TableName, "t".to_string(), "Duplicate key for table name found: t".to_string()),
            (DuplicatePlace::TableName, "a".to_string(), "Duplicate key for table name found: a".to_string()),
        ]
    );
}

#[test]
fn parser_reports_nothing_without_duplicates() {
    let mut lexer = Lexer::new(SAMPLE);
    let mut parser = Parser::new(lexer.collect());
    let _ = parser.parse();
    assert!(parser.duplicates().is_empty());
}

#[test]
fn document_from_text_and_from_items() {
    let toml = Toml::from(SAMPLE.to_string());
    assert_eq!(toml.to_toml(), SAMPLE);
    let toml = Toml::from("a = 1\na = 2\n".to_string());
    assert_eq!(shape(&toml), vec!["a=i:1"]);
    let none: Option<Vec<TomlValue>> = None;
    assert!(Toml::from(none).data.is_empty());
    let some = Some(vec![TomlValue { key: "k".to_string(), kind: TomlValueKind::Boolean(true) }]);
    assert_eq!(shape(&Toml::from(some)), vec!["k=b:true"]);
}

#[test]
fn text_helpers() {
    assert_eq!(chars_of("aé€"), vec!['a', 'é', '€']);
    assert_eq!(string_of(&vec!['a', 'é', '€']), "aé€");
    assert_eq!(string_of_range(&vec!['a', 'b', 'c', 'd'], 1, 3), "bc");
    assert_eq!(string_of_range(&vec!['a', 'b'], 2, 2), "");
    let mut out = vec!['x'];
    push_str(&mut out, "yz");
    push_decimal(&mut out, 0);
    push_decimal(&mut out, 18446744073709551615);
    push_integer(&mut out, -120);
    assert_eq!(string_of(&out), "xyz018446744073709551615-120");
    for n in [0i64, 7, 10, 99, 100, -1, i64::MAX, i64::MIN, 1234567890123] {
        let mut digits = Vec::new();
        push_integer(&mut digits, n);
        assert_eq!(string_of(&digits), n.to_string());
        assert_eq!(parse_i64(&digits), Some(n));
    }
    assert!(same_text("aé", "aé") && same_text("", ""));
    assert!(!same_text("a", "b") && !same_text("a", "ab") && !same_text("ab", "a"));
    for c in ['\0', '\t', '\n', '\u{b}', '\u{c}', '\r', ' ', '\u{85}', '\u{a0}', '\u{1680}', '\u{2000}',
        '\u{200a}', '\u{200b}', '\u{2028}', '\u{2029}', '\u{202f}', '\u{205f}', '\u{3000}', 'a', '0',
        '\u{feff}', '\u{180e}', '\u{1c}', '\u{1f}', '\u{e}']
    {
        assert_eq!(char_is_whitespace(c), c.is_whitespace(), "{:?}", c);
    }
    for code in 0u32..0x3100 {
        if let Some(c) = char::from_u32(code) {
            assert_eq!(char_is_whitespace(c), c.is_whitespace(), "{:?}", c);
            assert_eq!(char_is_alphanumeric(c), c.is_ascii_alphanumeric(), "{:?}", c);
            assert_eq!(char_is_digit(c), c.is_ascii_digit(), "{:?}", c);
        }
    }
    for text in ["", "a", "a \n", " \t\r\n", "a\u{3000}b\u{2028}\u{a0}", "  a"] {
        let mut chars: Vec<char> = text.chars().collect();
        truncate_trailing_whitespace(&mut chars);
        assert_eq!(string_of(&chars), text.trim_end(), "{:?}", text);
    }
}

#[test]
fn toml_lexer() {
    let toml_string = SAMPLE.to_string();

    let mut lexer = Lexer::new(&toml_string);

    while let Some(token) = lexer.next_token() {
        println!("{:?}", token);
    }
}

#[test]
fn toml_parser() {
    let toml_string = SAMPLE.to_string();
    let mut lexer = Lexer::new(&toml_string);
    let mut parser = Parser::new(lexer.collect());

    let toml = parser.parse();

    println!("{:#?}", toml.data);
}
