use chrono::{NaiveDate, NaiveDateTime, NaiveTime};
use rusty_todos::command::Command;
use rusty_todos::parser::{chars_of, parse_id, Parser, ParserErr};
use rusty_todos::timestamp::{read_timestamp, timestamp_or_unset, TIMESTAMP_FORMAT};
use rusty_todos::token;
use rusty_todos::token::{Keyword, Text, Token};
use rusty_todos::tokenizer::Tokenizer;

fn parse(line: &str) -> Result<Command, ParserErr> {
    Parser::new(Tokenizer::new()).parse(line)
}

fn parse_tokens(tokens: Vec<Token>) -> Result<Command, ParserErr> {
    Parser::new(Tokenizer::new()).parse_program(&tokens)
}

fn quoted(value: &str) -> Token {
    Token::Text(Text::Value(String::from(value)))
}

fn timestamp(year: i32, month: u32, day: u32, hour: u32, minute: u32, second: u32) -> NaiveDateTime {
    NaiveDateTime::new(
        NaiveDate::from_ymd_opt(year, month, day).unwrap(),
        NaiveTime::from_hms_opt(hour, minute, second).unwrap(),
    )
}

#[test]
fn should_return_todo_create_command() -> Result<(), ParserErr> {
    let tokenizer: Tokenizer = Tokenizer::new();
    let mut parser = Parser::new(tokenizer);
    let source = "todo create \"title\" -d\"description\" -s\"04-10-2024 00:00:00\" -e\"04-10-2024 00:00:00\"";
    let result = parser.parse(source);

    assert!(result.is_ok());
    assert_eq!(
        result.unwrap(),
        Command::TodoCreate {
            title: "title".to_string(),
            description: Some("description".to_string()),
            start: Some(NaiveDateTime::new(
                NaiveDate::from_ymd_opt(2024, 10, 4).unwrap(),
                NaiveTime::from_hms_opt(0, 0, 0).unwrap()
            )),
            end: Some(NaiveDateTime::new(
                NaiveDate::from_ymd_opt(2024, 10, 4).unwrap(),
                NaiveTime::from_hms_opt(0, 0, 0).unwrap()
            ))
        }
    );

    Ok(())
}

#[test]
fn empty_line_is_an_empty_source() {
    assert_eq!(parse(""), Err(ParserErr::EmptySource));
    assert_eq!(parse("   \t"), Err(ParserErr::EmptySource));
    assert_eq!(parse_tokens(vec![]), Err(ParserErr::EmptySource));
}

#[test]
fn create_without_title_lacks_its_argument() {
    assert_eq!(parse("todo create"), Err(ParserErr::RequiredArgument));
    assert_eq!(
        parse("todo create -d\"description\""),
        Err(ParserErr::RequiredArgument)
    );
    assert_eq!(parse("todo create create"), Err(ParserErr::RequiredArgument));
    assert_eq!(parse("todo create \"\""), Err(ParserErr::RequiredArgument));
    assert_eq!(
        parse("todo create \"unclosed"),
        Err(ParserErr::RequiredArgument)
    );
}

#[test]
fn a_title_without_characters_is_no_title() {
    assert_eq!(
        parse_tokens(vec![
            Token::Keyword(Keyword::Todo),
            Token::Keyword(Keyword::Create),
            Token::Text(Text::Value(String::new())),
        ]),
        Err(ParserErr::RequiredArgument)
    );
    assert_eq!(
        parse_tokens(vec![
            Token::Keyword(Keyword::Todo),
            Token::Keyword(Keyword::Create),
            quoted("title"),
            Token::Option(token::Option::Description),
            Token::Text(Text::Value(String::new())),
        ]),
        Ok(Command::TodoCreate {
            title: "title".to_string(),
            description: None,
            start: None,
            end: None,
        })
    );
}

#[test]
fn unknown_word_is_an_unexpected_token() {
    assert_eq!(parse("zzz"), Err(ParserErr::UnexpectedToken));
    assert_eq!(parse("create"), Err(ParserErr::UnexpectedToken));
    assert_eq!(parse("\"todo\""), Err(ParserErr::UnexpectedToken));
    assert_eq!(parse("-d\"x\""), Err(ParserErr::UnexpectedToken));
}

#[test]
fn unsupported_leading_character_is_an_empty_source() {
    assert_eq!(parse("#hello"), Err(ParserErr::EmptySource));
    assert_eq!(parse("1 todo create \"title\""), Err(ParserErr::EmptySource));
}

#[test]
fn create_with_title_alone_leaves_the_rest_unset() {
    assert_eq!(
        parse("todo create \"title\""),
        Ok(Command::TodoCreate {
            title: "title".to_string(),
            description: None,
            start: None,
            end: None,
        })
    );
}

#[test]
fn create_takes_its_options_in_any_order() {
    assert_eq!(
        parse("todo create \"a b\" -e \"31-12-1999 23:59:58\" -s\"01-02-2003 04:05:06\" -d \"d\""),
        Ok(Command::TodoCreate {
            title: "a b".to_string(),
            description: Some("d".to_string()),
            start: Some(timestamp(2003, 2, 1, 4, 5, 6)),
            end: Some(timestamp(1999, 12, 31, 23, 59, 58)),
        })
    );
}

#[test]
fn text_that_is_no_timestamp_leaves_the_field_unset() {
    assert_eq!(
        parse("todo create \"title\" -s\"02.10.2024\" -e\"04-10-2024 01:02:03\""),
        Ok(Command::TodoCreate {
            title: "title".to_string(),
            description: None,
            start: None,
            end: Some(timestamp(2024, 10, 4, 1, 2, 3)),
        })
    );
    assert_eq!(
        parse("todo create \"title\" -s\"04-10-2024 00:00:00\" -e\"31-02-2024 00:00:00\""),
        Ok(Command::TodoCreate {
            title: "title".to_string(),
            description: None,
            start: Some(timestamp(2024, 10, 4, 0, 0, 0)),
            end: None,
        })
    );
    assert_eq!(
        parse("todo create \"title\" -s\"04-10-2024\" -e\"2024-10-04 00:00:00\""),
        Ok(Command::TodoCreate {
            title: "title".to_string(),
            description: None,
            start: None,
            end: None,
        })
    );
}

#[test]
fn option_without_text_is_ignored() {
    assert_eq!(
        parse("todo create \"title\" -d"),
        Ok(Command::TodoCreate {
            title: "title".to_string(),
            description: None,
            start: None,
            end: None,
        })
    );
    assert_eq!(
        parse("todo create \"title\" -e\"04-10-2024 00:00:00\" -s"),
        Ok(Command::TodoCreate {
            title: "title".to_string(),
            description: None,
            start: None,
            end: Some(timestamp(2024, 10, 4, 0, 0, 0)),
        })
    );
}

#[test]
fn option_without_text_does_not_hide_a_later_one() {
    let with = vec![
        Token::Keyword(Keyword::Todo),
        Token::Keyword(Keyword::Create),
        quoted("title"),
        Token::Option(token::Option::Description),
        Token::Option(token::Option::Description),
        quoted("description"),
        Token::Option(token::Option::Start),
        Token::Keyword(Keyword::Unknown),
        Token::Option(token::Option::Start),
        quoted("04-10-2024 00:00:00"),
        Token::Option(token::Option::End),
    ];
    let without = vec![
        Token::Keyword(Keyword::Todo),
        Token::Keyword(Keyword::Create),
        quoted("title"),
        Token::Option(token::Option::Description),
        quoted("description"),
        Token::Keyword(Keyword::Unknown),
        Token::Option(token::Option::Start),
        quoted("04-10-2024 00:00:00"),
    ];
    let expected = Ok(Command::TodoCreate {
        title: "title".to_string(),
        description: Some("description".to_string()),
        start: Some(timestamp(2024, 10, 4, 0, 0, 0)),
        end: None,
    });
    assert_eq!(parse_tokens(with), expected);
    assert_eq!(parse_tokens(without), expected);
}

#[test]
fn the_first_text_given_for_an_option_counts() {
    assert_eq!(
        parse("todo create \"title\" -d\"first\" -d\"second\""),
        Ok(Command::TodoCreate {
            title: "title".to_string(),
            description: Some("first".to_string()),
            start: None,
            end: None,
        })
    );
    assert_eq!(
        parse("todo create \"title\" -d\"\" -d\"second\""),
        Ok(Command::TodoCreate {
            title: "title".to_string(),
            description: None,
            start: None,
            end: None,
        })
    );
    assert_eq!(
        parse("todo create \"title\" -s\"no date\" -s\"04-10-2024 00:00:00\""),
        Ok(Command::TodoCreate {
            title: "title".to_string(),
            description: None,
            start: None,
            end: None,
        })
    );
}

#[test]
fn extract_option_gives_the_text_behind_the_option() {
    let mut parser = Parser::new(Tokenizer::new());
    let tokens = vec![
        quoted("stray"),
        Token::Option(token::Option::Start),
        Token::Option(token::Option::Description),
        quoted("description"),
        Token::Option(token::Option::End),
        Token::Text(Text::Empty),
        Token::Option(token::Option::Title),
    ];
    assert_eq!(
        parser.extract_option(&token::Option::Description, &tokens),
        Some("description".to_string())
    );
    assert_eq!(parser.extract_option(&token::Option::Start, &tokens), None);
    assert_eq!(parser.extract_option(&token::Option::End, &tokens), None);
    assert_eq!(parser.extract_option(&token::Option::Title, &tokens), None);
    assert_eq!(parser.extract_option(&token::Option::Unknown, &tokens), None);
    assert_eq!(parser.extract_option(&token::Option::Title, &[]), None);
    assert_eq!(
        parser.extract_option(&token::Option::Title, &tokens[6..]),
        None
    );
}

#[test]
fn user_and_calendar_stand_alone() {
    assert_eq!(parse("user"), Ok(Command::UserRead));
    assert_eq!(parse("calendar"), Ok(Command::CalendarRead));
    assert_eq!(parse("  user  "), Ok(Command::UserRead));
    assert_eq!(parse("user#"), Ok(Command::UserRead));
}

#[test]
fn user_and_calendar_take_nothing() {
    assert_eq!(parse("user read"), Err(ParserErr::UnexpectedToken));
    assert_eq!(parse("calendar \"1\""), Err(ParserErr::UnexpectedToken));
    assert_eq!(parse("user -d"), Err(ParserErr::UnexpectedToken));
}

#[test]
fn todo_needs_one_of_its_commands() {
    assert_eq!(parse("todo"), Err(ParserErr::UnexpectedToken));
    assert_eq!(parse("todo todo"), Err(ParserErr::UnexpectedToken));
    assert_eq!(parse("todo zzz"), Err(ParserErr::UnexpectedToken));
    assert_eq!(parse("todo \"create\""), Err(ParserErr::UnexpectedToken));
    assert_eq!(parse("todo -d"), Err(ParserErr::UnexpectedToken));
}

#[test]
fn read_and_delete_take_identifiers() {
    assert_eq!(
        parse("todo read \"1\" \"2\" \"127\""),
        Ok(Command::TodoRead {
            ids: vec![1, 2, 127]
        })
    );
    assert_eq!(
        parse("todo delete \"0\""),
        Ok(Command::TodoDelete { ids: vec![0] })
    );
    assert_eq!(
        parse("todo read \"7\" zzz \"8\""),
        Ok(Command::TodoRead { ids: vec![7] })
    );
    assert_eq!(
        parse("todo delete \"7\" -d\"8\""),
        Ok(Command::TodoDelete { ids: vec![7] })
    );
}

#[test]
fn identifiers_are_required_and_must_be_numbers() {
    assert_eq!(parse("todo read"), Err(ParserErr::RequiredArgument));
    assert_eq!(parse("todo delete"), Err(ParserErr::RequiredArgument));
    assert_eq!(parse("todo update"), Err(ParserErr::RequiredArgument));
    assert_eq!(parse("todo read 1"), Err(ParserErr::RequiredArgument));
    assert_eq!(parse("todo read zzz \"1\""), Err(ParserErr::RequiredArgument));
    assert_eq!(parse("todo read \"\""), Err(ParserErr::RequiredArgument));
    assert_eq!(parse("todo read \"one\""), Err(ParserErr::RequiredArgument));
    assert_eq!(
        parse("todo read \"1\" \"two\""),
        Err(ParserErr::RequiredArgument)
    );
    assert_eq!(parse("todo delete \"128\""), Err(ParserErr::RequiredArgument));
    assert_eq!(parse("todo delete \"-1\""), Err(ParserErr::RequiredArgument));
    assert_eq!(
        parse("todo update \"1 \" -d\"x\""),
        Err(ParserErr::RequiredArgument)
    );
}

#[test]
fn update_takes_identifiers_and_options() {
    assert_eq!(
        parse("todo update \"3\" \"4\" -t\"new\" -d\"text\" -s\"04-10-2024 00:00:00\" -e\"05-10-2024 10:20:30\""),
        Ok(Command::TodoUpdate {
            ids: vec![3, 4],
            title: Some("new".to_string()),
            description: Some("text".to_string()),
            start: Some(timestamp(2024, 10, 4, 0, 0, 0)),
            end: Some(timestamp(2024, 10, 5, 10, 20, 30)),
        })
    );
    assert_eq!(
        parse("todo update \"5\""),
        Ok(Command::TodoUpdate {
            ids: vec![5],
            title: None,
            description: None,
            start: None,
            end: None,
        })
    );
    assert_eq!(
        parse("todo update \"5\" -s\"tomorrow\" -t"),
        Ok(Command::TodoUpdate {
            ids: vec![5],
            title: None,
            description: None,
            start: None,
            end: None,
        })
    );
}

#[test]
fn an_identifier_is_a_decimal_number_up_to_127() {
    assert_eq!(parse_id("0"), Some(0));
    assert_eq!(parse_id("7"), Some(7));
    assert_eq!(parse_id("42"), Some(42));
    assert_eq!(parse_id("007"), Some(7));
    assert_eq!(parse_id("119"), Some(119));
    assert_eq!(parse_id("120"), Some(120));
    assert_eq!(parse_id("127"), Some(127));
    assert_eq!(parse_id("0000000000000000000000127"), Some(127));
    assert_eq!(parse_id("128"), None);
    assert_eq!(parse_id("130"), None);
    assert_eq!(parse_id("1270"), None);
    assert_eq!(parse_id("99999999999999999999999999"), None);
    assert_eq!(parse_id(""), None);
    assert_eq!(parse_id("-1"), None);
    assert_eq!(parse_id("+1"), None);
    assert_eq!(parse_id("1a"), None);
    assert_eq!(parse_id("a1"), None);
    assert_eq!(parse_id(" 1"), None);
    assert_eq!(parse_id("1290x"), None);
    assert_eq!(parse_id("\u{661}"), None);
}

#[test]
fn the_characters_of_a_line_keep_their_order() {
    assert_eq!(chars_of(""), Vec::<char>::new());
    assert_eq!(chars_of("a\u{e9}\u{4eac}-\""), vec!['a', '\u{e9}', '\u{4eac}', '-', '"']);
}

#[test]
fn a_timestamp_has_day_month_year_and_time() {
    assert_eq!(TIMESTAMP_FORMAT, "%d-%m-%Y %H:%M:%S");
    assert_eq!(
        read_timestamp("04-10-2024 00:00:00"),
        Some(timestamp(2024, 10, 4, 0, 0, 0))
    );
    assert_eq!(
        read_timestamp("29-02-2024 23:59:59"),
        Some(timestamp(2024, 2, 29, 23, 59, 59))
    );
    assert_eq!(read_timestamp("02.10.2024"), None);
    assert_eq!(read_timestamp("04-10-2024"), None);
    assert_eq!(read_timestamp("2024-10-04 00:00:00"), None);
    assert_eq!(read_timestamp("29-02-2023 00:00:00"), None);
    assert_eq!(read_timestamp("04-13-2024 00:00:00"), None);
    assert_eq!(read_timestamp("04-10-2024 24:00:00"), None);
    assert_eq!(read_timestamp("04-10-2024 00:00:00 "), None);
    assert_eq!(read_timestamp(""), None);
}

#[test]
fn a_refused_text_leaves_the_timestamp_unset() {
    let good = NaiveDateTime::parse_from_str("04-10-2024 00:00:00", TIMESTAMP_FORMAT);
    let bad = NaiveDateTime::parse_from_str("02.10.2024", TIMESTAMP_FORMAT);
    assert!(good.is_ok());
    assert!(bad.is_err());
    assert_eq!(timestamp_or_unset(good), Some(timestamp(2024, 10, 4, 0, 0, 0)));
    assert_eq!(timestamp_or_unset(bad), None);
}

#[test]
fn parsing_twice_gives_the_same_command() {
    let line = "todo update \"1\" -d \"rusty todos\" -s \"02.10.2024\"";
    let mut parser = Parser::new(Tokenizer::new());
    let first = parser.parse(line);
    let second = parser.parse(line);
    assert_eq!(first, second);
    assert!(first.is_ok());
    assert_eq!(parser.parse("zzz"), parse("zzz"));
}

#[test]
fn a_new_parser_holds_its_tokenizer() {
    let parser = Parser::new(Tokenizer::new());
    assert_eq!(parser.tokenizer, Tokenizer::new());
    assert_eq!(Parser::default(), parser);
}
