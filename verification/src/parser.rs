//! The parser: from the tokens of a line to a command.
//!
//! The grammar is stated over token views by [`command_of`]. A line means
//! what its tokens mean: `command_of(lex(line))`.

use crate::command::{text_view, Command, CommandView};
use crate::timestamp::{read_timestamp, timestamp_of};
use crate::token;
use crate::token::{Keyword, Text, Token, TokenView};
use crate::tokenizer::{lex, Tokenizer};
use chrono::NaiveDateTime;
use vstd::prelude::*;

verus! {

/// Why a line is no command.
#[derive(PartialEq, Eq, Clone, Copy, Debug, Structural)]
pub enum ParserErr {
    /// The line holds no token.
    EmptySource,
    /// A title or an identifier is missing, or is no text that can be one.
    RequiredArgument,
    /// A token stands where the grammar has no use for it, or a keyword is
    /// missing.
    UnexpectedToken,
}

/// The parser. It holds the tokenizer that splits its lines.
#[derive(PartialEq, Eq, Clone, Copy, Debug)]
pub struct Parser {
    pub tokenizer: Tokenizer,
}

/// The text that a token carries: none for a token that is no text, and none
/// for a text without characters.
pub open spec fn token_text(token: TokenView) -> Option<Seq<char>> {
    match token {
        TokenView::Text(Some(text)) => if text.len() > 0 {
            Some(text)
        } else {
            None
        },
        _ => None,
    }
}

/// Whether the option `kind` stands at position `i` with a text token right
/// behind it.
pub open spec fn is_option_pair(tokens: Seq<TokenView>, kind: token::Option, i: int) -> bool {
    &&& 0 <= i
    &&& i + 1 < tokens.len()
    &&& tokens[i] == TokenView::Option(kind)
    &&& tokens[i + 1] is Text
}

/// The first position at or after `from` where the option `kind` stands with
/// a text token right behind it; the number of tokens where there is none.
pub open spec fn first_option_pair(tokens: Seq<TokenView>, kind: token::Option, from: int) -> int
    decreases tokens.len() - from,
{
    if from + 1 >= tokens.len() {
        tokens.len() as int
    } else if is_option_pair(tokens, kind, from) {
        from
    } else {
        first_option_pair(tokens, kind, from + 1)
    }
}

/// The text given for the option `kind`: that of the first text token that
/// stands right behind the option. An option with no text token behind it
/// counts for nothing.
pub open spec fn option_text(tokens: Seq<TokenView>, kind: token::Option) -> Option<Seq<char>> {
    let at = first_option_pair(tokens, kind, 0);
    if at < tokens.len() {
        token_text(tokens[at + 1])
    } else {
        None
    }
}

/// The timestamp given for the option `kind`: unset where no text is given,
/// and where the text given is no timestamp.
pub open spec fn option_timestamp(tokens: Seq<TokenView>, kind: token::Option) -> Option<
    NaiveDateTime,
> {
    match option_text(tokens, kind) {
        Some(text) => timestamp_of(text),
        None => None,
    }
}

/// Whether `c` is one of the digits `0` to `9`.
pub open spec fn is_digit(c: char) -> bool {
    '0' <= c <= '9'
}

/// The number that decimal digits stand for.
pub open spec fn decimal_value(digits: Seq<char>) -> int
    decreases digits.len(),
{
    if digits.len() == 0 {
        0
    } else {
        10 * decimal_value(digits.drop_last()) + (digits.last() as int - '0' as int)
    }
}

/// The identifier that a text stands for: the text is one or more decimal
/// digits, and their number is at most 127.
pub open spec fn id_of(text: Seq<char>) -> Option<i8> {
    if text.len() > 0 && (forall|i: int| 0 <= i < text.len() ==> is_digit(#[trigger] text[i]))
        && decimal_value(text) <= i8::MAX {
        Some(decimal_value(text) as i8)
    } else {
        None
    }
}

/// The identifier that a token stands for.
pub open spec fn token_id(token: TokenView) -> Option<i8> {
    match token_text(token) {
        Some(text) => id_of(text),
        None => None,
    }
}

/// The first position at or after `from` that holds no text token.
pub open spec fn texts_end(tokens: Seq<TokenView>, from: int) -> int
    decreases tokens.len() - from,
{
    if 0 <= from < tokens.len() && tokens[from] is Text {
        texts_end(tokens, from + 1)
    } else {
        from
    }
}

/// The identifiers at the head of `tokens`: the text tokens up to the first
/// token that is none. There is at least one, and each stands for an
/// identifier.
pub open spec fn id_list(tokens: Seq<TokenView>) -> Result<Seq<i8>, ParserErr> {
    let count = texts_end(tokens, 0);
    if count > 0 && (forall|i: int| 0 <= i < count ==> token_id(#[trigger] tokens[i]) is Some) {
        Ok(Seq::new(count as nat, |i: int| token_id(tokens[i])->0))
    } else {
        Err(ParserErr::RequiredArgument)
    }
}

/// `todo create`: a title, then options for the description, the start and
/// the end.
pub open spec fn todo_create_of(tokens: Seq<TokenView>) -> Result<CommandView, ParserErr> {
    if tokens.len() > 0 && token_text(tokens[0]) is Some {
        let options = tokens.skip(1);
        Ok(
            CommandView::TodoCreate {
                title: token_text(tokens[0])->0,
                description: option_text(options, token::Option::Description),
                start: option_timestamp(options, token::Option::Start),
                end: option_timestamp(options, token::Option::End),
            },
        )
    } else {
        Err(ParserErr::RequiredArgument)
    }
}

/// `todo read`: identifiers. What follows them counts for nothing.
pub open spec fn todo_read_of(tokens: Seq<TokenView>) -> Result<CommandView, ParserErr> {
    match id_list(tokens) {
        Ok(ids) => Ok(CommandView::TodoRead { ids }),
        Err(error) => Err(error),
    }
}

/// `todo update`: identifiers, then options for the title, the description,
/// the start and the end.
pub open spec fn todo_update_of(tokens: Seq<TokenView>) -> Result<CommandView, ParserErr> {
    match id_list(tokens) {
        Ok(ids) => {
            let options = tokens.skip(texts_end(tokens, 0));
            Ok(
                CommandView::TodoUpdate {
                    ids,
                    title: option_text(options, token::Option::Title),
                    description: option_text(options, token::Option::Description),
                    start: option_timestamp(options, token::Option::Start),
                    end: option_timestamp(options, token::Option::End),
                },
            )
        },
        Err(error) => Err(error),
    }
}

/// `todo delete`: identifiers. What follows them counts for nothing.
pub open spec fn todo_delete_of(tokens: Seq<TokenView>) -> Result<CommandView, ParserErr> {
    match id_list(tokens) {
        Ok(ids) => Ok(CommandView::TodoDelete { ids }),
        Err(error) => Err(error),
    }
}

/// What stands behind `todo`: one of `create`, `read`, `update` and `delete`,
/// then what that asks for.
pub open spec fn todo_command_of(tokens: Seq<TokenView>) -> Result<CommandView, ParserErr> {
    if tokens.len() == 0 {
        Err(ParserErr::UnexpectedToken)
    } else {
        let rest = tokens.skip(1);
        match tokens[0] {
            TokenView::Keyword(Keyword::Create) => todo_create_of(rest),
            TokenView::Keyword(Keyword::Read) => todo_read_of(rest),
            TokenView::Keyword(Keyword::Update) => todo_update_of(rest),
            TokenView::Keyword(Keyword::Delete) => todo_delete_of(rest),
            _ => Err(ParserErr::UnexpectedToken),
        }
    }
}

/// What stands behind `user`: nothing.
pub open spec fn user_command_of(tokens: Seq<TokenView>) -> Result<CommandView, ParserErr> {
    if tokens.len() == 0 {
        Ok(CommandView::UserRead)
    } else {
        Err(ParserErr::UnexpectedToken)
    }
}

/// What stands behind `calendar`: nothing.
pub open spec fn calendar_command_of(tokens: Seq<TokenView>) -> Result<CommandView, ParserErr> {
    if tokens.len() == 0 {
        Ok(CommandView::CalendarRead)
    } else {
        Err(ParserErr::UnexpectedToken)
    }
}

/// The command that tokens stand for: one of `todo`, `user` and `calendar`,
/// then what that asks for.
pub open spec fn command_of(tokens: Seq<TokenView>) -> Result<CommandView, ParserErr> {
    if tokens.len() == 0 {
        Err(ParserErr::EmptySource)
    } else {
        let rest = tokens.skip(1);
        match tokens[0] {
            TokenView::Keyword(Keyword::Todo) => todo_command_of(rest),
            TokenView::Keyword(Keyword::User) => user_command_of(rest),
            TokenView::Keyword(Keyword::Calendar) => calendar_command_of(rest),
            _ => Err(ParserErr::UnexpectedToken),
        }
    }
}

/// The outcome of parsing as contracts see it.
pub open spec fn result_view(result: Result<Command, ParserErr>) -> Result<CommandView, ParserErr> {
    match result {
        Ok(command) => Ok(command@),
        Err(error) => Err(error),
    }
}

/// The characters of a line, in their order.
pub fn chars_of(source: &str) -> (chars: Vec<char>)
    ensures
        chars@ == source@,
{
    let mut chars: Vec<char> = Vec::new();
    for c in it: source.chars()
        invariant
            it.seq() == source@,
            chars@ == it.seq().take(it.index()),
    {
        chars.push(c);
    }
    chars
}

/// The views of a part of a slice are that part of the views of the slice.
proof fn lemma_views_of_part(tokens: &[Token], part: &[Token], from: int, to: int)
    requires
        0 <= from <= to <= tokens@.len(),
        part@ == tokens@.subrange(from, to),
    ensures
        part.deep_view() == tokens.deep_view().subrange(from, to),
{
    assert(part.deep_view() =~= tokens.deep_view().subrange(from, to));
}

/// A search for an option ends at or after the position where it starts, on
/// a pair if it ends before the last token, and passes no pair.
pub proof fn lemma_first_option_pair(tokens: Seq<TokenView>, kind: token::Option, from: int)
    requires
        0 <= from <= tokens.len(),
    ensures
        from <= first_option_pair(tokens, kind, from) <= tokens.len(),
        first_option_pair(tokens, kind, from) < tokens.len() ==> is_option_pair(
            tokens,
            kind,
            first_option_pair(tokens, kind, from),
        ),
        forall|i: int|
            from <= i < first_option_pair(tokens, kind, from) ==> !is_option_pair(tokens, kind, i),
    decreases tokens.len() - from,
{
    if from + 1 >= tokens.len() {
    } else if is_option_pair(tokens, kind, from) {
    } else {
        lemma_first_option_pair(tokens, kind, from + 1);
    }
}

/// The text tokens from `from` on end at or after `from`, within the tokens,
/// and before a token that is no text.
pub proof fn lemma_texts_end(tokens: Seq<TokenView>, from: int)
    requires
        0 <= from <= tokens.len(),
    ensures
        from <= texts_end(tokens, from) <= tokens.len(),
        forall|i: int| from <= i < texts_end(tokens, from) ==> tokens[i] is Text,
        texts_end(tokens, from) < tokens.len() ==> !(tokens[texts_end(tokens, from)] is Text),
    decreases tokens.len() - from,
{
    if 0 <= from < tokens.len() && tokens[from] is Text {
        lemma_texts_end(tokens, from + 1);
    }
}

/// The search for an option from `from` on ends at `at`, if no pair stands
/// before `at` and `at` is a pair or the number of tokens.
proof fn lemma_first_option_pair_is(
    tokens: Seq<TokenView>,
    kind: token::Option,
    from: int,
    at: int,
)
    requires
        0 <= from <= at <= tokens.len(),
        forall|i: int| from <= i < at ==> !is_option_pair(tokens, kind, i),
        at < tokens.len() ==> is_option_pair(tokens, kind, at),
    ensures
        first_option_pair(tokens, kind, from) == at,
    decreases tokens.len() - from,
{
    if from + 1 >= tokens.len() {
    } else if from < at {
        lemma_first_option_pair_is(tokens, kind, from + 1, at);
    }
}

/// The text tokens from `from` on end at `end`, if text tokens stand from
/// `from` up to `end` and none stands at `end`.
proof fn lemma_texts_end_is(tokens: Seq<TokenView>, from: int, end: int)
    requires
        0 <= from <= end <= tokens.len(),
        forall|i: int| from <= i < end ==> tokens[i] is Text,
        end < tokens.len() ==> !(tokens[end] is Text),
    ensures
        texts_end(tokens, from) == end,
    decreases end - from,
{
    if from < end {
        lemma_texts_end_is(tokens, from + 1, end);
    }
}

/// An option token with no text token right behind it counts for nothing:
/// without it, the same text is given for every option.
pub proof fn lemma_unpaired_option_gives_no_text(
    tokens: Seq<TokenView>,
    i: int,
    kind: token::Option,
)
    requires
        0 <= i < tokens.len(),
        tokens[i] is Option,
        i + 1 < tokens.len() ==> !(tokens[i + 1] is Text),
    ensures
        option_text(tokens.remove(i), kind) == option_text(tokens, kind),
{
    let without = tokens.remove(i);
    let at = first_option_pair(tokens, kind, 0);
    lemma_first_option_pair(tokens, kind, 0);
    assert(!is_option_pair(tokens, kind, i));
    assert(!is_option_pair(tokens, kind, i - 1));
    assert forall|j: int| 0 <= j < i - 1 implies is_option_pair(without, kind, j)
        == is_option_pair(tokens, kind, j) by {}
    assert(!is_option_pair(without, kind, i - 1));
    assert forall|j: int| i <= j implies is_option_pair(without, kind, j) == is_option_pair(
        tokens,
        kind,
        j + 1,
    ) by {}
    if at < i {
        lemma_first_option_pair_is(without, kind, 0, at);
    } else {
        assert forall|j: int| 0 <= j < at - 1 implies !is_option_pair(without, kind, j) by {
            if j >= i {
                assert(!is_option_pair(tokens, kind, j + 1));
            }
        }
        lemma_first_option_pair_is(without, kind, 0, at - 1);
    }
}

/// An option token behind the first three tokens, with no text token right
/// behind it, counts for nothing: without it, the tokens stand for the same
/// command, or fail for the same reason. In a `todo` command every option
/// token stands behind the first three tokens.
pub proof fn lemma_unpaired_option_is_ignored(tokens: Seq<TokenView>, i: int)
    requires
        3 <= i < tokens.len(),
        tokens[i] is Option,
        i + 1 < tokens.len() ==> !(tokens[i + 1] is Text),
    ensures
        command_of(tokens.remove(i)) == command_of(tokens),
{
    let without = tokens.remove(i);
    let arguments = tokens.skip(2);
    assert(without.skip(1) =~= tokens.skip(1).remove(i - 1));
    assert(without.skip(1).skip(1) =~= arguments.remove(i - 2));
    assert(tokens.skip(1).skip(1) =~= arguments);
    assert(without[0] == tokens[0]);
    assert(without.skip(1)[0] == tokens.skip(1)[0]);
    lemma_unpaired_option_among_arguments(arguments, i - 2);
}

/// What [`lemma_unpaired_option_is_ignored`] says, of the tokens behind the
/// first two.
proof fn lemma_unpaired_option_among_arguments(arguments: Seq<TokenView>, i: int)
    requires
        1 <= i < arguments.len(),
        arguments[i] is Option,
        i + 1 < arguments.len() ==> !(arguments[i + 1] is Text),
    ensures
        todo_create_of(arguments.remove(i)) == todo_create_of(arguments),
        todo_read_of(arguments.remove(i)) == todo_read_of(arguments),
        todo_update_of(arguments.remove(i)) == todo_update_of(arguments),
        todo_delete_of(arguments.remove(i)) == todo_delete_of(arguments),
{
    let without = arguments.remove(i);
    assert(without[0] == arguments[0]);

    assert(without.skip(1) =~= arguments.skip(1).remove(i - 1));
    lemma_unpaired_option_gives_no_text(arguments.skip(1), i - 1, token::Option::Description);
    lemma_unpaired_option_gives_no_text(arguments.skip(1), i - 1, token::Option::Start);
    lemma_unpaired_option_gives_no_text(arguments.skip(1), i - 1, token::Option::End);

    let count = texts_end(arguments, 0);
    lemma_texts_end(arguments, 0);
    assert(count <= i) by {
        if count > i {
            assert(arguments[i] is Text);
        }
    }
    assert forall|j: int| 0 <= j < count implies without[j] == arguments[j] by {}
    lemma_texts_end_is(without, 0, count);
    assert(id_list(without) == id_list(arguments)) by {
        if id_list(arguments) is Ok {
            assert(id_list(without)->Ok_0 =~= id_list(arguments)->Ok_0);
        }
    }
    assert(without.skip(count) =~= arguments.skip(count).remove(i - count));
    lemma_unpaired_option_gives_no_text(arguments.skip(count), i - count, token::Option::Title);
    lemma_unpaired_option_gives_no_text(
        arguments.skip(count),
        i - count,
        token::Option::Description,
    );
    lemma_unpaired_option_gives_no_text(arguments.skip(count), i - count, token::Option::Start);
    lemma_unpaired_option_gives_no_text(arguments.skip(count), i - count, token::Option::End);
}

/// In a `todo create`, a text that is no timestamp leaves its field unset
/// and the command stands: with a title, the tokens are a command whatever is
/// given for the start and the end.
pub proof fn lemma_unread_timestamp_in_create(tokens: Seq<TokenView>)
    requires
        tokens.len() > 0,
        token_text(tokens[0]) is Some,
    ensures
        todo_create_of(tokens) is Ok,
        option_text(tokens.skip(1), token::Option::Start) matches Some(text) && timestamp_of(text)
            is None ==> todo_create_of(tokens)->Ok_0->TodoCreate_start is None,
        option_text(tokens.skip(1), token::Option::End) matches Some(text) && timestamp_of(text)
            is None ==> todo_create_of(tokens)->Ok_0->TodoCreate_end is None,
{
}

/// In a `todo update`, a text that is no timestamp leaves its field unset
/// and the command stands: with identifiers, the tokens are a command
/// whatever is given for the start and the end.
pub proof fn lemma_unread_timestamp_in_update(tokens: Seq<TokenView>)
    requires
        id_list(tokens) is Ok,
    ensures
        todo_update_of(tokens) is Ok,
        option_text(tokens.skip(texts_end(tokens, 0)), token::Option::Start) matches Some(text)
            && timestamp_of(text) is None ==> todo_update_of(tokens)->Ok_0->TodoUpdate_start
            is None,
        option_text(tokens.skip(texts_end(tokens, 0)), token::Option::End) matches Some(text)
            && timestamp_of(text) is None ==> todo_update_of(tokens)->Ok_0->TodoUpdate_end is None,
{
}

/// A command that tokens stand for is well formed: its texts have
/// characters, and its identifiers are at least one and not below zero.
pub proof fn lemma_command_is_well_formed(tokens: Seq<TokenView>)
    ensures
        command_of(tokens) matches Ok(command) ==> command.well_formed(),
{
    if tokens.len() >= 2 {
        let arguments = tokens.skip(1).skip(1);
        lemma_texts_end(arguments, 0);
        if id_list(arguments) is Ok {
            let ids = id_list(arguments)->Ok_0;
            assert forall|i: int| 0 <= i < ids.len() implies ids[i] >= 0 by {
                assert(token_id(arguments[i]) is Some);
                lemma_decimal_value_is_natural(token_text(arguments[i])->0);
            }
        }
    }
}

/// Tokens are an empty source exactly when there are none.
pub proof fn lemma_empty_source_has_no_tokens(tokens: Seq<TokenView>)
    ensures
        command_of(tokens) == Err::<CommandView, ParserErr>(ParserErr::EmptySource)
            <==> tokens.len() == 0,
{
}

/// Parsing a line twice gives the same command, or the same error.
pub proof fn lemma_parse_is_repeatable(
    line: Seq<char>,
    first: Result<Command, ParserErr>,
    second: Result<Command, ParserErr>,
)
    requires
        result_view(first) == command_of(lex(line)),
        result_view(second) == command_of(lex(line)),
    ensures
        result_view(first) == result_view(second),
{
}

/// Digits appended to a number do not make it smaller.
proof fn lemma_decimal_value_grows(digits: Seq<char>, length: int)
    requires
        0 <= length <= digits.len(),
        forall|i: int| 0 <= i < digits.len() ==> is_digit(#[trigger] digits[i]),
    ensures
        0 <= decimal_value(digits.take(length)) <= decimal_value(digits),
    decreases digits.len() - length,
{
    if length == digits.len() {
        assert(digits.take(length) =~= digits);
        lemma_decimal_value_is_natural(digits);
    } else {
        lemma_decimal_value_grows(digits, length + 1);
        assert(digits.take(length + 1).drop_last() =~= digits.take(length));
        lemma_decimal_value_is_natural(digits.take(length));
    }
}

/// Digits stand for a natural number.
proof fn lemma_decimal_value_is_natural(digits: Seq<char>)
    requires
        forall|i: int| 0 <= i < digits.len() ==> is_digit(#[trigger] digits[i]),
    ensures
        0 <= decimal_value(digits),
    decreases digits.len(),
{
    if digits.len() > 0 {
        lemma_decimal_value_is_natural(digits.drop_last());
    }
}

/// The text that a token carries.
fn text_of_token(token: &Token) -> (text: Option<&String>)
    ensures
        match text {
            Some(text) => token_text(token@) == Some(text@),
            None => token_text(token@) is None,
        },
{
    match token {
        Token::Text(Text::Value(text)) => if text.as_str().is_empty() {
            None
        } else {
            Some(text)
        },
        _ => None,
    }
}

/// The identifier that a text stands for.
pub fn parse_id(text: &str) -> (id: Option<i8>)
    ensures
        id == id_of(text@),
{
    let digits = chars_of(text);
    if digits.len() == 0 {
        return None;
    }
    let mut value: i8 = 0;
    let mut index: usize = 0;
    while index < digits.len()
        invariant
            index <= digits.len(),
            digits@ == text@,
            forall|i: int| 0 <= i < index ==> is_digit(#[trigger] digits@[i]),
            value == decimal_value(digits@.take(index as int)),
            0 <= value,
        decreases digits.len() - index,
    {
        let c = digits[index];
        if c < '0' || c > '9' {
            return None;
        }
        let digit: i8 = (c as u8 - '0' as u8) as i8;
        proof {
            assert(digits@.take(index + 1).drop_last() =~= digits@.take(index as int));
        }
        if value > (i8::MAX - digit) / 10 {
            proof {
                if forall|i: int| 0 <= i < digits@.len() ==> is_digit(#[trigger] digits@[i]) {
                    lemma_decimal_value_grows(digits@, index + 1);
                }
            }
            return None;
        }
        value = value * 10 + digit;
        index += 1;
    }
    proof {
        assert(digits@.take(index as int) =~= digits@);
    }
    Some(value)
}

impl Parser {
    /// A parser that splits its lines with `tokenizer`.
    pub fn new(tokenizer: Tokenizer) -> (parser: Self)
        ensures
            parser.tokenizer == tokenizer,
    {
        return Self { tokenizer };
    }

    /// Parses a line into a command: the command that the tokens of the line
    /// stand for, or the reason why they stand for none. It leaves the
    /// parser as it was.
    pub fn parse(&mut self, source: &str) -> (result: Result<Command, ParserErr>)
        ensures
            result_view(result) == command_of(lex(source@)),
            result matches Ok(command) ==> command@.well_formed(),
            *final(self) == *old(self),
    {
        let chars: Vec<char> = chars_of(source);
        let tokens: Vec<Token> = match self.tokenizer.tokenize(chars) {
            Ok(it) => it,
            Err(_) => return Err(ParserErr::EmptySource),
        };

        self.parse_program(&tokens)
    }

    /// Parses the tokens of a line into a command.
    pub fn parse_program(&mut self, tokens: &Vec<Token>) -> (result: Result<Command, ParserErr>)
        ensures
            result_view(result) == command_of(tokens.deep_view()),
            result matches Ok(command) ==> command@.well_formed(),
            *final(self) == *old(self),
    {
        proof {
            lemma_command_is_well_formed(tokens.deep_view());
        }
        if tokens.len() == 0 {
            return Err(ParserErr::EmptySource);
        }
        let tokens = tokens.as_slice();
        let (program_token, rest) = tokens.split_at(1);
        proof {
            lemma_views_of_part(tokens, rest, 1, tokens@.len() as int);
        }

        match &program_token[0] {
            Token::Keyword(Keyword::Todo) => self.parse_todo_command(rest),
            Token::Keyword(Keyword::User) => self.parse_user_command(rest),
            Token::Keyword(Keyword::Calendar) => self.parse_calendar_command(rest),
            _ => Err(ParserErr::UnexpectedToken),
        }
    }

    /// Parses what stands behind `todo`.
    fn parse_todo_command(&mut self, tokens: &[Token]) -> (result: Result<Command, ParserErr>)
        ensures
            result_view(result) == todo_command_of(tokens.deep_view()),
            *final(self) == *old(self),
    {
        if tokens.len() == 0 {
            return Err(ParserErr::UnexpectedToken);
        }
        let (command_token, rest) = tokens.split_at(1);
        proof {
            lemma_views_of_part(tokens, rest, 1, tokens@.len() as int);
        }

        match &command_token[0] {
            Token::Keyword(Keyword::Create) => self.parse_todo_create_command(rest),
            Token::Keyword(Keyword::Read) => self.parse_todo_read_command(rest),
            Token::Keyword(Keyword::Update) => self.parse_todo_update_command(rest),
            Token::Keyword(Keyword::Delete) => self.parse_todo_delete_command(rest),
            _ => Err(ParserErr::UnexpectedToken),
        }
    }

    /// Parses what stands behind `todo create`.
    fn parse_todo_create_command(&mut self, tokens: &[Token]) -> (result: Result<
        Command,
        ParserErr,
    >)
        ensures
            result_view(result) == todo_create_of(tokens.deep_view()),
            *final(self) == *old(self),
    {
        if tokens.len() == 0 {
            return Err(ParserErr::RequiredArgument);
        }
        let (argument_token, rest) = tokens.split_at(1);
        proof {
            lemma_views_of_part(tokens, rest, 1, tokens@.len() as int);
        }

        let title = match text_of_token(&argument_token[0]) {
            Some(text) => text.clone(),
            None => return Err(ParserErr::RequiredArgument),
        };
        let description = self.extract_option(&token::Option::Description, rest);
        let start = self.extract_timestamp(&token::Option::Start, rest);
        let end = self.extract_timestamp(&token::Option::End, rest);

        Ok(Command::TodoCreate { title, description, start, end })
    }

    /// Parses what stands behind `todo read`.
    fn parse_todo_read_command(&mut self, tokens: &[Token]) -> (result: Result<Command, ParserErr>)
        ensures
            result_view(result) == todo_read_of(tokens.deep_view()),
            *final(self) == *old(self),
    {
        match self.extract_ids(tokens) {
            Ok(ids) => Ok(Command::TodoRead { ids }),
            Err(error) => Err(error),
        }
    }

    /// Parses what stands behind `todo update`.
    fn parse_todo_update_command(&mut self, tokens: &[Token]) -> (result: Result<
        Command,
        ParserErr,
    >)
        ensures
            result_view(result) == todo_update_of(tokens.deep_view()),
            *final(self) == *old(self),
    {
        let ids = match self.extract_ids(tokens) {
            Ok(ids) => ids,
            Err(error) => return Err(error),
        };
        proof {
            lemma_texts_end(tokens.deep_view(), 0);
        }
        let (_, rest) = tokens.split_at(ids.len());
        proof {
            lemma_views_of_part(tokens, rest, ids@.len() as int, tokens@.len() as int);
        }
        let title = self.extract_option(&token::Option::Title, rest);
        let description = self.extract_option(&token::Option::Description, rest);
        let start = self.extract_timestamp(&token::Option::Start, rest);
        let end = self.extract_timestamp(&token::Option::End, rest);

        Ok(Command::TodoUpdate { ids, title, description, start, end })
    }

    /// Parses what stands behind `todo delete`.
    fn parse_todo_delete_command(&mut self, tokens: &[Token]) -> (result: Result<
        Command,
        ParserErr,
    >)
        ensures
            result_view(result) == todo_delete_of(tokens.deep_view()),
            *final(self) == *old(self),
    {
        match self.extract_ids(tokens) {
            Ok(ids) => Ok(Command::TodoDelete { ids }),
            Err(error) => Err(error),
        }
    }

    /// Parses what stands behind `user`.
    fn parse_user_command(&mut self, tokens: &[Token]) -> (result: Result<Command, ParserErr>)
        ensures
            result_view(result) == user_command_of(tokens.deep_view()),
            *final(self) == *old(self),
    {
        if tokens.len() == 0 {
            Ok(Command::UserRead)
        } else {
            Err(ParserErr::UnexpectedToken)
        }
    }

    /// Parses what stands behind `calendar`.
    fn parse_calendar_command(&mut self, tokens: &[Token]) -> (result: Result<Command, ParserErr>)
        ensures
            result_view(result) == calendar_command_of(tokens.deep_view()),
            *final(self) == *old(self),
    {
        if tokens.len() == 0 {
            Ok(Command::CalendarRead)
        } else {
            Err(ParserErr::UnexpectedToken)
        }
    }

    /// The text given for an option among `tokens`.
    pub fn extract_option(&mut self, option_type: &token::Option, tokens: &[Token]) -> (text:
        Option<String>)
        ensures
            text_view(text) == option_text(tokens.deep_view(), *option_type),
            *final(self) == *old(self),
    {
        let ghost views = tokens.deep_view();
        let mut next: usize = 1;
        while next < tokens.len()
            invariant
                views == tokens.deep_view(),
                1 <= next,
                first_option_pair(views, *option_type, 0) == first_option_pair(
                    views,
                    *option_type,
                    next - 1,
                ),
            decreases tokens@.len() - next,
        {
            let found = match (&tokens[next - 1], &tokens[next]) {
                (Token::Option(option), Token::Text(_)) => *option == *option_type,
                _ => false,
            };
            assert(found == is_option_pair(views, *option_type, next - 1));
            if found {
                return match text_of_token(&tokens[next]) {
                    Some(text) => Some(text.clone()),
                    None => None,
                };
            }
            next += 1;
        }
        None
    }

    /// The timestamp given for an option among `tokens`.
    fn extract_timestamp(&mut self, option_type: &token::Option, tokens: &[Token]) -> (timestamp:
        Option<NaiveDateTime>)
        ensures
            timestamp == option_timestamp(tokens.deep_view(), *option_type),
            *final(self) == *old(self),
    {
        match self.extract_option(option_type, tokens) {
            Some(text) => read_timestamp(text.as_str()),
            None => None,
        }
    }

    /// The identifiers at the head of `tokens`.
    fn extract_ids(&mut self, tokens: &[Token]) -> (result: Result<Vec<i8>, ParserErr>)
        ensures
            match result {
                Ok(ids) => id_list(tokens.deep_view()) == Ok::<Seq<i8>, ParserErr>(ids@),
                Err(error) => id_list(tokens.deep_view()) == Err::<Seq<i8>, ParserErr>(error),
            },
            result matches Ok(ids) ==> ids@.len() == texts_end(tokens.deep_view(), 0),
            *final(self) == *old(self),
    {
        let ghost views = tokens.deep_view();
        let mut ids: Vec<i8> = Vec::new();
        let mut index: usize = 0;
        while index < tokens.len()
            invariant_except_break
                views == tokens.deep_view(),
                index <= tokens@.len(),
                texts_end(views, 0) == texts_end(views, index as int),
                ids@.len() == index,
                forall|i: int| 0 <= i < index ==> token_id(#[trigger] views[i]) == Some(ids@[i]),
            ensures
                views == tokens.deep_view(),
                index <= tokens@.len(),
                texts_end(views, 0) == index,
                ids@.len() == index,
                forall|i: int| 0 <= i < index ==> token_id(#[trigger] views[i]) == Some(ids@[i]),
            decreases tokens@.len() - index,
        {
            match &tokens[index] {
                Token::Text(_) => {},
                _ => {
                    break ;
                },
            }
            proof {
                lemma_texts_end(views, index + 1);
            }
            let id = match text_of_token(&tokens[index]) {
                Some(text) => parse_id(text.as_str()),
                None => None,
            };
            match id {
                Some(id) => ids.push(id),
                None => {
                    assert(token_id(views[index as int]) is None);
                    return Err(ParserErr::RequiredArgument);
                },
            }
            index += 1;
        }
        if ids.len() == 0 {
            Err(ParserErr::RequiredArgument)
        } else {
            assert(ids@ =~= Seq::new(index as nat, |i: int| token_id(views[i])->0));
            Ok(ids)
        }
    }
}

impl Default for Parser {
    fn default() -> (parser: Self)
        ensures
            parser.tokenizer == (Tokenizer {}),
    {
        Parser { tokenizer: Tokenizer::new() }
    }
}

} // verus!
