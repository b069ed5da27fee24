//! The tokenizer: a finite-state machine that splits a line into tokens.
//!
//! The machine reads a character only through its class, so the grammar of
//! tokens is stated over a line together with the classes of its characters
//! ([`lex_classified`]). Which class a character has is decided by
//! [`char_code`], from what std reports of it.

use crate::token::{keyword_of, option_of, text_of, Token, TokenView};
use vstd::prelude::*;
use vstd::std_specs::convert::FromSpecImpl;

verus! {

/// The error type of the tokenizer. No line makes the tokenizer fail: a line
/// that cannot be read to its end gives the tokens before the fault.
#[derive(PartialEq, Eq, Clone, Copy, Debug, Structural)]
pub enum TokenizerErr {
    Error,
}

/// The tokenizer. It holds no state between calls.
#[derive(PartialEq, Eq, Clone, Copy, Debug, Structural)]
pub struct Tokenizer {}

/// The class of a character, or of the end of the line (`Empty`).
#[derive(PartialEq, Eq, Clone, Copy, Debug, Structural)]
pub enum CharCode {
    Alphabetic,
    Whitespace,
    QuotationMark,
    Dash,
    NotSupported,
    Empty,
}

/// Where the machine stands between two steps.
enum State {
    BeginToken,
    EndToken(Token),
    Keyword,
    Option,
    Text,
    Exit,
}

/// What std's `char::is_alphabetic` returns for `c`: whether `c` has the
/// Alphabetic property of the Unicode standard.
pub uninterp spec fn is_alphabetic(c: char) -> bool;

/// What std's `char::is_whitespace` returns for `c`: whether `c` has the
/// White_Space property of the Unicode standard.
pub uninterp spec fn is_whitespace(c: char) -> bool;

/// std's `char::is_alphabetic` computes a function of the character alone,
/// which [`is_alphabetic`] names.
pub assume_specification[ char::is_alphabetic ](c: char) -> (alphabetic: bool)
    ensures
        alphabetic == is_alphabetic(c),
;

/// std's `char::is_whitespace` computes a function of the character alone,
/// which [`is_whitespace`] names.
pub assume_specification[ char::is_whitespace ](c: char) -> (whitespace: bool)
    ensures
        whitespace == is_whitespace(c),
;

/// The class of `c`, given whether it is alphabetic and whether it is
/// whitespace. Being alphabetic is asked first, then being whitespace, then
/// being the quotation mark, then being the dash.
pub open spec fn code_of(c: char, alphabetic: bool, whitespace: bool) -> CharCode {
    if alphabetic {
        CharCode::Alphabetic
    } else if whitespace {
        CharCode::Whitespace
    } else if c == '"' {
        CharCode::QuotationMark
    } else if c == '-' {
        CharCode::Dash
    } else {
        CharCode::NotSupported
    }
}

/// The class of a character, or of the end of the line where there is none.
pub open spec fn char_code(c: Option<char>) -> CharCode {
    match c {
        Some(c) => code_of(c, is_alphabetic(c), is_whitespace(c)),
        None => CharCode::Empty,
    }
}

/// The classes of the characters of a line, one for one.
pub open spec fn codes_of(line: Seq<char>) -> Seq<CharCode> {
    Seq::new(line.len(), |i: int| char_code(Some(line[i])))
}

/// The class at position `i`; past the last class it is `Empty`.
pub open spec fn code_at(codes: Seq<CharCode>, i: int) -> CharCode {
    if 0 <= i < codes.len() {
        codes[i]
    } else {
        CharCode::Empty
    }
}

/// The first position at or after `i` whose class is not `Alphabetic`.
pub open spec fn keyword_end(codes: Seq<CharCode>, i: int) -> int
    decreases codes.len() - i,
{
    if code_at(codes, i) is Alphabetic {
        keyword_end(codes, i + 1)
    } else {
        i
    }
}

/// The first position at or after `i` whose class is `QuotationMark` or
/// `Empty`.
pub open spec fn quote_or_end(codes: Seq<CharCode>, i: int) -> int
    decreases codes.len() - i,
{
    if 0 <= i < codes.len() && !(codes[i] is QuotationMark) && !(codes[i] is Empty) {
        quote_or_end(codes, i + 1)
    } else {
        i
    }
}

/// The characters from position `from` up to `to` whose class is not
/// `Whitespace`, in their order.
pub open spec fn option_name(chars: Seq<char>, codes: Seq<CharCode>, from: int, to: int) -> Seq<char>
    decreases to - from,
{
    if from >= to {
        Seq::empty()
    } else if code_at(codes, from) is Whitespace {
        option_name(chars, codes, from + 1, to)
    } else {
        seq![chars[from]] + option_name(chars, codes, from + 1, to)
    }
}

/// The tokens of a line from position `i` on, where `codes` holds the class
/// of each character.
///
/// Whitespace between tokens is skipped. A keyword is a longest run of
/// alphabetic characters. A text stands between two quotation marks; one
/// that is never closed is dropped, and the line ends there. An option starts
/// at a dash and runs to the next quotation mark or to the end of the line;
/// its name is what stands there without the whitespace. Any other character
/// ends the line.
pub open spec fn lex_from(chars: Seq<char>, codes: Seq<CharCode>, i: int) -> Seq<TokenView>
    decreases codes.len() - i,
    via lex_from_decreases
{
    match code_at(codes, i) {
        CharCode::Whitespace => lex_from(chars, codes, i + 1),
        CharCode::Alphabetic => {
            let end = keyword_end(codes, i + 1);
            seq![TokenView::Keyword(keyword_of(chars.subrange(i, end)))] + lex_from(
                chars,
                codes,
                end,
            )
        },
        CharCode::QuotationMark => {
            let close = quote_or_end(codes, i + 1);
            if code_at(codes, close) is QuotationMark {
                seq![TokenView::Text(text_of(chars.subrange(i + 1, close)))] + lex_from(
                    chars,
                    codes,
                    close + 1,
                )
            } else {
                Seq::empty()
            }
        },
        CharCode::Dash => {
            let end = quote_or_end(codes, i + 1);
            seq![TokenView::Option(option_of(option_name(chars, codes, i + 1, end)))] + lex_from(
                chars,
                codes,
                end,
            )
        },
        CharCode::NotSupported | CharCode::Empty => Seq::empty(),
    }
}

#[via_fn]
proof fn lex_from_decreases(chars: Seq<char>, codes: Seq<CharCode>, i: int) {
    if 0 <= i < codes.len() {
        lemma_keyword_end_bounds(codes, i + 1);
        lemma_quote_or_end_bounds(codes, i + 1);
    }
}

/// The tokens of a line whose characters have the classes `codes`.
pub open spec fn lex_classified(chars: Seq<char>, codes: Seq<CharCode>) -> Seq<TokenView> {
    lex_from(chars, codes, 0)
}

/// The tokens of a line.
pub open spec fn lex(line: Seq<char>) -> Seq<TokenView> {
    lex_classified(line, codes_of(line))
}

/// A keyword ends at the first position at or after `i`, within the line or
/// at its end, whose class is not `Alphabetic`.
pub proof fn lemma_keyword_end_bounds(codes: Seq<CharCode>, i: int)
    requires
        0 <= i <= codes.len(),
    ensures
        i <= keyword_end(codes, i) <= codes.len(),
        forall|k: int| i <= k < keyword_end(codes, i) ==> code_at(codes, k) is Alphabetic,
        !(code_at(codes, keyword_end(codes, i)) is Alphabetic),
    decreases codes.len() - i,
{
    if code_at(codes, i) is Alphabetic {
        lemma_keyword_end_bounds(codes, i + 1);
    }
}

/// The search for a quotation mark ends at the first position at or after
/// `i`, within the line or at its end, whose class is `QuotationMark` or
/// `Empty`.
pub proof fn lemma_quote_or_end_bounds(codes: Seq<CharCode>, i: int)
    requires
        0 <= i <= codes.len(),
    ensures
        i <= quote_or_end(codes, i) <= codes.len(),
        forall|k: int|
            i <= k < quote_or_end(codes, i) ==> !(code_at(codes, k) is QuotationMark) && !(code_at(
                codes,
                k,
            ) is Empty),
        code_at(codes, quote_or_end(codes, i)) is QuotationMark || code_at(
            codes,
            quote_or_end(codes, i),
        ) is Empty,
    decreases codes.len() - i,
{
    if 0 <= i < codes.len() && !(codes[i] is QuotationMark) && !(codes[i] is Empty) {
        lemma_quote_or_end_bounds(codes, i + 1);
    }
}

/// A line that starts with a character of no supported class has no tokens.
pub proof fn lemma_unsupported_start_gives_no_tokens(chars: Seq<char>, codes: Seq<CharCode>)
    requires
        codes.len() > 0,
        codes[0] is NotSupported,
    ensures
        lex_classified(chars, codes) == Seq::<TokenView>::empty(),
{
}

/// A line of letters alone is one keyword: the one that the line spells.
pub proof fn lemma_word_is_one_keyword(chars: Seq<char>, codes: Seq<CharCode>)
    requires
        chars.len() == codes.len(),
        codes.len() > 0,
        forall|k: int| 0 <= k < codes.len() ==> codes[k] is Alphabetic,
    ensures
        lex_classified(chars, codes) == seq![TokenView::Keyword(keyword_of(chars))],
{
    lemma_keyword_end_bounds(codes, 1);
    let end = keyword_end(codes, 1);
    assert(end == codes.len()) by {
        if end < codes.len() {
            assert(codes[end] is Alphabetic);
        }
    }
    assert(chars.subrange(0, end) =~= chars);
    assert(lex_from(chars, codes, end) =~= Seq::<TokenView>::empty());
    assert(lex_classified(chars, codes) =~= seq![TokenView::Keyword(keyword_of(chars))]);
}

/// Whether no text among `tokens` is empty.
pub open spec fn texts_are_not_empty(tokens: Seq<TokenView>) -> bool {
    forall|k: int|
        0 <= k < tokens.len() ==> (#[trigger] tokens[k] matches TokenView::Text(Some(text))
            ==> text.len() > 0)
}

/// No text among the tokens of a line is empty: empty quotes give a text
/// token without a text.
pub proof fn lemma_lexed_texts_are_not_empty(chars: Seq<char>, codes: Seq<CharCode>)
    ensures
        texts_are_not_empty(lex_classified(chars, codes)),
{
    lemma_texts_from(chars, codes, 0);
}

/// What [`lemma_lexed_texts_are_not_empty`] says, of the tokens from any
/// position on.
proof fn lemma_texts_from(chars: Seq<char>, codes: Seq<CharCode>, i: int)
    requires
        0 <= i,
    ensures
        texts_are_not_empty(lex_from(chars, codes, i)),
    decreases codes.len() - i,
{
    if i < codes.len() {
        lemma_keyword_end_bounds(codes, i + 1);
        lemma_quote_or_end_bounds(codes, i + 1);
        match codes[i] {
            CharCode::Whitespace => {
                lemma_texts_from(chars, codes, i + 1);
            },
            CharCode::Alphabetic => {
                lemma_texts_from(chars, codes, keyword_end(codes, i + 1));
            },
            CharCode::QuotationMark => {
                let close = quote_or_end(codes, i + 1);
                if code_at(codes, close) is QuotationMark {
                    lemma_texts_from(chars, codes, close + 1);
                }
            },
            CharCode::Dash => {
                lemma_texts_from(chars, codes, quote_or_end(codes, i + 1));
            },
            CharCode::NotSupported | CharCode::Empty => {},
        }
    }
}

/// Whether each option among `tokens` is the last token or has a text token
/// right behind it.
pub open spec fn options_are_followed_by_text(tokens: Seq<TokenView>) -> bool {
    forall|k: int|
        0 <= k < tokens.len() - 1 && #[trigger] tokens[k] is Option ==> tokens[k + 1] is Text
}

/// Among the tokens of a line, each option is the last token or has a text
/// token right behind it: an option runs to the quotation mark that opens a
/// text, or to the end of the line.
pub proof fn lemma_lexed_options_are_followed_by_text(chars: Seq<char>, codes: Seq<CharCode>)
    ensures
        options_are_followed_by_text(lex_classified(chars, codes)),
{
    lemma_options_from(chars, codes, 0);
}

/// What [`lemma_lexed_options_are_followed_by_text`] says, of the tokens from
/// any position on.
proof fn lemma_options_from(chars: Seq<char>, codes: Seq<CharCode>, i: int)
    requires
        0 <= i,
    ensures
        options_are_followed_by_text(lex_from(chars, codes, i)),
    decreases codes.len() - i,
{
    if i < codes.len() {
        lemma_keyword_end_bounds(codes, i + 1);
        lemma_quote_or_end_bounds(codes, i + 1);
        let tokens = lex_from(chars, codes, i);
        match codes[i] {
            CharCode::Whitespace => {
                lemma_options_from(chars, codes, i + 1);
            },
            CharCode::Alphabetic => {
                let rest = lex_from(chars, codes, keyword_end(codes, i + 1));
                lemma_options_from(chars, codes, keyword_end(codes, i + 1));
                assert forall|k: int|
                    0 <= k < tokens.len() - 1 && #[trigger] tokens[k] is Option implies tokens[k
                    + 1] is Text by {
                    assert(tokens[k] == rest[k - 1]);
                    assert(tokens[k + 1] == rest[k]);
                }
            },
            CharCode::QuotationMark => {
                let close = quote_or_end(codes, i + 1);
                if code_at(codes, close) is QuotationMark {
                    let rest = lex_from(chars, codes, close + 1);
                    lemma_options_from(chars, codes, close + 1);
                    assert forall|k: int|
                        0 <= k < tokens.len() - 1 && #[trigger] tokens[k] is Option implies tokens[k
                        + 1] is Text by {
                        assert(tokens[k] == rest[k - 1]);
                        assert(tokens[k + 1] == rest[k]);
                    }
                }
            },
            CharCode::Dash => {
                let end = quote_or_end(codes, i + 1);
                let rest = lex_from(chars, codes, end);
                lemma_options_from(chars, codes, end);
                if end < codes.len() {
                    lemma_quote_or_end_bounds(codes, end + 1);
                }
                assert(rest.len() > 0 ==> rest[0] is Text);
                assert forall|k: int|
                    0 <= k < tokens.len() - 1 && #[trigger] tokens[k] is Option implies tokens[k
                    + 1] is Text by {
                    if k > 0 {
                        assert(tokens[k] == rest[k - 1]);
                    }
                    assert(tokens[k + 1] == rest[k]);
                }
            },
            CharCode::NotSupported | CharCode::Empty => {},
        }
    }
}

/// Tokenizing a line twice gives the same tokens.
pub proof fn lemma_tokenize_is_repeatable(
    line: Seq<char>,
    first: Result<Vec<Token>, TokenizerErr>,
    second: Result<Vec<Token>, TokenizerErr>,
)
    requires
        first matches Ok(tokens) && tokens.deep_view() == lex(line),
        second matches Ok(tokens) && tokens.deep_view() == lex(line),
    ensures
        first is Ok,
        second is Ok,
        first->Ok_0.deep_view() == second->Ok_0.deep_view(),
{
}

impl CharCode {
    /// Classifies `c`, given what std reports of it.
    pub fn classify(c: char, alphabetic: bool, whitespace: bool) -> (code: CharCode)
        ensures
            code == code_of(c, alphabetic, whitespace),
    {
        if alphabetic {
            CharCode::Alphabetic
        } else if whitespace {
            CharCode::Whitespace
        } else if c == '"' {
            CharCode::QuotationMark
        } else if c == '-' {
            CharCode::Dash
        } else {
            CharCode::NotSupported
        }
    }
}

impl From<Option<char>> for CharCode {
    fn from(c: Option<char>) -> (code: CharCode)
        ensures
            code == char_code(c),
    {
        match c {
            Some(c) => CharCode::classify(c, c.is_alphabetic(), c.is_whitespace()),
            None => CharCode::Empty,
        }
    }
}

impl FromSpecImpl<Option<char>> for CharCode {
    open spec fn obeys_from_spec() -> bool {
        true
    }

    open spec fn from_spec(c: Option<char>) -> CharCode {
        char_code(c)
    }
}

/// Classifies each character of a line.
pub fn classify_line(source: &Vec<char>) -> (codes: Vec<CharCode>)
    ensures
        codes@ == codes_of(source@),
{
    let mut codes: Vec<CharCode> = Vec::new();
    let mut index: usize = 0;
    while index < source.len()
        invariant
            index <= source.len(),
            codes@.len() == index,
            forall|k: int| 0 <= k < index ==> codes@[k] == char_code(Some(source@[k])),
        decreases source.len() - index,
    {
        codes.push(CharCode::from(Some(source[index])));
        index += 1;
    }
    assert(codes@ =~= codes_of(source@));
    codes
}

impl State {
    /// How many steps the machine can still take without reading a
    /// character.
    spec fn rank(self) -> nat {
        match self {
            State::Keyword | State::Option | State::Text => 3,
            State::EndToken(_) => 2,
            State::BeginToken => 1,
            State::Exit => 0,
        }
    }
}

/// The tokens that the machine has yet to give, when it stands in `state` at
/// `position` with `buffer` read into the token under way.
spec fn pending(
    chars: Seq<char>,
    codes: Seq<CharCode>,
    position: int,
    state: State,
    buffer: Seq<char>,
) -> Seq<TokenView> {
    match state {
        State::BeginToken => lex_from(chars, codes, position),
        State::Keyword => {
            let end = keyword_end(codes, position);
            seq![TokenView::Keyword(keyword_of(buffer + chars.subrange(position, end)))] + lex_from(
                chars,
                codes,
                end,
            )
        },
        State::Text => {
            let close = quote_or_end(codes, position);
            if code_at(codes, close) is QuotationMark {
                seq![TokenView::Text(text_of(buffer + chars.subrange(position, close)))] + lex_from(
                    chars,
                    codes,
                    close + 1,
                )
            } else {
                Seq::empty()
            }
        },
        State::Option => {
            let end = quote_or_end(codes, position);
            seq![
                TokenView::Option(option_of(buffer + option_name(chars, codes, position, end))),
            ] + lex_from(chars, codes, end)
        },
        State::EndToken(token) => seq![token@] + lex_from(chars, codes, position),
        State::Exit => Seq::empty(),
    }
}

/// What holds between two steps of the machine: the tokens given so far,
/// followed by those yet to give, are the tokens of the line.
spec fn machine_invariant(
    chars: Seq<char>,
    codes: Seq<CharCode>,
    position: int,
    state: State,
    buffer: Seq<char>,
    given: Seq<TokenView>,
) -> bool {
    &&& 0 <= position <= chars.len()
    &&& chars.len() == codes.len()
    &&& state is BeginToken ==> buffer.len() == 0
    &&& lex_classified(chars, codes) == given + pending(chars, codes, position, state, buffer)
}

/// With nothing more read, the buffer holds what it held.
proof fn lemma_nothing_read(
    chars: Seq<char>,
    codes: Seq<CharCode>,
    buffer: Seq<char>,
    position: int,
)
    requires
        0 <= position <= chars.len(),
    ensures
        buffer + chars.subrange(position, position) == buffer,
        buffer + option_name(chars, codes, position, position) == buffer,
{
    assert(buffer + chars.subrange(position, position) =~= buffer);
    assert(buffer + option_name(chars, codes, position, position) =~= buffer);
}

/// The character at `position`, read into the buffer, is followed by the
/// characters up to `end` as it was in the line.
proof fn lemma_one_read(chars: Seq<char>, buffer: Seq<char>, position: int, end: int)
    requires
        0 <= position < end <= chars.len(),
    ensures
        buffer.push(chars[position]) + chars.subrange(position + 1, end) == buffer
            + chars.subrange(position, end),
        buffer.len() == 0 ==> buffer + chars.subrange(position, end) == chars.subrange(
            position,
            end,
        ),
{
    assert(buffer.push(chars[position]) + chars.subrange(position + 1, end) =~= buffer
        + chars.subrange(position, end));
    if buffer.len() == 0 {
        assert(buffer + chars.subrange(position, end) =~= chars.subrange(position, end));
    }
}

/// The character at `position`, read into the buffer of an option unless it
/// is whitespace, is followed by the rest of the name as it was in the line.
proof fn lemma_one_read_into_option(
    chars: Seq<char>,
    codes: Seq<CharCode>,
    buffer: Seq<char>,
    position: int,
    end: int,
)
    requires
        0 <= position < end <= chars.len(),
    ensures
        code_at(codes, position) is Whitespace ==> buffer + option_name(
            chars,
            codes,
            position + 1,
            end,
        ) == buffer + option_name(chars, codes, position, end),
        !(code_at(codes, position) is Whitespace) ==> buffer.push(chars[position]) + option_name(
            chars,
            codes,
            position + 1,
            end,
        ) == buffer + option_name(chars, codes, position, end),
        buffer.len() == 0 ==> buffer + option_name(chars, codes, position + 1, end) == option_name(
            chars,
            codes,
            position + 1,
            end,
        ),
{
    let rest = option_name(chars, codes, position + 1, end);
    if !(code_at(codes, position) is Whitespace) {
        assert(buffer.push(chars[position]) + rest =~= buffer + (seq![chars[position]] + rest));
    }
    if buffer.len() == 0 {
        assert(buffer + rest =~= rest);
    }
}

/// A token given is the first of those that were pending.
proof fn lemma_one_given(given: Seq<TokenView>, token: TokenView, rest: Seq<TokenView>)
    ensures
        given.push(token) + rest == given + (seq![token] + rest),
{
    assert(given.push(token) + rest =~= given + (seq![token] + rest));
}

/// The class at `position`, `Empty` past the end of the line.
fn class_at(codes: &Vec<CharCode>, position: usize) -> (code: CharCode)
    ensures
        code == code_at(codes@, position as int),
{
    if position < codes.len() {
        codes[position]
    } else {
        CharCode::Empty
    }
}

impl Tokenizer {
    /// A tokenizer.
    pub fn new() -> (tokenizer: Self)
        ensures
            tokenizer == (Tokenizer {}),
    {
        return Self {};
    }

    /// Splits a line into its tokens. It never fails, and leaves the
    /// tokenizer as it was.
    pub fn tokenize(&mut self, source: Vec<char>) -> (result: Result<Vec<Token>, TokenizerErr>)
        ensures
            result matches Ok(tokens) && tokens.deep_view() == lex(source@),
            *final(self) == *old(self),
    {
        let codes = classify_line(&source);
        self.tokenize_classified(&source, &codes)
    }

    /// Splits a line into its tokens, where `codes` holds the class of each
    /// character. The machine starts between tokens and takes one step at a
    /// time: it reads the character at `position` into the token under way,
    /// or closes that token, or stops.
    pub fn tokenize_classified(&self, source: &Vec<char>, codes: &Vec<CharCode>) -> (result: Result<
        Vec<Token>,
        TokenizerErr,
    >)
        requires
            codes@.len() == source@.len(),
        ensures
            result matches Ok(tokens) && tokens.deep_view() == lex_classified(source@, codes@),
    {
        let length = source.len();
        let mut tokens: Vec<Token> = Vec::new();
        let mut char_buffer = Vec::<char>::new();
        let mut position: usize = 0;
        let mut state = State::BeginToken;

        assert(tokens.deep_view() =~= Seq::<TokenView>::empty());
        loop
            invariant_except_break
                length == source@.len(),
                machine_invariant(
                    source@,
                    codes@,
                    position as int,
                    state,
                    char_buffer@,
                    tokens.deep_view(),
                ),
            ensures
                tokens.deep_view() == lex_classified(source@, codes@),
            decreases source@.len() - position, state.rank(),
        {
            let code = class_at(codes, position);
            let ghost given = tokens.deep_view();
            proof {
                lemma_keyword_end_bounds(codes@, position as int);
                lemma_quote_or_end_bounds(codes@, position as int);
                lemma_nothing_read(source@, codes@, char_buffer@, position as int);
                if position < length {
                    lemma_keyword_end_bounds(codes@, position + 1);
                    lemma_quote_or_end_bounds(codes@, position + 1);
                    lemma_one_read(
                        source@,
                        char_buffer@,
                        position as int,
                        keyword_end(codes@, position + 1),
                    );
                    lemma_one_read(
                        source@,
                        char_buffer@,
                        position as int,
                        quote_or_end(codes@, position + 1),
                    );
                    lemma_one_read_into_option(
                        source@,
                        codes@,
                        char_buffer@,
                        position as int,
                        quote_or_end(codes@, position + 1),
                    );
                }
            }
            state =
            match state {
                State::BeginToken => match code {
                    CharCode::Alphabetic => {
                        char_buffer.push(source[position]);
                        position += 1;
                        State::Keyword
                    },
                    CharCode::Whitespace => {
                        position += 1;
                        State::BeginToken
                    },
                    CharCode::QuotationMark => {
                        position += 1;
                        State::Text
                    },
                    CharCode::Dash => {
                        position += 1;
                        State::Option
                    },
                    _ => State::Exit,
                },
                State::Keyword => match code {
                    CharCode::Alphabetic => {
                        char_buffer.push(source[position]);
                        position += 1;
                        State::Keyword
                    },
                    _ => {
                        let token = Token::Keyword(char_buffer.clone().into());
                        State::EndToken(token)
                    },
                },
                State::Text => match code {
                    CharCode::QuotationMark => {
                        position += 1;
                        let token = Token::Text(char_buffer.clone().into());
                        State::EndToken(token)
                    },
                    CharCode::Empty => State::Exit,
                    _ => {
                        char_buffer.push(source[position]);
                        position += 1;
                        State::Text
                    },
                },
                State::Option => match code {
                    CharCode::QuotationMark => {
                        let token = Token::Option(char_buffer.clone().into());
                        State::EndToken(token)
                    },
                    CharCode::Empty => {
                        let token = Token::Option(char_buffer.clone().into());
                        State::EndToken(token)
                    },
                    CharCode::Whitespace => {
                        position += 1;
                        State::Option
                    },
                    _ => {
                        char_buffer.push(source[position]);
                        position += 1;
                        State::Option
                    },
                },
                State::EndToken(token_type) => {
                    tokens.push(token_type);
                    char_buffer.clear();
                    proof {
                        lemma_one_given(
                            given,
                            token_type@,
                            lex_from(source@, codes@, position as int),
                        );
                        assert(tokens.deep_view() =~= given.push(token_type@));
                    }
                    State::BeginToken
                },
                State::Exit => {
                    assert(given + Seq::<TokenView>::empty() =~= given);
                    break ;
                },
            }
        }

        Ok(tokens)
    }
}

impl Default for Tokenizer {
    fn default() -> (tokenizer: Self)
        ensures
            tokenizer == (Tokenizer {}),
    {
        Tokenizer {}
    }
}

} // verus!
