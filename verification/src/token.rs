//! The token vocabulary: the lexical categories of the command language.

use vstd::prelude::*;
use vstd::std_specs::convert::FromSpecImpl;

verus! {

/// A reserved command word. A word that is not reserved is `Unknown`.
#[derive(PartialEq, Eq, Clone, Copy, Debug, Structural)]
pub enum Keyword {
    Todo,
    User,
    Calendar,
    Create,
    Read,
    Update,
    Delete,
    Unknown,
}

/// The quoted text of a token. Empty quotes give `Empty`, so that a `Value`
/// made from a line is never an empty string.
#[derive(PartialEq, Eq, Clone, Debug)]
pub enum Text {
    Value(String),
    Empty,
}

/// A named argument marker. A name that is not a known code is `Unknown`.
#[derive(PartialEq, Eq, Clone, Copy, Debug, Structural)]
pub enum Option {
    Title,
    Description,
    Start,
    End,
    Unknown,
}

/// One lexical unit of a line.
#[derive(PartialEq, Eq, Clone, Debug)]
pub enum Token {
    Keyword(Keyword),
    Text(Text),
    Option(Option),
}

/// A token as contracts see it: its text is a sequence of characters, absent
/// where the quotes were empty.
pub enum TokenView {
    Keyword(Keyword),
    Text(core::option::Option<Seq<char>>),
    Option(Option),
}

impl View for Text {
    type V = core::option::Option<Seq<char>>;

    open spec fn view(&self) -> Self::V {
        match self {
            Text::Value(text) => Some(text@),
            Text::Empty => None,
        }
    }
}

impl View for Token {
    type V = TokenView;

    open spec fn view(&self) -> TokenView {
        match self {
            Token::Keyword(keyword) => TokenView::Keyword(*keyword),
            Token::Text(text) => TokenView::Text(text@),
            Token::Option(option) => TokenView::Option(*option),
        }
    }
}

impl DeepView for Token {
    type V = TokenView;

    open spec fn deep_view(&self) -> TokenView {
        self@
    }
}

/// The keyword that a word spells: the reserved words are matched exactly,
/// in lower case, and every other word is `Unknown`.
pub open spec fn keyword_of(word: Seq<char>) -> Keyword {
    if word == "todo"@ {
        Keyword::Todo
    } else if word == "user"@ {
        Keyword::User
    } else if word == "calendar"@ {
        Keyword::Calendar
    } else if word == "create"@ {
        Keyword::Create
    } else if word == "read"@ {
        Keyword::Read
    } else if word == "update"@ {
        Keyword::Update
    } else if word == "delete"@ {
        Keyword::Delete
    } else {
        Keyword::Unknown
    }
}

/// The option that a name selects: the single-letter codes are matched
/// exactly, and every other name is `Unknown`.
pub open spec fn option_of(name: Seq<char>) -> Option {
    if name == "t"@ {
        Option::Title
    } else if name == "d"@ {
        Option::Description
    } else if name == "s"@ {
        Option::Start
    } else if name == "e"@ {
        Option::End
    } else {
        Option::Unknown
    }
}

/// The text that quoted characters hold: absent where there are none.
pub open spec fn text_of(chars: Seq<char>) -> core::option::Option<Seq<char>> {
    if chars.len() == 0 {
        None
    } else {
        Some(chars)
    }
}

/// Whether `chars` holds exactly the characters of `word`.
fn spells(chars: &Vec<char>, word: &str) -> (same: bool)
    ensures
        same == (chars@ == word@),
{
    let mut index: usize = 0;
    for c in it: word.chars()
        invariant
            it.seq() == word@,
            index == it.index(),
            index <= chars@.len(),
            forall|k: int| 0 <= k < index ==> chars@[k] == word@[k],
    {
        if index >= chars.len() || chars[index] != c {
            return false;
        }
        index += 1;
    }
    if index == chars.len() {
        assert(chars@ =~= word@);
        true
    } else {
        false
    }
}

impl From<Vec<char>> for Keyword {
    fn from(word: Vec<char>) -> (keyword: Keyword)
        ensures
            keyword == keyword_of(word@),
    {
        if spells(&word, "todo") {
            Keyword::Todo
        } else if spells(&word, "user") {
            Keyword::User
        } else if spells(&word, "calendar") {
            Keyword::Calendar
        } else if spells(&word, "create") {
            Keyword::Create
        } else if spells(&word, "read") {
            Keyword::Read
        } else if spells(&word, "update") {
            Keyword::Update
        } else if spells(&word, "delete") {
            Keyword::Delete
        } else {
            Keyword::Unknown
        }
    }
}

impl FromSpecImpl<Vec<char>> for Keyword {
    open spec fn obeys_from_spec() -> bool {
        true
    }

    open spec fn from_spec(word: Vec<char>) -> Keyword {
        keyword_of(word@)
    }
}

impl From<Vec<char>> for Option {
    fn from(name: Vec<char>) -> (option: Option)
        ensures
            option == option_of(name@),
    {
        if spells(&name, "t") {
            Option::Title
        } else if spells(&name, "d") {
            Option::Description
        } else if spells(&name, "s") {
            Option::Start
        } else if spells(&name, "e") {
            Option::End
        } else {
            Option::Unknown
        }
    }
}

impl FromSpecImpl<Vec<char>> for Option {
    open spec fn obeys_from_spec() -> bool {
        true
    }

    open spec fn from_spec(name: Vec<char>) -> Option {
        option_of(name@)
    }
}

/// Calls std's `String::from_iter` on the characters of `chars`. The string
/// that comes back holds those characters, in their order.
#[verifier::external_body]
fn string_from_chars(chars: Vec<char>) -> (text: String)
    ensures
        text@ == chars@,
{
    String::from_iter(chars)
}

impl From<Vec<char>> for Text {
    fn from(chars: Vec<char>) -> (text: Text)
        ensures
            text@ == text_of(chars@),
    {
        if chars.len() == 0 {
            Text::Empty
        } else {
            Text::Value(string_from_chars(chars))
        }
    }
}

/// No spec function can name the string that `from` builds, so `from_spec`
/// is not obeyed: `from` states its result through the view instead.
impl FromSpecImpl<Vec<char>> for Text {
    open spec fn obeys_from_spec() -> bool {
        false
    }

    open spec fn from_spec(chars: Vec<char>) -> Text {
        Text::Empty
    }
}

} // verus!
