//! The lexer: from source text to tokens.
use vstd::prelude::*;
use vstd::string::StringExecFns;

use crate::error::{Error, ErrorView};
use crate::text::{
    check_decimal, chars_of, is_decimal_literal, is_digit, is_int_literal, lemma_run_end_bounds,
    lemma_run_end_from_inside, parse_int, push_char, run_end, text_of,
};

verus! {

/// The kinds of token.
#[derive(Clone, Copy, PartialEq, Eq, Debug, Hash, Structural)]
pub enum TokenClass {
    Identifier,
    Int,
    Float,
    Assignment,
    Plus,
    Minus,
    Multiply,
    Divide,
    /// `==`, which is set aside: no rule takes it.
    Eq,
    Semicolon,
    /// A line feed. The lexer passes over line feeds and gives no such token.
    Newline,
    OpenParen,
    CloseParen,
    OpenBracket,
    CloseBracket,
    /// `'`, the sign of the transpose.
    Prime,
    Comma,
}

/// How tightly each kind of token binds the operand on its left; 0 for a
/// token that continues no expression.
pub open spec fn precedence_of(class: TokenClass) -> u8 {
    match class {
        TokenClass::Assignment => 1,
        TokenClass::Plus => 3,
        TokenClass::Minus => 3,
        TokenClass::Multiply => 4,
        TokenClass::Divide => 4,
        TokenClass::Prime => 5,
        TokenClass::OpenParen => 6,
        TokenClass::OpenBracket => 7,
        _ => 0,
    }
}

impl TokenClass {
    /// The binding strength of a token of this class.
    pub fn precedence(self) -> (p: u8)
        ensures
            p == precedence_of(self),
    {
        match self {
            TokenClass::Assignment => 1,
            TokenClass::Plus => 3,
            TokenClass::Minus => 3,
            TokenClass::Multiply => 4,
            TokenClass::Divide => 4,
            TokenClass::Prime => 5,
            TokenClass::OpenParen => 6,
            TokenClass::OpenBracket => 7,
            _ => 0,
        }
    }
}

/// Converts a token class into a precedence value.
impl From<TokenClass> for u8 {
    fn from(t: TokenClass) -> (p: u8) {
        t.precedence()
    }
}

impl vstd::std_specs::convert::FromSpecImpl<TokenClass> for u8 {
    open spec fn obeys_from_spec() -> bool {
        true
    }

    open spec fn from_spec(t: TokenClass) -> u8 {
        precedence_of(t)
    }
}

/// A token: its class and the text it was read from.
#[derive(Debug)]
pub struct Token {
    class: TokenClass,
    value: String,
}

/// A token as a plain value.
pub struct TokenView {
    pub class: TokenClass,
    pub text: Seq<char>,
}

impl View for Token {
    type V = TokenView;

    closed spec fn view(&self) -> TokenView {
        TokenView { class: self.class, text: self.value@ }
    }
}

impl Clone for Token {
    fn clone(&self) -> (copy: Self)
        ensures
            copy@ == self@,
    {
        Token { class: self.class, value: self.value.clone() }
    }
}

impl Token {
    /// Constructs a new `Token` from a value and a `TokenClass`.
    pub fn new(class: TokenClass, value: String) -> (token: Self)
        ensures
            token@ == (TokenView { class, text: value@ }),
    {
        Self { class, value }
    }

    /// Gets the class of the token.
    pub fn get_class(&self) -> (class: TokenClass)
        ensures
            class == self@.class,
    {
        self.class
    }

    /// Gets the value of the token.
    pub fn get_value(&self) -> (value: String)
        ensures
            value@ == self@.text,
    {
        self.value.clone()
    }

    /// Checks if the token is in the given class.
    pub fn check(&self, class: TokenClass) -> (same: bool)
        ensures
            same == (self@.class == class),
    {
        self.class == class
    }
}

/// Where the line that holds position `i` ends: behind its line feed, or at
/// the end of the text.
pub open spec fn line_end(s: Seq<char>, i: int) -> int
    decreases s.len() - i,
{
    if 0 <= i < s.len() {
        if s[i] == '\n' {
            i + 1
        } else {
            line_end(s, i + 1)
        }
    } else {
        i
    }
}

/// A comment starts at position `i`.
pub open spec fn comment_at(s: Seq<char>, i: int) -> bool {
    0 <= i && i + 1 < s.len() && s[i] == '/' && s[i + 1] == '/'
}

/// A line ends inside the text, behind its start.
pub proof fn lemma_line_end_bounds(s: Seq<char>, i: int)
    requires
        0 <= i <= s.len(),
    ensures
        i <= line_end(s, i) <= s.len(),
        i < s.len() ==> i < line_end(s, i),
    decreases s.len() - i,
{
    if i < s.len() && s[i] != '\n' {
        lemma_line_end_bounds(s, i + 1);
    }
}

/// Where the comment lines that start at position `i`, one right behind the
/// other, end.
pub open spec fn comments_end(s: Seq<char>, i: int) -> int
    decreases s.len() - i,
{
    if comment_at(s, i) {
        proof {
            lemma_line_end_bounds(s, i + 2);
        }
        comments_end(s, line_end(s, i + 2))
    } else {
        i
    }
}

/// Comments end inside the text, and no comment starts where they end.
pub proof fn lemma_comments_end_bounds(s: Seq<char>, i: int)
    requires
        0 <= i <= s.len(),
    ensures
        i <= comments_end(s, i) <= s.len(),
        !comment_at(s, comments_end(s, i)),
    decreases s.len() - i,
{
    if comment_at(s, i) {
        lemma_line_end_bounds(s, i + 2);
        lemma_comments_end_bounds(s, line_end(s, i + 2));
    }
}

/// A stream of characters with a reading position.
pub struct CharStream {
    characters: Vec<char>,
    index: usize,
}

impl CharStream {
    /// All the characters of the stream, read or not.
    pub closed spec fn text(&self) -> Seq<char> {
        self.characters@
    }

    /// How many characters have been read.
    pub closed spec fn position(&self) -> int {
        self.index as int
    }

    /// The reading position lies inside the text or at its end.
    pub open spec fn wf(&self) -> bool {
        0 <= self.position() <= self.text().len()
    }

    /// Constructs a new character stream from a `String`.
    pub fn from(input: String) -> (stream: Self)
        ensures
            stream.wf(),
            stream.text() == input@,
            stream.position() == 0,
    {
        let characters = chars_of(input.as_str());
        Self { characters, index: 0 }
    }

    /// Advances the character stream.
    pub fn next(&mut self) -> (c: Option<char>)
        requires
            old(self).wf(),
        ensures
            final(self).wf(),
            final(self).text() == old(self).text(),
            c == if old(self).position() < old(self).text().len() {
                Some(old(self).text()[old(self).position()])
            } else {
                None
            },
            final(self).position() == if c is Some {
                old(self).position() + 1
            } else {
                old(self).position()
            },
    {
        let character = self.peek();
        if self.index >= self.characters.len() {
            None
        } else {
            self.index += 1;
            character
        }
    }

    /// Peeks at the next character in the stream.
    pub fn peek(&self) -> (c: Option<char>)
        requires
            self.wf(),
        ensures
            c == if self.position() < self.text().len() {
                Some(self.text()[self.position()])
            } else {
                None
            },
    {
        if self.index >= self.characters.len() {
            None
        } else {
            Some(self.characters[self.index])
        }
    }

    /// Looks ahead `n` characters.
    ///
    /// `Self::lookahead(0)` is equivalent to `Self::peek()`.
    pub fn lookahead(&self, n: usize) -> (c: Option<char>)
        requires
            self.wf(),
        ensures
            c == if self.position() + n < self.text().len() {
                Some(self.text()[self.position() + n])
            } else {
                None
            },
    {
        if n >= self.characters.len() - self.index {
            None
        } else {
            Some(self.characters[self.index + n])
        }
    }

    /// Iterates through a stream of characters, pushing characters to a `String`
    /// so long as they are in a given superstring.  Once a character is found that
    /// is not in the given superstring, stops and returns the `String`.
    pub fn get(&mut self, superstring: &str) -> (taken: String)
        requires
            old(self).wf(),
        ensures
            final(self).wf(),
            final(self).text() == old(self).text(),
            final(self).position() == run_end(
                old(self).text(),
                old(self).position(),
                superstring@.to_set(),
            ),
            taken@ == old(self).text().subrange(old(self).position(), final(self).position()),
    {
        let allowed = chars_of(superstring);
        let start = self.index;
        let mut current: Vec<char> = Vec::new();
        while self.index < self.characters.len() && contains(&allowed, self.characters[self.index])
            invariant
                self.characters == old(self).characters,
                start == old(self).index,
                start <= self.index <= self.characters.len(),
                allowed@ == superstring@,
                current@ == self.characters@.subrange(start as int, self.index as int),
                forall|k: int|
                    start <= k < self.index ==> superstring@.to_set().contains(
                        #[trigger] self.characters@[k],
                    ),
            decreases self.characters.len() - self.index,
        {
            current.push(self.characters[self.index]);
            self.index += 1;
            assert(self.characters@.subrange(start as int, self.index as int)
                == self.characters@.subrange(start as int, self.index - 1).push(
                self.characters@[self.index - 1],
            ));
        }
        proof {
            lemma_run_end_from_inside(
                self.characters@,
                start as int,
                self.index as int,
                superstring@.to_set(),
            );
        }
        text_of(&current)
    }

    /// Skips comments.
    pub fn skip_comments(&mut self)
        requires
            old(self).wf(),
        ensures
            final(self).wf(),
            final(self).text() == old(self).text(),
            final(self).position() == comments_end(old(self).text(), old(self).position()),
    {
        while self.peek() == Some('/') && self.lookahead(1) == Some('/')
            invariant
                self.wf(),
                self.characters == old(self).characters,
                comments_end(self.text(), self.position()) == comments_end(
                    old(self).text(),
                    old(self).position(),
                ),
            decreases self.characters.len() - self.index,
        {
            let ghost begin = self.index as int;
            self.index += 2;
            while self.index < self.characters.len() && self.characters[self.index] != '\n'
                invariant
                    self.characters == old(self).characters,
                    begin + 2 <= self.index <= self.characters.len(),
                    line_end(self.characters@, self.index as int) == line_end(
                        self.characters@,
                        begin + 2,
                    ),
                decreases self.characters.len() - self.index,
            {
                self.index += 1;
            }
            // Consume the newline
            if self.index < self.characters.len() {
                self.index += 1;
            }
            proof {
                lemma_line_end_bounds(self.characters@, begin + 2);
            }
        }
    }
}

/// Tells whether `c` occurs among `chars`.
pub fn contains(chars: &Vec<char>, c: char) -> (found: bool)
    ensures
        found == chars@.to_set().contains(c),
{
    let mut i: usize = 0;
    while i < chars.len()
        invariant
            i <= chars.len(),
            forall|k: int| 0 <= k < i ==> chars@[k] != c,
        decreases chars.len() - i,
    {
        if chars[i] == c {
            assert(chars@.contains(c));
            return true;
        }
        i += 1;
    }
    assert(!chars@.contains(c));
    false
}

/// Characters that can compose an identifier.
///
/// Please note that, though numbers are included here, identifiers cannot start
/// with a numeric digit (`'0'..='9'`).
pub const IDENTIFIER: &'static str =
    "abcdefghijklmnopqrstuvwxyzABCDEFGHIJKLMNOPQRSTUVWXYZ0123456789_";

/// Numeric values.  These can compose a numeric literal.
///
/// Please note that numeric literals cannot start with `'.'`.
pub const NUMERIC: &'static str = "0123456789.";

/// A character that is skipped between tokens.
pub open spec fn is_separator(c: char) -> bool {
    c == ' ' || c == '\t' || c == '\n'
}

/// A character that an identifier can start with.
pub open spec fn starts_identifier(c: char) -> bool {
    'a' <= c <= 'z' || 'A' <= c <= 'Z' || c == '_'
}

/// The characters that an identifier can hold.
pub open spec fn identifier_chars() -> Set<char> {
    Set::new(|c: char| starts_identifier(c) || is_digit(c))
}

/// The characters that a numeric literal can hold.
pub open spec fn numeral_chars() -> Set<char> {
    Set::new(|c: char| is_digit(c) || c == '.')
}

/// The class of a numeric literal: `Int` where it is an integer literal,
/// `Float` where it is another decimal literal, none where it is neither.
pub open spec fn numeral_class(s: Seq<char>) -> Option<TokenClass> {
    if is_int_literal(s) {
        Some(TokenClass::Int)
    } else if is_decimal_literal(s) {
        Some(TokenClass::Float)
    } else {
        None
    }
}

/// The class of a token that is one fixed character.
pub open spec fn single_class(c: char) -> Option<TokenClass> {
    if c == '+' {
        Some(TokenClass::Plus)
    } else if c == '-' {
        Some(TokenClass::Minus)
    } else if c == '*' {
        Some(TokenClass::Multiply)
    } else if c == '/' {
        Some(TokenClass::Divide)
    } else if c == ';' {
        Some(TokenClass::Semicolon)
    } else if c == '(' {
        Some(TokenClass::OpenParen)
    } else if c == ')' {
        Some(TokenClass::CloseParen)
    } else if c == '[' {
        Some(TokenClass::OpenBracket)
    } else if c == ']' {
        Some(TokenClass::CloseBracket)
    } else if c == '\'' {
        Some(TokenClass::Prime)
    } else if c == ',' {
        Some(TokenClass::Comma)
    } else {
        None
    }
}

/// One step of the lexer: the token read, if any, and where reading goes on.
pub struct Scan {
    pub token: Option<TokenView>,
    pub end: int,
}

/// The step that the lexer takes at position `i` of `s`.
///
/// Separators and comments give no token. A letter or underscore starts an
/// identifier, a digit a numeric literal, and so does a minus sign right
/// before a digit. `=` is an assignment, `==` the reserved equality sign; at
/// the end of the text `=` and `-` are errors, as is every character that
/// starts no token.
pub open spec fn scan(s: Seq<char>, i: int) -> Result<Scan, ErrorView>
    recommends
        0 <= i < s.len(),
{
    let c = s[i];
    if comment_at(s, i) {
        Ok(Scan { token: None, end: line_end(s, i + 2) })
    } else if is_separator(c) {
        Ok(Scan { token: None, end: i + 1 })
    } else if starts_identifier(c) {
        let end = run_end(s, i + 1, identifier_chars());
        Ok(
            Scan {
                token: Some(TokenView { class: TokenClass::Identifier, text: s.subrange(i, end) }),
                end,
            },
        )
    } else if is_digit(c) || (c == '-' && i + 1 < s.len() && is_digit(s[i + 1])) {
        let end = run_end(s, i + 1, numeral_chars());
        match numeral_class(s.subrange(i, end)) {
            Some(class) => Ok(
                Scan { token: Some(TokenView { class, text: s.subrange(i, end) }), end },
            ),
            None => Err(ErrorView::CouldNotParseNumeric),
        }
    } else if (c == '=' || c == '-') && i + 1 >= s.len() {
        Err(ErrorView::UnexpectedEof)
    } else if c == '=' && s[i + 1] == '=' {
        Ok(
            Scan {
                token: Some(TokenView { class: TokenClass::Eq, text: seq!['=', '='] }),
                end: i + 2,
            },
        )
    } else if c == '=' {
        Ok(
            Scan {
                token: Some(TokenView { class: TokenClass::Assignment, text: seq!['='] }),
                end: i + 1,
            },
        )
    } else {
        match single_class(c) {
            Some(class) => Ok(Scan { token: Some(TokenView { class, text: seq![c] }), end: i + 1 }),
            None => Err(ErrorView::UnexpectedEof),
        }
    }
}

/// `first`, then what `rest` holds; the error of `rest` where it is one.
pub open spec fn followed_by(first: Seq<TokenView>, rest: Result<Seq<TokenView>, ErrorView>) -> Result<
    Seq<TokenView>,
    ErrorView,
> {
    match rest {
        Ok(tokens) => Ok(first + tokens),
        Err(e) => Err(e),
    }
}

/// Every step of the lexer ends inside the text, behind where it started.
pub proof fn lemma_scan_advances(s: Seq<char>, i: int)
    requires
        0 <= i < s.len(),
    ensures
        scan(s, i) matches Ok(step) ==> i < step.end <= s.len(),
{
    lemma_run_end_bounds(s, i + 1, identifier_chars());
    lemma_run_end_bounds(s, i + 1, numeral_chars());
    if comment_at(s, i) {
        lemma_line_end_bounds(s, i + 2);
    }
}

/// The tokens of `s` from position `i` on, or the first lexing error.
pub open spec fn lex(s: Seq<char>, i: int) -> Result<Seq<TokenView>, ErrorView>
    decreases s.len() - i,
{
    if 0 <= i < s.len() {
        match scan(s, i) {
            Err(e) => Err(e),
            Ok(step) => {
                proof {
                    lemma_scan_advances(s, i);
                }
                match step.token {
                    Some(t) => followed_by(seq![t], lex(s, step.end)),
                    None => lex(s, step.end),
                }
            },
        }
    } else {
        Ok(Seq::empty())
    }
}

/// Lexing from the start of a run of comments is lexing from its end.
pub proof fn lemma_lex_skips_comments(s: Seq<char>, i: int)
    requires
        0 <= i <= s.len(),
    ensures
        lex(s, i) == lex(s, comments_end(s, i)),
    decreases s.len() - i,
{
    if comment_at(s, i) {
        lemma_line_end_bounds(s, i + 2);
        lemma_lex_skips_comments(s, line_end(s, i + 2));
    }
}

/// What holds of every token that the lexer gives: it is no `Newline`, an
/// `Int` spells an integer literal, and a `Float` a decimal literal that is
/// no integer literal.
pub open spec fn is_lexed(token: TokenView) -> bool {
    &&& token.class != TokenClass::Newline
    &&& token.class == TokenClass::Int ==> is_int_literal(token.text)
    &&& token.class == TokenClass::Float ==> is_decimal_literal(token.text) && !is_int_literal(
        token.text,
    )
}

/// Every token that the lexer gives is as `is_lexed` says.
pub proof fn lemma_lexed_tokens(s: Seq<char>, i: int)
    requires
        0 <= i <= s.len(),
        lex(s, i) is Ok,
    ensures
        forall|k: int| 0 <= k < lex(s, i)->Ok_0.len() ==> is_lexed(#[trigger] lex(s, i)->Ok_0[k]),
    decreases s.len() - i,
{
    if i < s.len() {
        lemma_scan_advances(s, i);
        let step = scan(s, i)->Ok_0;
        lemma_lexed_tokens(s, step.end);
        let rest = lex(s, step.end)->Ok_0;
        match step.token {
            Some(t) => {
                assert(is_lexed(t));
                assert forall|k: int| 0 <= k < lex(s, i)->Ok_0.len() implies is_lexed(
                    #[trigger] lex(s, i)->Ok_0[k],
                ) by {
                    if k > 0 {
                        assert(lex(s, i)->Ok_0[k] == rest[k - 1]);
                    }
                }
            },
            None => {},
        }
    }
}

/// The characters of `IDENTIFIER` are those that an identifier can hold.
pub proof fn lemma_identifier_chars()
    ensures
        IDENTIFIER@.to_set() == identifier_chars(),
{
    reveal_strlit("abcdefghijklmnopqrstuvwxyzABCDEFGHIJKLMNOPQRSTUVWXYZ0123456789_");
    let s = IDENTIFIER@;
    assert forall|c: char| s.to_set().contains(c) == identifier_chars().contains(c) by {
        if s.contains(c) {
            let k = choose|k: int| 0 <= k < s.len() && s[k] == c;
            assert(s[k] == c);
            assert(identifier_chars().contains(c));
        }
        if identifier_chars().contains(c) {
            let k: int = if 'a' <= c <= 'z' {
                c as u32 - 'a' as u32
            } else if 'A' <= c <= 'Z' {
                26 + c as u32 - 'A' as u32
            } else if is_digit(c) {
                52 + c as u32 - '0' as u32
            } else {
                62
            };
            assert(0 <= k < s.len());
            assert(s[k] == c);
            assert(s.contains(c));
        }
    }
    assert(s.to_set() =~= identifier_chars());
}

/// The characters of `NUMERIC` are those that a numeric literal can hold.
pub proof fn lemma_numeral_chars()
    ensures
        NUMERIC@.to_set() == numeral_chars(),
{
    reveal_strlit("0123456789.");
    let s = NUMERIC@;
    assert forall|c: char| s.to_set().contains(c) == numeral_chars().contains(c) by {
        if s.contains(c) {
            let k = choose|k: int| 0 <= k < s.len() && s[k] == c;
            assert(s[k] == c);
        }
        if numeral_chars().contains(c) {
            let k: int = if is_digit(c) {
                c as u32 - '0' as u32
            } else {
                10
            };
            assert(s[k] == c);
            assert(s.contains(c));
        }
    }
    assert(s.to_set() =~= numeral_chars());
}

/// The tokens of a vector, as plain values.
pub open spec fn views(tokens: Seq<Token>) -> Seq<TokenView> {
    Seq::new(tokens.len(), |i: int| tokens[i]@)
}

/// The string of `first` followed by the characters of `rest`.
fn glue(first: char, rest: &String) -> (whole: String)
    ensures
        whole@ == seq![first] + rest@,
{
    let mut whole = String::new();
    push_char(&mut whole, first);
    whole.append(rest.as_str());
    whole
}

/// The string that holds one character.
fn one_char(c: char) -> (s: String)
    ensures
        s@ == seq![c],
{
    let mut s = String::new();
    push_char(&mut s, c);
    s
}

/// Classifies a numeric literal.
fn classify_numeral(raw: &String) -> (class: Option<TokenClass>)
    ensures
        class == numeral_class(raw@),
{
    let chars = chars_of(raw.as_str());
    match parse_int(&chars) {
        Some(_) => Some(TokenClass::Int),
        None => if check_decimal(&chars) {
            Some(TokenClass::Float)
        } else {
            None
        },
    }
}

/// Classifies a token that is one fixed character.
fn classify_single(c: char) -> (class: Option<TokenClass>)
    ensures
        class == single_class(c),
{
    if c == '+' {
        Some(TokenClass::Plus)
    } else if c == '-' {
        Some(TokenClass::Minus)
    } else if c == '*' {
        Some(TokenClass::Multiply)
    } else if c == '/' {
        Some(TokenClass::Divide)
    } else if c == ';' {
        Some(TokenClass::Semicolon)
    } else if c == '(' {
        Some(TokenClass::OpenParen)
    } else if c == ')' {
        Some(TokenClass::CloseParen)
    } else if c == '[' {
        Some(TokenClass::OpenBracket)
    } else if c == ']' {
        Some(TokenClass::CloseBracket)
    } else if c == '\'' {
        Some(TokenClass::Prime)
    } else if c == ',' {
        Some(TokenClass::Comma)
    } else {
        None
    }
}

/// Reads the token that starts with `c`, the character that was just taken
/// from the stream.
fn read_token(stream: &mut CharStream, c: char) -> (outcome: Result<Token, Error>)
    requires
        old(stream).wf(),
        0 < old(stream).position(),
        c == old(stream).text()[old(stream).position() - 1],
        !is_separator(c),
        !comment_at(old(stream).text(), old(stream).position() - 1),
    ensures
        final(stream).wf(),
        final(stream).text() == old(stream).text(),
        match outcome {
            Ok(token) => scan(old(stream).text(), old(stream).position() - 1) == Ok::<
                Scan,
                ErrorView,
            >(Scan { token: Some(token@), end: final(stream).position() }),
            Err(e) => scan(old(stream).text(), old(stream).position() - 1) == Err::<
                Scan,
                ErrorView,
            >(e@),
        },
{
    let ghost s = stream.text();
    let ghost at = stream.position() - 1;
    if ('a' <= c && c <= 'z') || ('A' <= c && c <= 'Z') || c == '_' {
        proof {
            lemma_identifier_chars();
            lemma_run_end_bounds(s, at + 1, identifier_chars());
        }
        let rest = stream.get(IDENTIFIER);
        let name = glue(c, &rest);
        assert(name@ == s.subrange(at, stream.position()));
        Ok(Token::new(TokenClass::Identifier, name))
    } else if ('0' <= c && c <= '9') || (c == '-' && match stream.peek() {
        Some(p) => '0' <= p && p <= '9',
        None => false,
    }) {
        proof {
            lemma_numeral_chars();
            lemma_run_end_bounds(s, at + 1, numeral_chars());
        }
        let rest = stream.get(NUMERIC);
        let raw = glue(c, &rest);
        assert(raw@ == s.subrange(at, stream.position()));
        match classify_numeral(&raw) {
            Some(class) => Ok(Token::new(class, raw)),
            None => Err(Error::CouldNotParseNumeric),
        }
    } else if c == '=' {
        match stream.peek() {
            Some(p) => if p == '=' {
                let _ = stream.next();
                let text = glue('=', &one_char('='));
                assert(text@ == seq!['=', '=']);
                Ok(Token::new(TokenClass::Eq, text))
            } else {
                Ok(Token::new(TokenClass::Assignment, one_char('=')))
            },
            None => Err(Error::UnexpectedEof),
        }
    } else if c == '-' && stream.peek().is_none() {
        Err(Error::UnexpectedEof)
    } else {
        match classify_single(c) {
            Some(class) => Ok(Token::new(class, one_char(c))),
            None => Err(Error::UnexpectedEof),
        }
    }
}

/// Holds a stream of tokens.
pub struct Tokenizer {
    tokens: Vec<Token>,
    index: usize,
}

impl View for Tokenizer {
    type V = Seq<TokenView>;

    /// All the tokens of the stream, read or not.
    closed spec fn view(&self) -> Seq<TokenView> {
        views(self.tokens@)
    }
}

impl Tokenizer {
    /// How many tokens have been read.
    pub closed spec fn position(&self) -> int {
        self.index as int
    }

    /// The reading position lies among the tokens or at their end.
    pub open spec fn wf(&self) -> bool {
        0 <= self.position() <= self@.len()
    }

    /// Constructs a new token stream from a `String`.
    ///
    /// Fails with the first lexing error, `CouldNotParseNumeric` or
    /// `UnexpectedEof`.
    pub fn from(input: String) -> (outcome: Result<Self, Error>)
        ensures
            match outcome {
                Ok(stream) => stream.wf() && stream.position() == 0 && lex(input@, 0) == Ok::<
                    Seq<TokenView>,
                    ErrorView,
                >(stream@),
                Err(e) => lex(input@, 0) == Err::<Seq<TokenView>, ErrorView>(e@),
            },
    {
        let ghost s = input@;
        let mut charstream = CharStream::from(input);
        let mut tokens: Vec<Token> = Vec::new();
        assert(views(tokens@) + lex(s, 0)->Ok_0 == lex(s, 0)->Ok_0);
        loop
            invariant
                s == input@,
                charstream.wf(),
                charstream.text() == s,
                lex(s, 0) == followed_by(views(tokens@), lex(s, charstream.position())),
            ensures
                lex(s, 0) == Ok::<Seq<TokenView>, ErrorView>(views(tokens@)),
            decreases s.len() - charstream.position(),
        {
            let ghost before = charstream.position();
            let ghost done = views(tokens@);
            proof {
                lemma_lex_skips_comments(s, before);
                lemma_comments_end_bounds(s, before);
            }
            // Skip any comments
            charstream.skip_comments();
            let ghost at = charstream.position();
            let c = match charstream.next() {
                Some(c) => c,
                None => {
                    assert(done + Seq::<TokenView>::empty() == done);
                    break ;
                },
            };
            proof {
                lemma_scan_advances(s, at);
            }
            if c == ' ' || c == '\t' || c == '\n' {
                continue ;
            }
            let token = match read_token(&mut charstream, c) {
                Ok(token) => token,
                Err(e) => {
                    return Err(e);
                },
            };
            proof {
                let rest = lex(s, charstream.position());
                assert(lex(s, at) == followed_by(seq![token@], rest));
                assert(views(tokens@.push(token)) == done.push(token@));
                if rest is Ok {
                    assert(done.push(token@) + rest->Ok_0 == done + (seq![token@] + rest->Ok_0));
                }
            }
            tokens.push(token);
        }
        Ok(Self { tokens, index: 0 })
    }

    /// Peeks at the next token in the stream.
    pub fn peek(&self) -> (token: Option<Token>)
        requires
            self.wf(),
        ensures
            match token {
                Some(t) => self.position() < self@.len() && t@ == self@[self.position()],
                None => self.position() >= self@.len(),
            },
    {
        if self.index >= self.tokens.len() {
            None
        } else {
            Some(self.tokens[self.index].clone())
        }
    }

    /// Advances the token stream.
    pub fn next(&mut self) -> (token: Option<Token>)
        requires
            old(self).wf(),
        ensures
            final(self).wf(),
            final(self)@ == old(self)@,
            match token {
                Some(t) => old(self).position() < old(self)@.len() && t@ == old(self)@[old(
                    self,
                ).position()] && final(self).position() == old(self).position() + 1,
                None => old(self).position() >= old(self)@.len() && final(self).position() == old(
                    self,
                ).position(),
            },
    {
        let token = self.peek();
        if self.index < self.tokens.len() {
            self.index += 1;
        }
        token
    }

    /// Returns all tokens without consuming the tokenizer.
    pub fn get_tokens(&mut self) -> (all: Vec<Token>)
        ensures
            *final(self) == *old(self),
            views(all@) == old(self)@,
    {
        let mut all: Vec<Token> = Vec::new();
        let mut i: usize = 0;
        while i < self.tokens.len()
            invariant
                *self == *old(self),
                i <= self.tokens.len(),
                all.len() == i,
                forall|k: int| 0 <= k < i ==> all@[k]@ == self.tokens@[k]@,
            decreases self.tokens.len() - i,
        {
            all.push(self.tokens[i].clone());
            i += 1;
        }
        assert(views(all@) == views(self.tokens@));
        all
    }

    /// Checks whether or not the last token is a semicolon.
    ///
    /// Lines that end with semicolons are not displayed.
    pub fn chk_silent(&self) -> (silent: bool)
        ensures
            silent == (self@.len() > 0 && self@.last().class == TokenClass::Semicolon),
    {
        let n = self.tokens.len();
        n != 0 && self.tokens[n - 1].check(TokenClass::Semicolon)
    }

    /// Get the precedence of the next token.
    pub fn get_next_precedence(&self) -> (p: u8)
        requires
            self.wf(),
        ensures
            p == if self.position() < self@.len() {
                precedence_of(self@[self.position()].class)
            } else {
                0
            },
    {
        if self.index < self.tokens.len() {
            self.tokens[self.index].get_class().precedence()
        } else {
            0
        }
    }
}

} // verus!
