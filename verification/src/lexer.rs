//! Lexical analysis: turns source text into a sequence of [`Token`]s.
//!
//! The scan is a single left-to-right pass with one character of lookahead
//! (only to tell `>` from `>=`, `<` from `<=` and `.` from `..`).
//! Whitespace is discarded, unrecognized characters are skipped, and the
//! token sequence always ends with exactly one [`Token::Eof`].

use vstd::prelude::*;

verus! {

/// One lexical unit of the language.
///
/// Keywords, an identifier (carrying its name), an integer literal
/// (carrying its value), operators, punctuation, the range marker `..`,
/// and the end-of-input marker.
#[derive(Debug, Clone, PartialEq)]
pub enum Token {
    Var,
    Identifier(String),
    Number(i64),
    Equal,
    Plus,
    Minus,
    Multiply,
    Divide,
    Modulo,
    LeftParen,
    RightParen,
    LeftBrace,
    RightBrace,
    GreaterThan,
    LessThan,
    GreaterEqual,
    LessEqual,
    Semicolon,
    Print,
    If,
    Else,
    While,
    For,
    In,
    Range,
    Switch,
    Case,
    Default,
    Colon,
    Break,
    Eof,
}

/// The mathematical model of a [`Token`]: identical, except that an
/// identifier's name is a sequence of characters rather than a `String`.
pub enum SpecTok {
    Var,
    Identifier(Seq<char>),
    Number(i64),
    Equal,
    Plus,
    Minus,
    Multiply,
    Divide,
    Modulo,
    LeftParen,
    RightParen,
    LeftBrace,
    RightBrace,
    GreaterThan,
    LessThan,
    GreaterEqual,
    LessEqual,
    Semicolon,
    Print,
    If,
    Else,
    While,
    For,
    In,
    Range,
    Switch,
    Case,
    Default,
    Colon,
    Break,
    Eof,
}

impl View for Token {
    type V = SpecTok;

    open spec fn view(&self) -> SpecTok {
        match self {
            Token::Var => SpecTok::Var,
            Token::Identifier(name) => SpecTok::Identifier(name@),
            Token::Number(value) => SpecTok::Number(*value),
            Token::Equal => SpecTok::Equal,
            Token::Plus => SpecTok::Plus,
            Token::Minus => SpecTok::Minus,
            Token::Multiply => SpecTok::Multiply,
            Token::Divide => SpecTok::Divide,
            Token::Modulo => SpecTok::Modulo,
            Token::LeftParen => SpecTok::LeftParen,
            Token::RightParen => SpecTok::RightParen,
            Token::LeftBrace => SpecTok::LeftBrace,
            Token::RightBrace => SpecTok::RightBrace,
            Token::GreaterThan => SpecTok::GreaterThan,
            Token::LessThan => SpecTok::LessThan,
            Token::GreaterEqual => SpecTok::GreaterEqual,
            Token::LessEqual => SpecTok::LessEqual,
            Token::Semicolon => SpecTok::Semicolon,
            Token::Print => SpecTok::Print,
            Token::If => SpecTok::If,
            Token::Else => SpecTok::Else,
            Token::While => SpecTok::While,
            Token::For => SpecTok::For,
            Token::In => SpecTok::In,
            Token::Range => SpecTok::Range,
            Token::Switch => SpecTok::Switch,
            Token::Case => SpecTok::Case,
            Token::Default => SpecTok::Default,
            Token::Colon => SpecTok::Colon,
            Token::Break => SpecTok::Break,
            Token::Eof => SpecTok::Eof,
        }
    }
}

/// The models of a sequence of tokens, element by element.
pub open spec fn tok_views(tokens: Seq<Token>) -> Seq<SpecTok> {
    tokens.map_values(|t: Token| t@)
}

/// A decimal digit `0` to `9`.
pub open spec fn is_digit_char(c: char) -> bool {
    48 <= c as int <= 57
}

/// A letter `a` to `z` or `A` to `Z`; identifiers and keywords are runs of these.
pub open spec fn is_alpha_char(c: char) -> bool {
    (65 <= c as int <= 90) || (97 <= c as int <= 122)
}

/// The numeric value of a digit character.
pub open spec fn digit_val(c: char) -> int {
    c as int - 48
}

/// Integer literals use 64-bit semantics: the accumulated decimal value is
/// kept modulo 2^64 and the final value is read as a two's-complement `i64`,
/// so literals beyond the `i64` range wrap.
pub open spec fn wrap_to_i64(x: int) -> i64
    recommends
        0 <= x < 0x10000000000000000,
{
    if x < 0x8000000000000000 {
        x as i64
    } else {
        (x - 0x10000000000000000) as i64
    }
}

/// The token for a completed word: a case-sensitive keyword, or an identifier.
pub open spec fn word_token(w: Seq<char>) -> SpecTok {
    if w == "var"@ {
        SpecTok::Var
    } else if w == "print"@ {
        SpecTok::Print
    } else if w == "if"@ {
        SpecTok::If
    } else if w == "else"@ {
        SpecTok::Else
    } else if w == "while"@ {
        SpecTok::While
    } else if w == "for"@ {
        SpecTok::For
    } else if w == "switch"@ {
        SpecTok::Switch
    } else if w == "case"@ {
        SpecTok::Case
    } else if w == "default"@ {
        SpecTok::Default
    } else if w == "break"@ {
        SpecTok::Break
    } else if w == "in"@ {
        SpecTok::In
    } else {
        SpecTok::Identifier(w)
    }
}

/// The tokens of the source from position `i` on, excluding the final
/// end-of-input marker.
///
/// One character of lookahead distinguishes `>=`, `<=` and `..`; a `.` not
/// followed by a second `.` is skipped like any other unrecognized
/// character, as is whitespace.
pub open spec fn spec_scan(s: Seq<char>, i: nat) -> Seq<SpecTok>
    decreases s.len() - i, 0nat,
{
    if i >= s.len() {
        Seq::empty()
    } else {
        let c = s[i as int];
        if c == '=' {
            seq![SpecTok::Equal] + spec_scan(s, i + 1)
        } else if c == '+' {
            seq![SpecTok::Plus] + spec_scan(s, i + 1)
        } else if c == '-' {
            seq![SpecTok::Minus] + spec_scan(s, i + 1)
        } else if c == '*' {
            seq![SpecTok::Multiply] + spec_scan(s, i + 1)
        } else if c == '/' {
            seq![SpecTok::Divide] + spec_scan(s, i + 1)
        } else if c == '%' {
            seq![SpecTok::Modulo] + spec_scan(s, i + 1)
        } else if c == '(' {
            seq![SpecTok::LeftParen] + spec_scan(s, i + 1)
        } else if c == ')' {
            seq![SpecTok::RightParen] + spec_scan(s, i + 1)
        } else if c == '{' {
            seq![SpecTok::LeftBrace] + spec_scan(s, i + 1)
        } else if c == '}' {
            seq![SpecTok::RightBrace] + spec_scan(s, i + 1)
        } else if c == ';' {
            seq![SpecTok::Semicolon] + spec_scan(s, i + 1)
        } else if c == ':' {
            seq![SpecTok::Colon] + spec_scan(s, i + 1)
        } else if c == '>' {
            if i + 1 < s.len() && s[i + 1 as int] == '=' {
                seq![SpecTok::GreaterEqual] + spec_scan(s, i + 2)
            } else {
                seq![SpecTok::GreaterThan] + spec_scan(s, i + 1)
            }
        } else if c == '<' {
            if i + 1 < s.len() && s[i + 1 as int] == '=' {
                seq![SpecTok::LessEqual] + spec_scan(s, i + 2)
            } else {
                seq![SpecTok::LessThan] + spec_scan(s, i + 1)
            }
        } else if c == '.' {
            if i + 1 < s.len() && s[i + 1 as int] == '.' {
                seq![SpecTok::Range] + spec_scan(s, i + 2)
            } else {
                spec_scan(s, i + 1)
            }
        } else if is_digit_char(c) {
            spec_scan_number(s, i + 1, digit_val(c))
        } else if is_alpha_char(c) {
            spec_scan_word(s, i, i + 1)
        } else {
            spec_scan(s, i + 1)
        }
    }
}

/// Continues a run of digits whose value so far (modulo 2^64) is `acc`;
/// when the run ends, emits the literal token and resumes the scan.
pub open spec fn spec_scan_number(s: Seq<char>, i: nat, acc: int) -> Seq<SpecTok>
    decreases s.len() - i, 1nat,
{
    if i < s.len() && is_digit_char(s[i as int]) {
        spec_scan_number(s, i + 1, (acc * 10 + digit_val(s[i as int])) % 0x10000000000000000)
    } else {
        seq![SpecTok::Number(wrap_to_i64(acc))] + spec_scan(s, i)
    }
}

/// Continues a run of letters that began at `start`; when the run ends,
/// emits the keyword or identifier token and resumes the scan.
pub open spec fn spec_scan_word(s: Seq<char>, start: nat, i: nat) -> Seq<SpecTok>
    decreases s.len() - i, 1nat,
{
    if i < s.len() && is_alpha_char(s[i as int]) {
        spec_scan_word(s, start, i + 1)
    } else {
        seq![word_token(s.subrange(start as int, i as int))] + spec_scan(s, i)
    }
}

/// The full token sequence of a source text: the scanned tokens followed by
/// exactly one end-of-input marker.
pub open spec fn spec_tokenize(s: Seq<char>) -> Seq<SpecTok> {
    spec_scan(s, 0).push(SpecTok::Eof)
}

proof fn lemma_tok_views_push(ts: Seq<Token>, t: Token)
    ensures
        tok_views(ts.push(t)) == tok_views(ts).push(t@),
{
    assert(tok_views(ts.push(t)) =~= tok_views(ts).push(t@));
}

/// The characters of a source text, as a vector.
fn chars_of(s: &str) -> (v: Vec<char>)
    ensures
        v@ == s@,
{
    let n: usize = s.unicode_len();
    let mut v: Vec<char> = Vec::new();
    let mut i: usize = 0;
    while i < n
        invariant
            i <= n,
            n == s@.len(),
            v@ == s@.subrange(0, i as int),
        decreases n - i,
    {
        v.push(s.get_char(i));
        i = i + 1;
        proof {
            assert(v@ =~= s@.subrange(0, i as int));
        }
    }
    proof {
        assert(s@.subrange(0, n as int) =~= s@);
    }
    v
}

/// The token for a completed word, matched case-sensitively against the
/// keyword table, falling back to an identifier.
fn word_to_token(word: String) -> (t: Token)
    ensures
        t@ == word_token(word@),
{
    if word == String::from_str("var") {
        Token::Var
    } else if word == String::from_str("print") {
        Token::Print
    } else if word == String::from_str("if") {
        Token::If
    } else if word == String::from_str("else") {
        Token::Else
    } else if word == String::from_str("while") {
        Token::While
    } else if word == String::from_str("for") {
        Token::For
    } else if word == String::from_str("switch") {
        Token::Switch
    } else if word == String::from_str("case") {
        Token::Case
    } else if word == String::from_str("default") {
        Token::Default
    } else if word == String::from_str("break") {
        Token::Break
    } else if word == String::from_str("in") {
        Token::In
    } else {
        Token::Identifier(word)
    }
}

/// Turns source text into the token sequence of [`spec_tokenize`].
///
/// Total: whitespace and unrecognized characters are skipped, and the
/// result always ends with the end-of-input marker.
pub fn tokenize(input: &str) -> (tokens: Vec<Token>)
    ensures
        tok_views(tokens@) == spec_tokenize(input@),
{
    let ghost s: Seq<char> = input@;
    let chars: Vec<char> = chars_of(input);
    let n: usize = chars.len();
    let mut tokens: Vec<Token> = Vec::new();
    let mut i: usize = 0;
    proof {
        assert(tok_views(tokens@) + spec_scan(s, 0) =~= spec_scan(s, 0));
    }
    while i < n
        invariant
            i <= n,
            n == s.len(),
            s == input@,
            chars@ == s,
            tok_views(tokens@) + spec_scan(s, i as nat) == spec_scan(s, 0),
        decreases n - i,
    {
        let ghost tv0 = tokens@;
        let ghost i0 = i as nat;
        let c = chars[i];
        if c == '=' {
            tokens.push(Token::Equal);
            i = i + 1;
        } else if c == '+' {
            tokens.push(Token::Plus);
            i = i + 1;
        } else if c == '-' {
            tokens.push(Token::Minus);
            i = i + 1;
        } else if c == '*' {
            tokens.push(Token::Multiply);
            i = i + 1;
        } else if c == '/' {
            tokens.push(Token::Divide);
            i = i + 1;
        } else if c == '%' {
            tokens.push(Token::Modulo);
            i = i + 1;
        } else if c == '(' {
            tokens.push(Token::LeftParen);
            i = i + 1;
        } else if c == ')' {
            tokens.push(Token::RightParen);
            i = i + 1;
        } else if c == '{' {
            tokens.push(Token::LeftBrace);
            i = i + 1;
        } else if c == '}' {
            tokens.push(Token::RightBrace);
            i = i + 1;
        } else if c == ';' {
            tokens.push(Token::Semicolon);
            i = i + 1;
        } else if c == ':' {
            tokens.push(Token::Colon);
            i = i + 1;
        } else if c == '>' {
            if i + 1 < n && chars[i + 1] == '=' {
                tokens.push(Token::GreaterEqual);
                i = i + 2;
            } else {
                tokens.push(Token::GreaterThan);
                i = i + 1;
            }
        } else if c == '<' {
            if i + 1 < n && chars[i + 1] == '=' {
                tokens.push(Token::LessEqual);
                i = i + 2;
            } else {
                tokens.push(Token::LessThan);
                i = i + 1;
            }
        } else if c == '.' {
            if i + 1 < n && chars[i + 1] == '.' {
                tokens.push(Token::Range);
                i = i + 2;
            } else {
                i = i + 1;
            }
        } else if c >= '0' && c <= '9' {
            let mut acc: u128 = (c as u128) - 48;
            i = i + 1;
            let ghost cont = spec_scan(s, i0);
            proof {
                assert(cont == spec_scan_number(s, i as nat, acc as int));
            }
            while i < n && chars[i] >= '0' && chars[i] <= '9'
                invariant
                    i0 < i <= n,
                    n == s.len(),
                    chars@ == s,
                    acc < 0x10000000000000000,
                    spec_scan_number(s, i as nat, acc as int) == cont,
                decreases n - i,
            {
                let d: u128 = (chars[i] as u128) - 48;
                acc = (acc * 10 + d) % 0x10000000000000000u128;
                i = i + 1;
            }
            let value: i64 = if acc <= 0x7fffffffffffffff {
                acc as i64
            } else {
                ((acc as i128) - 0x10000000000000000i128) as i64
            };
            proof {
                assert(value == wrap_to_i64(acc as int));
                assert(spec_scan_number(s, i as nat, acc as int) == seq![
                    SpecTok::Number(wrap_to_i64(acc as int)),
                ] + spec_scan(s, i as nat));
            }
            tokens.push(Token::Number(value));
        } else if (c >= 'A' && c <= 'Z') || (c >= 'a' && c <= 'z') {
            let start: usize = i;
            i = i + 1;
            let ghost cont = spec_scan(s, i0);
            proof {
                assert(cont == spec_scan_word(s, start as nat, i as nat));
            }
            while i < n && ((chars[i] >= 'A' && chars[i] <= 'Z') || (chars[i] >= 'a'
                && chars[i] <= 'z'))
                invariant
                    start < i <= n,
                    n == s.len(),
                    s == input@,
                    chars@ == s,
                    spec_scan_word(s, start as nat, i as nat) == cont,
                decreases n - i,
            {
                i = i + 1;
            }
            let word: String = input.substring_char(start, i).to_owned();
            let tok: Token = word_to_token(word);
            proof {
                assert(spec_scan_word(s, start as nat, i as nat) == seq![
                    word_token(s.subrange(start as int, i as int)),
                ] + spec_scan(s, i as nat));
            }
            tokens.push(tok);
        } else {
            i = i + 1;
        }
        proof {
            if tokens@.len() != tv0.len() {
                lemma_tok_views_push(tv0, tokens@.last());
            }
            assert(tok_views(tokens@) + spec_scan(s, i as nat) =~= tok_views(tv0) + spec_scan(
                s,
                i0,
            ));
        }
    }
    proof {
        assert(tok_views(tokens@) + spec_scan(s, n as nat) =~= tok_views(tokens@));
    }
    tokens.push(Token::Eof);
    proof {
        lemma_tok_views_push(tokens@.drop_last(), Token::Eof);
        assert(tokens@.drop_last().push(Token::Eof) =~= tokens@);
        assert(tok_views(tokens@) =~= spec_tokenize(s));
    }
    tokens
}

proof fn lemma_scan_no_eof(s: Seq<char>, i: nat)
    ensures
        forall|j: int| 0 <= j < spec_scan(s, i).len() ==> spec_scan(s, i)[j] != SpecTok::Eof,
    decreases s.len() - i, 0nat,
{
    if i >= s.len() {
    } else {
        let c = s[i as int];
        if c == '>' || c == '<' || c == '.' {
            if i + 1 < s.len() && s[i + 1 as int] == '=' {
                lemma_scan_no_eof(s, i + 2);
            }
            if i + 1 < s.len() && s[i + 1 as int] == '.' {
                lemma_scan_no_eof(s, i + 2);
            }
            lemma_scan_no_eof(s, i + 1);
        } else if is_digit_char(c) {
            lemma_scan_number_no_eof(s, i + 1, digit_val(c));
        } else if is_alpha_char(c) {
            lemma_scan_word_no_eof(s, i, i + 1);
        } else {
            lemma_scan_no_eof(s, i + 1);
        }
    }
}

proof fn lemma_scan_number_no_eof(s: Seq<char>, i: nat, acc: int)
    ensures
        forall|j: int|
            0 <= j < spec_scan_number(s, i, acc).len() ==> spec_scan_number(s, i, acc)[j]
                != SpecTok::Eof,
    decreases s.len() - i, 1nat,
{
    if i < s.len() && is_digit_char(s[i as int]) {
        lemma_scan_number_no_eof(s, i + 1, (acc * 10 + digit_val(s[i as int])) % 0x10000000000000000);
    } else {
        lemma_scan_no_eof(s, i);
    }
}

proof fn lemma_scan_word_no_eof(s: Seq<char>, start: nat, i: nat)
    ensures
        forall|j: int|
            0 <= j < spec_scan_word(s, start, i).len() ==> spec_scan_word(s, start, i)[j]
                != SpecTok::Eof,
    decreases s.len() - i, 1nat,
{
    if i < s.len() && is_alpha_char(s[i as int]) {
        lemma_scan_word_no_eof(s, start, i + 1);
    } else {
        lemma_scan_no_eof(s, i);
    }
}

/// Law: every token sequence the lexer produces ends with the end-of-input
/// marker, and that marker appears exactly once.
pub proof fn lemma_tokenize_ends_with_eof(s: Seq<char>)
    ensures
        spec_tokenize(s).len() >= 1,
        spec_tokenize(s).last() == SpecTok::Eof,
        forall|j: int| 0 <= j < spec_tokenize(s).len() - 1 ==> spec_tokenize(s)[j] != SpecTok::Eof,
{
    lemma_scan_no_eof(s, 0);
}

} // verus!
