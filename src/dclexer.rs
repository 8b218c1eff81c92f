use vstd::prelude::*;

verus! {

/// The access keywords a field may carry; they govern routing and persistence
/// in the service layer.
#[derive(Debug, Clone, Copy, PartialEq, Eq, Structural)]
pub enum DCKeyword {
    RAM,
    Required,
    DB,
    AIRecv,
    OwnRecv,
    ClRecv,
    Broadcast,
    OwnSend,
    ClSend,
    Bypass,
}

/// The tokens of the schema language. Literal tokens keep their source text,
/// but for decimal literals, which hold their value, and character literals,
/// which hold the character. Float literals keep their text: the number is
/// read where it is used.
#[derive(Debug, Clone, PartialEq)]
pub enum DCToken {
    // integers
    DecimalLiteral(i64),
    OctalLiteral(String),
    HexLiteral(String),
    BinaryLiteral(String),
    // floats
    FloatLiteral(String),
    // text literals
    CharacterLiteral(char),
    StringLiteral(String),
    EscapeCharacter(String),
    // data types
    CharType,
    IntType(String),
    FloatType,
    StringType,
    BlobType,
    Identifier(String),
    Keyword(String),
    // operators
    Modulus,
    Multiplication,
    Addition,
    Subtraction,
    Division,
    // delimiters
    OpenParenthesis,
    CloseParenthesis,
    OpenBraces,
    CloseBraces,
    OpenBrackets,
    CloseBrackets,
    Comma,
    Semicolon,
    Equals,
    Colon,
    // recognised but never yielded
    Whitespace,
    Comment,
    Newline,
}

/// Where a token stands: its character offsets, end excluded, and its line,
/// counted from 1.
#[derive(Debug, Clone, Copy, PartialEq, Eq, Structural)]
pub struct Span {
    pub min: usize,
    pub max: usize,
    pub line: usize,
}

/// Why lexing stopped.
#[derive(Debug, Clone, Copy, PartialEq, Eq, Structural)]
pub enum DCLexErrorKind {
    /// A decimal literal whose value does not fit a signed 64-bit integer.
    LiteralOutOfRange,
    /// A character that no token starts with.
    UnexpectedCharacter,
}

/// A fatal lexing error, with the place of the offending text.
#[derive(Debug, Clone, Copy, PartialEq, Eq, Structural)]
pub struct DCLexError {
    pub kind: DCLexErrorKind,
    pub span: Span,
}

pub open spec fn code(c: char) -> u32 {
    c as u32
}

pub open spec fn is_digit(c: char) -> bool {
    48 <= code(c) <= 57
}

pub open spec fn is_octal(c: char) -> bool {
    48 <= code(c) <= 55
}

pub open spec fn is_binary(c: char) -> bool {
    c == '0' || c == '1'
}

pub open spec fn is_hex(c: char) -> bool {
    is_digit(c) || 97 <= code(c) <= 102 || 65 <= code(c) <= 70
}

pub open spec fn is_ident_start(c: char) -> bool {
    97 <= code(c) <= 122 || 65 <= code(c) <= 90 || c == '_'
}

pub open spec fn is_ident_char(c: char) -> bool {
    is_ident_start(c) || is_digit(c)
}

pub open spec fn is_space(c: char) -> bool {
    c == ' ' || c == '\t' || c == '\r' || c == '\n'
}

/// The classes of characters that make up runs.
#[derive(Debug, Clone, Copy, PartialEq, Eq, Structural)]
pub enum CharClass {
    Space,
    Digit,
    Octal,
    Hex,
    Binary,
    Ident,
    /// any character but a line break
    InLine,
    /// any character but a line break or a double quote
    InString,
}

pub open spec fn in_class(c: char, k: CharClass) -> bool {
    match k {
        CharClass::Space => is_space(c),
        CharClass::Digit => is_digit(c),
        CharClass::Octal => is_octal(c),
        CharClass::Hex => is_hex(c),
        CharClass::Binary => is_binary(c),
        CharClass::Ident => is_ident_char(c),
        CharClass::InLine => c != '\n',
        CharClass::InString => c != '\n' && c != '"',
    }
}

/// Whether every character of `t` in `[lo, hi)` is of class `k`.
pub open spec fn all_in(t: Seq<char>, lo: int, hi: int, k: CharClass) -> bool {
    forall|j: int| lo <= j < hi ==> in_class(#[trigger] t[j], k)
}

/// The value of a run of decimal digits.
pub open spec fn decimal_value(t: Seq<char>) -> nat
    decreases t.len(),
{
    if t.len() == 0 {
        0
    } else {
        decimal_value(t.drop_last()) * 10 + (code(t.last()) - 48) as nat
    }
}

/// The number of line breaks in `t`.
pub open spec fn newlines(t: Seq<char>) -> nat
    decreases t.len(),
{
    if t.len() == 0 {
        0
    } else {
        newlines(t.drop_last()) + if t.last() == '\n' {
            1nat
        } else {
            0nat
        }
    }
}

/// The words that name integer types.
pub open spec fn is_int_type_word(t: Seq<char>) -> bool {
    let base = if t.len() > 0 && t[0] == 'u' {
        t.subrange(1, t.len() as int)
    } else {
        t
    };
    base == seq!['i', 'n', 't', '8'] || base == seq!['i', 'n', 't', '1', '6'] || base == seq![
        'i',
        'n',
        't',
        '3',
        '2',
    ] || base == seq!['i', 'n', 't', '6', '4']
}

/// The words of the language's own keywords.
pub open spec fn is_keyword_word(t: Seq<char>) -> bool {
    t == seq!['d', 'c', 'l', 'a', 's', 's'] || t == seq!['s', 't', 'r', 'u', 'c', 't'] || t == seq![
        'k',
        'e',
        'y',
        'w',
        'o',
        'r',
        'd',
    ]
}

pub open spec fn word_char() -> Seq<char> {
    seq!['c', 'h', 'a', 'r']
}

pub open spec fn word_float64() -> Seq<char> {
    seq!['f', 'l', 'o', 'a', 't', '6', '4']
}

pub open spec fn word_string() -> Seq<char> {
    seq!['s', 't', 'r', 'i', 'n', 'g']
}

pub open spec fn word_blob() -> Seq<char> {
    seq!['b', 'l', 'o', 'b']
}

/// The words that are not identifiers.
pub open spec fn is_reserved_word(t: Seq<char>) -> bool {
    t == word_char() || t == word_float64() || t == word_string() || t == word_blob()
        || is_int_type_word(t) || is_keyword_word(t)
}

/// Whether `t` has the shape of a float literal: digits, a point, digits, with
/// at least one digit after the point.
pub open spec fn is_float_text(t: Seq<char>) -> bool {
    exists|p: int|
        0 <= p < t.len() - 1 && t[p] == '.' && all_in(t, 0, p, CharClass::Digit) && all_in(
            t,
            p + 1,
            t.len() as int,
            CharClass::Digit,
        )
}

/// Whether `t` is a decimal literal too large for a signed 64-bit integer.
pub open spec fn literal_too_large(t: Seq<char>) -> bool {
    &&& t.len() >= 1
    &&& t[0] != '0'
    &&& all_in(t, 0, t.len() as int, CharClass::Digit)
    &&& decimal_value(t) > i64::MAX
}

/// Whether `s` holds `c1` then `c2` at `a`.
pub open spec fn pair_at(s: Seq<char>, a: int, c1: char, c2: char) -> bool {
    0 <= a && a + 1 < s.len() && s[a] == c1 && s[a + 1] == c2
}

/// Whether a block comment closes with the `*/` at `j`.
pub open spec fn closes_at(s: Seq<char>, j: int) -> bool {
    pair_at(s, j, '*', '/')
}

/// Whether `[a, b)` is one blank run, one line comment up to the line break,
/// or one block comment up to the first `*/` after its opening.
pub open spec fn trivia_piece(s: Seq<char>, a: int, b: int) -> bool {
    ||| a < b <= s.len() && all_in(s, a, b, CharClass::Space)
    ||| pair_at(s, a, '/', '/') && a + 2 <= b <= s.len() && all_in(s, a, b, CharClass::InLine) && (b
        == s.len() || s[b] == '\n')
    ||| pair_at(s, a, '/', '*') && a + 4 <= b <= s.len() && closes_at(s, b - 2) && forall|j: int|
        a + 2 <= j < b - 2 ==> !closes_at(s, j)
}

/// Whether `cuts` splits the text between its first and last offsets into
/// blanks and comments.
pub open spec fn tiled(s: Seq<char>, cuts: Seq<int>) -> bool {
    forall|k: int| 0 <= k < cuts.len() - 1 ==> trivia_piece(s, #[trigger] cuts[k], cuts[k + 1])
}

/// Whether `[a, b)` holds only blanks and comments.
pub open spec fn trivia(s: Seq<char>, a: int, b: int) -> bool {
    exists|cuts: Seq<int>| cuts.len() >= 1 && cuts[0] == a && cuts.last() == b && tiled(s, cuts)
}

/// Whether a blank or a comment starts at `a`.
pub open spec fn trivia_starts(s: Seq<char>, a: int) -> bool {
    ||| 0 <= a < s.len() && is_space(s[a])
    ||| pair_at(s, a, '/', '/')
    ||| pair_at(s, a, '/', '*') && exists|j: int| a + 2 <= j && closes_at(s, j)
}

/// Whether some token of the language is spelled by the text that starts at `i`.
pub open spec fn token_starts_at(s: Seq<char>, i: int) -> bool {
    exists|tok: DCToken, end: int|
        i < end <= s.len() && #[trigger] token_spells(tok, s.subrange(i, end))
}

/// Whether `c` is a character that makes a token on its own.
pub open spec fn is_operator_char(c: char) -> bool {
    c == '%' || c == '*' || c == '+' || c == '-' || c == '/' || c == '(' || c == ')' || c == '{'
        || c == '}' || c == '[' || c == ']' || c == ',' || c == ';' || c == '=' || c == ':'
}

/// Whether `t` has the shape of a decimal literal.
pub open spec fn decimal_shape(t: Seq<char>) -> bool {
    t.len() >= 1 && t[0] != '0' && all_in(t, 0, t.len() as int, CharClass::Digit)
}

/// Whether `t` has the shape of an octal literal.
pub open spec fn octal_shape(t: Seq<char>) -> bool {
    t.len() >= 1 && t[0] == '0' && all_in(t, 0, t.len() as int, CharClass::Octal)
}

/// Whether `t` has the shape of a hexadecimal literal.
pub open spec fn hex_shape(t: Seq<char>) -> bool {
    t.len() >= 3 && t[0] == '0' && (t[1] == 'x' || t[1] == 'X') && all_in(
        t,
        2,
        t.len() as int,
        CharClass::Hex,
    )
}

/// Whether `t` has the shape of a binary literal.
pub open spec fn binary_shape(t: Seq<char>) -> bool {
    t.len() >= 3 && t[0] == '0' && (t[1] == 'b' || t[1] == 'B') && all_in(
        t,
        2,
        t.len() as int,
        CharClass::Binary,
    )
}

/// Whether no token is spelled by a text that starts at `i` and ends past `e`:
/// the token that ends at `e` is the longest one there.
pub open spec fn longest_at(s: Seq<char>, i: int, e: int) -> bool {
    forall|tok: DCToken, e2: int|
        e < e2 <= s.len() ==> !#[trigger] token_spells(tok, s.subrange(i, e2))
}

/// What the first characters of any token's text must be.
proof fn lemma_token_start(tok: DCToken, t: Seq<char>)
    requires
        token_spells(tok, t),
    ensures
        t.len() >= 1,
        is_digit(t[0]) || is_ident_start(t[0]) || is_operator_char(t[0]) || t[0] == '.' || t[0]
            == '\'' || t[0] == '"' || t[0] == '\\',
        t[0] == '.' ==> t.len() >= 2 && is_digit(t[1]),
        t[0] == '\'' ==> t.len() == 3 && t[1] != '\n' && t[2] == '\'',
        t[0] == '"' ==> t.len() >= 2 && t.last() == '"' && forall|j: int|
            0 < j < t.len() - 1 ==> #[trigger] t[j] != '"' && t[j] != '\n',
        t[0] == '\\' ==> t.len() >= 2 && t[1] != '\n',
        t[0] == '\\' ==> t.len() == 2 || (t.len() >= 3 && t[1] == 'x' && all_in(
            t,
            2,
            t.len() as int,
            CharClass::Hex,
        )),
        is_operator_char(t[0]) ==> t.len() == 1,
        is_ident_start(t[0]) ==> all_in(t, 0, t.len() as int, CharClass::Ident),
        is_digit(t[0]) || t[0] == '.' ==> decimal_shape(t) || octal_shape(t) || hex_shape(t)
            || binary_shape(t) || is_float_text(t),
{
    match tok {
        DCToken::FloatLiteral(_) => {
            let p = choose|p: int|
                0 <= p < t.len() - 1 && t[p] == '.' && all_in(t, 0, p, CharClass::Digit) && all_in(
                    t,
                    p + 1,
                    t.len() as int,
                    CharClass::Digit,
                );
            if p > 0 {
                assert(in_class(t[0], CharClass::Digit));
            } else {
                assert(in_class(t[1], CharClass::Digit));
            }
        },
        DCToken::DecimalLiteral(_) => {
            assert(in_class(t[0], CharClass::Digit));
        },
        DCToken::OctalLiteral(_) => {
            assert(in_class(t[0], CharClass::Octal));
        },
        DCToken::IntType(_) => {
            if t[0] != 'u' {
                assert(t[0] == 'i');
            } else {
                let b = t.subrange(1, t.len() as int);
                assert(is_int_type_word(t));
                assert(b == seq!['i', 'n', 't', '8'] || b == seq!['i', 'n', 't', '1', '6'] || b
                    == seq!['i', 'n', 't', '3', '2'] || b == seq!['i', 'n', 't', '6', '4']);
                assert(b.len() <= 5);
                assert forall|j: int| 1 <= j < t.len() implies in_class(
                    #[trigger] t[j],
                    CharClass::Ident,
                ) by {
                    assert(t[j] == b[j - 1]);
                    assert(j - 1 == 0 || j - 1 == 1 || j - 1 == 2 || j - 1 == 3 || j - 1 == 4);
                }
            }
        },
        _ => {},
    }
}

/// A float literal that takes in the whole digit run after its point is the
/// longest token where it starts.
proof fn lemma_longest_float(s: Seq<char>, i: int, d: int, e: int)
    requires
        0 <= i <= d,
        d + 1 < e <= s.len(),
        all_in(s, i, d, CharClass::Digit),
        s[d] == '.',
        all_in(s, d + 1, e, CharClass::Digit),
        e == s.len() || !is_digit(s[e]),
    ensures
        longest_at(s, i, e),
{
    assert forall|tok: DCToken, e2: int| e < e2 <= s.len() implies !#[trigger] token_spells(
        tok,
        s.subrange(i, e2),
    ) by {
        let t = s.subrange(i, e2);
        if token_spells(tok, t) {
            lemma_token_start(tok, t);
            assert(t[d - i] == s[d]);
            assert(t[e - i] == s[e]);
            if d > i {
                assert(t[0] == s[i] && in_class(s[i], CharClass::Digit));
            }
            if is_float_text(t) {
                let p = choose|p: int|
                    0 <= p < t.len() - 1 && t[p] == '.' && all_in(t, 0, p, CharClass::Digit)
                        && all_in(t, p + 1, t.len() as int, CharClass::Digit);
                if p < d - i {
                    assert(t[p] == s[i + p] && in_class(s[i + p], CharClass::Digit));
                } else if p > d - i {
                    assert(in_class(t[d - i], CharClass::Digit));
                } else {
                    assert(in_class(t[e - i], CharClass::Digit));
                }
            }
        }
    }
}

/// A decimal or octal literal is the longest token where it starts when no
/// float, and for octal no hexadecimal or binary literal, continues it.
proof fn lemma_longest_integer(s: Seq<char>, i: int, d: int, e: int)
    requires
        0 <= i < e <= d <= s.len(),
        is_digit(s[i]),
        all_in(s, i, d, CharClass::Digit),
        d == s.len() || !is_digit(s[d]),
        !(d + 1 < s.len() && s[d] == '.' && is_digit(s[d + 1])),
        s[i] != '0' ==> e == d,
        s[i] == '0' ==> all_in(s, i, e, CharClass::Octal) && (e == s.len() || !is_octal(s[e])),
        s[i] == '0' ==> !(i + 2 < s.len() && (s[i + 1] == 'x' || s[i + 1] == 'X') && is_hex(
            s[i + 2],
        )),
        s[i] == '0' ==> !(i + 2 < s.len() && (s[i + 1] == 'b' || s[i + 1] == 'B') && is_binary(
            s[i + 2],
        )),
    ensures
        longest_at(s, i, e),
{
    assert forall|tok: DCToken, e2: int| e < e2 <= s.len() implies !#[trigger] token_spells(
        tok,
        s.subrange(i, e2),
    ) by {
        let t = s.subrange(i, e2);
        if token_spells(tok, t) {
            lemma_token_start(tok, t);
            assert(t[0] == s[i]);
            assert(t[e - i] == s[e]);
            if t.len() > 2 {
                assert(t[1] == s[i + 1] && t[2] == s[i + 2]);
            } else if t.len() > 1 {
                assert(t[1] == s[i + 1]);
            }
            if is_float_text(t) {
                let p = choose|p: int|
                    0 <= p < t.len() - 1 && t[p] == '.' && all_in(t, 0, p, CharClass::Digit)
                        && all_in(t, p + 1, t.len() as int, CharClass::Digit);
                if p < d - i {
                    assert(t[p] == s[i + p] && in_class(s[i + p], CharClass::Digit));
                } else if p > d - i {
                    assert(t[d - i] == s[d] && in_class(t[d - i], CharClass::Digit));
                } else {
                    assert(t[p] == s[d] && t[p + 1] == s[d + 1] && in_class(
                        t[p + 1],
                        CharClass::Digit,
                    ));
                }
            }
            if decimal_shape(t) {
                assert(in_class(t[e - i], CharClass::Digit));
            }
            if octal_shape(t) {
                assert(in_class(t[e - i], CharClass::Octal));
            }
        }
    }
}

/// A hexadecimal or binary literal that takes in its whole digit run is the
/// longest token where it starts.
proof fn lemma_longest_radix(s: Seq<char>, i: int, e: int, k: CharClass)
    requires
        0 <= i,
        i + 3 <= e <= s.len(),
        s[i] == '0',
        k == CharClass::Hex ==> s[i + 1] == 'x' || s[i + 1] == 'X',
        k == CharClass::Binary ==> s[i + 1] == 'b' || s[i + 1] == 'B',
        k == CharClass::Hex || k == CharClass::Binary,
        all_in(s, i + 2, e, k),
        e == s.len() || !in_class(s[e], k),
    ensures
        longest_at(s, i, e),
{
    assert forall|tok: DCToken, e2: int| e < e2 <= s.len() implies !#[trigger] token_spells(
        tok,
        s.subrange(i, e2),
    ) by {
        let t = s.subrange(i, e2);
        if token_spells(tok, t) {
            lemma_token_start(tok, t);
            assert(t[0] == s[i] && t[1] == s[i + 1]);
            assert(t[e - i] == s[e]);
            if is_float_text(t) {
                let p = choose|p: int|
                    0 <= p < t.len() - 1 && t[p] == '.' && all_in(t, 0, p, CharClass::Digit)
                        && all_in(t, p + 1, t.len() as int, CharClass::Digit);
                if p > 1 {
                    assert(in_class(t[1], CharClass::Digit));
                }
            }
            if octal_shape(t) {
                assert(in_class(t[1], CharClass::Octal));
            }
            if decimal_shape(t) {
                assert(in_class(t[1], CharClass::Digit));
            }
            if hex_shape(t) && k == CharClass::Hex {
                assert(in_class(t[e - i], CharClass::Hex));
            }
            if binary_shape(t) && k == CharClass::Binary {
                assert(in_class(t[e - i], CharClass::Binary));
            }
        }
    }
}

/// A word that takes in its whole run of word characters is the longest token
/// where it starts.
proof fn lemma_longest_word(s: Seq<char>, i: int, e: int)
    requires
        0 <= i < e <= s.len(),
        is_ident_start(s[i]),
        e == s.len() || !is_ident_char(s[e]),
    ensures
        longest_at(s, i, e),
{
    assert forall|tok: DCToken, e2: int| e < e2 <= s.len() implies !#[trigger] token_spells(
        tok,
        s.subrange(i, e2),
    ) by {
        let t = s.subrange(i, e2);
        if token_spells(tok, t) {
            assert(t[0] == s[i]);
            lemma_token_start(tok, t);
            assert(t[e - i] == s[e]);
            assert(in_class(t[e - i], CharClass::Ident));
        }
    }
}

/// A token of fixed length whose first character admits no longer token is the
/// longest token where it starts: operators, character literals, and the
/// two-character escape when no hexadecimal escape starts there.
proof fn lemma_longest_short(s: Seq<char>, i: int, e: int)
    requires
        0 <= i < e <= s.len(),
        is_operator_char(s[i]) && e == i + 1 || s[i] == '\'' && e == i + 3 || s[i] == '\\' && e == i
            + 2 && !(i + 2 < s.len() && s[i + 1] == 'x' && is_hex(s[i + 2])),
    ensures
        longest_at(s, i, e),
{
    assert forall|tok: DCToken, e2: int| e < e2 <= s.len() implies !#[trigger] token_spells(
        tok,
        s.subrange(i, e2),
    ) by {
        let t = s.subrange(i, e2);
        if token_spells(tok, t) {
            assert(t[0] == s[i]);
            lemma_token_start(tok, t);
            if s[i] == '\\' {
                assert(t[1] == s[i + 1] && t[2] == s[i + 2]);
                assert(in_class(t[2], CharClass::Hex));
            }
        }
    }
}

/// A hexadecimal escape that takes in its whole digit run, or a string literal
/// that ends at the first closing quote, is the longest token where it starts.
proof fn lemma_longest_escape_or_string(s: Seq<char>, i: int, e: int)
    requires
        0 <= i < e <= s.len(),
        s[i] == '\\' ==> e >= i + 3 && s[i + 1] == 'x' && all_in(s, i + 2, e, CharClass::Hex) && (e
            == s.len() || !is_hex(s[e])),
        s[i] == '"' ==> e >= i + 2 && s[e - 1] == '"',
        s[i] == '\\' || s[i] == '"',
    ensures
        longest_at(s, i, e),
{
    assert forall|tok: DCToken, e2: int| e < e2 <= s.len() implies !#[trigger] token_spells(
        tok,
        s.subrange(i, e2),
    ) by {
        let t = s.subrange(i, e2);
        if token_spells(tok, t) {
            assert(t[0] == s[i]);
            lemma_token_start(tok, t);
            if s[i] == '\\' {
                assert(t[e - i] == s[e] && in_class(t[e - i], CharClass::Hex));
            } else {
                assert(t[e - 1 - i] == s[e - 1]);
            }
        }
    }
}

/// No token starts at `i` when its first character begins none, or when the
/// text there is a malformed character literal, string literal or escape.
proof fn lemma_no_token_at(s: Seq<char>, i: int, e: int)
    requires
        0 <= i < s.len(),
        !is_digit(s[i]),
        !is_ident_start(s[i]),
        !is_operator_char(s[i]),
        s[i] == '.' ==> !(i + 1 < s.len() && is_digit(s[i + 1])),
        s[i] == '\'' ==> !(i + 2 < s.len() && s[i + 1] != '\n' && s[i + 2] == '\''),
        s[i] == '"' ==> i + 1 <= e <= s.len() && all_in(s, i + 1, e, CharClass::InString) && (e
            == s.len() || s[e] == '\n'),
        s[i] == '\\' ==> !(i + 1 < s.len() && s[i + 1] != '\n'),
    ensures
        !token_starts_at(s, i),
{
    assert forall|tok: DCToken, end: int| i < end <= s.len() implies !#[trigger] token_spells(
        tok,
        s.subrange(i, end),
    ) by {
        let t = s.subrange(i, end);
        if token_spells(tok, t) {
            lemma_token_start(tok, t);
            assert(t[0] == s[i]);
            if s[i] == '.' || s[i] == '\'' || s[i] == '\\' {
                assert(t[1] == s[i + 1]);
            }
            if s[i] == '\'' {
                assert(t[2] == s[i + 2]);
            }
            if s[i] == '"' {
                let last = end - 1;
                assert(t.last() == s[last]);
                if last < e {
                    assert(in_class(s[last], CharClass::InString));
                } else if last > e {
                    assert(t[e - i] == s[e]);
                }
            }
        }
    }
}

/// Whether `s` goes on at `end` with a character of class `k`.
pub open spec fn continues_with(s: Seq<char>, end: int, k: CharClass) -> bool {
    end < s.len() && in_class(s[end], k)
}

/// Whether a token that ends at `end` in `s` is not followed by a character of
/// its own class: words by no word character, numbers by no digit of their base.
/// That no longer token of any kind starts at the same place is `longest_at`.
pub open spec fn token_maximal(tok: DCToken, s: Seq<char>, end: int) -> bool {
    match tok {
        DCToken::Identifier(_) | DCToken::Keyword(_) | DCToken::CharType | DCToken::IntType(_)
        | DCToken::FloatType | DCToken::StringType | DCToken::BlobType => !continues_with(
            s,
            end,
            CharClass::Ident,
        ),
        DCToken::DecimalLiteral(_) | DCToken::FloatLiteral(_) => !continues_with(
            s,
            end,
            CharClass::Digit,
        ),
        DCToken::OctalLiteral(_) => !continues_with(s, end, CharClass::Octal),
        DCToken::HexLiteral(_) => !continues_with(s, end, CharClass::Hex),
        DCToken::BinaryLiteral(_) => !continues_with(s, end, CharClass::Binary),
        _ => true,
    }
}

/// Whether `tok` is the token that the source text `t` spells.
pub open spec fn token_spells(tok: DCToken, t: Seq<char>) -> bool {
    match tok {
        DCToken::DecimalLiteral(n) => t.len() >= 1 && t[0] != '0' && all_in(
            t,
            0,
            t.len() as int,
            CharClass::Digit,
        ) && n == decimal_value(t),
        DCToken::OctalLiteral(s) => s@ == t && t.len() >= 1 && t[0] == '0' && all_in(
            t,
            0,
            t.len() as int,
            CharClass::Octal,
        ),
        DCToken::HexLiteral(s) => s@ == t && t.len() >= 3 && t[0] == '0' && (t[1] == 'x' || t[1]
            == 'X') && all_in(t, 2, t.len() as int, CharClass::Hex),
        DCToken::BinaryLiteral(s) => s@ == t && t.len() >= 3 && t[0] == '0' && (t[1] == 'b' || t[1]
            == 'B') && all_in(t, 2, t.len() as int, CharClass::Binary),
        DCToken::FloatLiteral(s) => s@ == t && is_float_text(t),
        DCToken::CharacterLiteral(c) => t == seq!['\'', c, '\''] && c != '\n',
        DCToken::StringLiteral(s) => s@ == t && t.len() >= 2 && t[0] == '"' && t.last() == '"'
            && forall|j: int| 0 < j < t.len() - 1 ==> #[trigger] t[j] != '"' && t[j] != '\n',
        DCToken::EscapeCharacter(s) => s@ == t && t.len() >= 2 && t[0] == '\\' && ((t.len() == 2
            && t[1] != '\n') || (t.len() >= 3 && t[1] == 'x' && all_in(
            t,
            2,
            t.len() as int,
            CharClass::Hex,
        ))),
        DCToken::CharType => t == word_char(),
        DCToken::IntType(s) => s@ == t && is_int_type_word(t),
        DCToken::FloatType => t == word_float64(),
        DCToken::StringType => t == word_string(),
        DCToken::BlobType => t == word_blob(),
        DCToken::Identifier(s) => s@ == t && t.len() >= 1 && is_ident_start(t[0]) && all_in(
            t,
            0,
            t.len() as int,
            CharClass::Ident,
        ) && !is_reserved_word(t),
        DCToken::Keyword(s) => s@ == t && is_keyword_word(t),
        DCToken::Modulus => t == seq!['%'],
        DCToken::Multiplication => t == seq!['*'],
        DCToken::Addition => t == seq!['+'],
        DCToken::Subtraction => t == seq!['-'],
        DCToken::Division => t == seq!['/'],
        DCToken::OpenParenthesis => t == seq!['('],
        DCToken::CloseParenthesis => t == seq![')'],
        DCToken::OpenBraces => t == seq!['{'],
        DCToken::CloseBraces => t == seq!['}'],
        DCToken::OpenBrackets => t == seq!['['],
        DCToken::CloseBrackets => t == seq![']'],
        DCToken::Comma => t == seq![','],
        DCToken::Semicolon => t == seq![';'],
        DCToken::Equals => t == seq!['='],
        DCToken::Colon => t == seq![':'],
        DCToken::Whitespace | DCToken::Comment | DCToken::Newline => false,
    }
}

/// Relies on String::push: appends one character.
#[verifier::external_body]
fn push_char(s: &mut String, c: char)
    ensures
        final(s)@ == old(s)@.push(c),
{
    s.push(c);
}

/// The characters of `s` in `[lo, hi)` as a string.
fn text_of(s: &Vec<char>, lo: usize, hi: usize) -> (r: String)
    requires
        lo <= hi <= s@.len(),
    ensures
        r@ == s@.subrange(lo as int, hi as int),
{
    let mut out = String::new();
    let mut k: usize = lo;
    while k < hi
        invariant
            lo <= k <= hi <= s@.len(),
            out@ == s@.subrange(lo as int, k as int),
        decreases hi - k,
    {
        push_char(&mut out, s[k]);
        k = k + 1;
        proof {
            assert(out@ =~= s@.subrange(lo as int, k as int));
        }
    }
    out
}

fn char_in_class(c: char, k: CharClass) -> (r: bool)
    ensures
        r == in_class(c, k),
{
    let u: u32 = c as u32;
    match k {
        CharClass::Space => c == ' ' || c == '\t' || c == '\r' || c == '\n',
        CharClass::Digit => 48 <= u && u <= 57,
        CharClass::Octal => 48 <= u && u <= 55,
        CharClass::Hex => (48 <= u && u <= 57) || (97 <= u && u <= 102) || (65 <= u && u <= 70),
        CharClass::Binary => c == '0' || c == '1',
        CharClass::Ident => (97 <= u && u <= 122) || (65 <= u && u <= 90) || c == '_' || (48 <= u
            && u <= 57),
        CharClass::InLine => c != '\n',
        CharClass::InString => c != '\n' && c != '"',
    }
}

/// The end of the run of characters of class `k` that starts at `i`.
fn run_end(s: &Vec<char>, i: usize, k: CharClass) -> (r: usize)
    requires
        i <= s@.len(),
    ensures
        i <= r <= s@.len(),
        all_in(s@, i as int, r as int, k),
        r == s@.len() || !in_class(s@[r as int], k),
{
    let mut j: usize = i;
    while j < s.len() && char_in_class(s[j], k)
        invariant
            i <= j <= s@.len(),
            all_in(s@, i as int, j as int, k),
        decreases s@.len() - j,
    {
        j = j + 1;
    }
    j
}

/// Whether `s` holds the characters of `w` at `[lo, hi)`.
fn text_is(s: &Vec<char>, lo: usize, hi: usize, w: &[char]) -> (r: bool)
    requires
        lo <= hi <= s@.len(),
    ensures
        r == (s@.subrange(lo as int, hi as int) == w@),
{
    if hi - lo != w.len() {
        return false;
    }
    let mut k: usize = 0;
    while k < w.len()
        invariant
            hi - lo == w@.len(),
            lo <= hi <= s@.len(),
            k <= w@.len(),
            forall|j: int| 0 <= j < k ==> s@[lo + j] == w@[j],
        decreases w@.len() - k,
    {
        if s[lo + k] != w[k] {
            proof {
                assert(s@.subrange(lo as int, hi as int)[k as int] != w@[k as int]);
            }
            return false;
        }
        k = k + 1;
    }
    proof {
        assert(s@.subrange(lo as int, hi as int) =~= w@);
    }
    true
}

/// A run of digits is worth at least any of its prefixes.
proof fn lemma_decimal_prefix_le(t: Seq<char>, k: int)
    requires
        0 <= k <= t.len(),
        all_in(t, 0, t.len() as int, CharClass::Digit),
    ensures
        decimal_value(t.subrange(0, k)) <= decimal_value(t),
    decreases t.len(),
{
    if k < t.len() {
        let u = t.drop_last();
        assert(all_in(u, 0, u.len() as int, CharClass::Digit)) by {
            assert forall|j: int| 0 <= j < u.len() implies in_class(#[trigger] u[j], CharClass::Digit) by {
                assert(u[j] == t[j]);
            }
        }
        lemma_decimal_prefix_le(u, k);
        assert(u.subrange(0, k) =~= t.subrange(0, k));
    } else {
        assert(t.subrange(0, k) =~= t);
    }
}

/// The value of the decimal digits of `s` in `[lo, hi)`, if it fits an `i64`.
fn parse_decimal(s: &Vec<char>, lo: usize, hi: usize) -> (r: Option<i64>)
    requires
        lo <= hi <= s@.len(),
        all_in(s@, lo as int, hi as int, CharClass::Digit),
    ensures
        r is Some <==> decimal_value(s@.subrange(lo as int, hi as int)) <= i64::MAX,
        r is Some ==> r->Some_0 == decimal_value(s@.subrange(lo as int, hi as int)),
{
    let ghost t = s@.subrange(lo as int, hi as int);
    let mut acc: i64 = 0;
    let mut k: usize = lo;
    while k < hi
        invariant
            lo <= k <= hi <= s@.len(),
            t == s@.subrange(lo as int, hi as int),
            all_in(s@, lo as int, hi as int, CharClass::Digit),
            acc as int == decimal_value(s@.subrange(lo as int, k as int)),
            acc >= 0,
        decreases hi - k,
    {
        let d: i64 = (s[k] as u32 - 48) as i64;
        proof {
            let p = s@.subrange(lo as int, k + 1);
            assert(p.drop_last() =~= s@.subrange(lo as int, k as int));
            assert(in_class(s@[k as int], CharClass::Digit));
        }
        let next: Option<i64> = match acc.checked_mul(10) {
            Some(m) => m.checked_add(d),
            None => None,
        };
        match next {
            Some(n) => {
                acc = n;
            },
            None => {
                proof {
                    assert(all_in(t, 0, t.len() as int, CharClass::Digit)) by {
                        assert forall|j: int| 0 <= j < t.len() implies in_class(
                            #[trigger] t[j],
                            CharClass::Digit,
                        ) by {
                            assert(t[j] == s@[lo + j]);
                        }
                    }
                    lemma_decimal_prefix_le(t, k + 1 - lo);
                    assert(t.subrange(0, k + 1 - lo) =~= s@.subrange(lo as int, k + 1));
                }
                return None;
            },
        }
        k = k + 1;
    }
    Some(acc)
}

/// Scans the token that starts at `i`, which is not the start of a blank or a
/// comment. On success, returns the token and where it ends; on failure, the
/// kind of error and where the offending text ends.
fn scan_token(s: &Vec<char>, i: usize) -> (r: Result<(DCToken, usize), (DCLexErrorKind, usize)>)
    requires
        i < s@.len(),
    ensures
        match r {
            Ok((tok, end)) => i < end <= s@.len() && token_spells(
                tok,
                s@.subrange(i as int, end as int),
            ) && token_maximal(tok, s@, end as int) && longest_at(s@, i as int, end as int),
            Err((kind, end)) => {
                &&& i < end <= s@.len()
                &&& kind == DCLexErrorKind::UnexpectedCharacter ==> end == i + 1 && !token_starts_at(
                    s@,
                    i as int,
                )
                &&& kind == DCLexErrorKind::LiteralOutOfRange ==> literal_too_large(
                    s@.subrange(i as int, end as int),
                ) && !continues_with(s@, end as int, CharClass::Digit)
            },
        },
{
    let n: usize = s.len();
    let c: char = s[i];
    let digit: bool = char_in_class(c, CharClass::Digit);
    if digit || (c == '.' && i + 1 < n && char_in_class(s[i + 1], CharClass::Digit)) {
        let d: usize = run_end(s, i, CharClass::Digit);
        if d < n && d + 1 < n && s[d] == '.' && char_in_class(s[d + 1], CharClass::Digit) {
            let e: usize = run_end(s, d + 1, CharClass::Digit);
            let text = text_of(s, i, e);
            proof {
                let t = s@.subrange(i as int, e as int);
                let p = d - i;
                assert(t[p] == '.');
                assert(all_in(t, 0, p, CharClass::Digit)) by {
                    assert forall|j: int| 0 <= j < p implies in_class(#[trigger] t[j], CharClass::Digit) by {
                        assert(t[j] == s@[i + j]);
                    }
                }
                assert(all_in(t, p + 1, t.len() as int, CharClass::Digit)) by {
                    assert forall|j: int| p + 1 <= j < t.len() implies in_class(
                        #[trigger] t[j],
                        CharClass::Digit,
                    ) by {
                        assert(t[j] == s@[i + j]);
                    }
                }
                assert(is_float_text(t));
            }
            proof {
                lemma_longest_float(s@, i as int, d as int, e as int);
            }
            return Ok((DCToken::FloatLiteral(text), e));
        }
        if c == '0' {
            if i + 1 < n && i + 2 < n && (s[i + 1] == 'x' || s[i + 1] == 'X') && char_in_class(
                s[i + 2],
                CharClass::Hex,
            ) {
                let e: usize = run_end(s, i + 2, CharClass::Hex);
                let text = text_of(s, i, e);
                proof {
                    let t = s@.subrange(i as int, e as int);
                    assert forall|j: int| 2 <= j < t.len() implies in_class(#[trigger] t[j], CharClass::Hex) by {
                        assert(t[j] == s@[i + j]);
                    }
                }
                proof {
                    lemma_longest_radix(s@, i as int, e as int, CharClass::Hex);
                }
                return Ok((DCToken::HexLiteral(text), e));
            }
            if i + 1 < n && i + 2 < n && (s[i + 1] == 'b' || s[i + 1] == 'B') && char_in_class(
                s[i + 2],
                CharClass::Binary,
            ) {
                let e: usize = run_end(s, i + 2, CharClass::Binary);
                let text = text_of(s, i, e);
                proof {
                    let t = s@.subrange(i as int, e as int);
                    assert forall|j: int| 2 <= j < t.len() implies in_class(#[trigger] t[j], CharClass::Binary) by {
                        assert(t[j] == s@[i + j]);
                    }
                }
                proof {
                    lemma_longest_radix(s@, i as int, e as int, CharClass::Binary);
                }
                return Ok((DCToken::BinaryLiteral(text), e));
            }
            let e: usize = run_end(s, i + 1, CharClass::Octal);
            let text = text_of(s, i, e);
            proof {
                let t = s@.subrange(i as int, e as int);
                assert forall|j: int| 0 <= j < t.len() implies in_class(#[trigger] t[j], CharClass::Octal) by {
                    assert(t[j] == s@[i + j]);
                }
            }
            proof {
                if d < e {
                    assert(in_class(s@[d as int], CharClass::Octal));
                }
                lemma_longest_integer(s@, i as int, d as int, e as int);
            }
            return Ok((DCToken::OctalLiteral(text), e));
        }
        proof {
            let t = s@.subrange(i as int, d as int);
            assert forall|j: int| 0 <= j < t.len() implies in_class(#[trigger] t[j], CharClass::Digit) by {
                assert(t[j] == s@[i + j]);
            }
        }
        proof {
            lemma_longest_integer(s@, i as int, d as int, d as int);
        }
        return match parse_decimal(s, i, d) {
            Some(v) => Ok((DCToken::DecimalLiteral(v), d)),
            None => Err((DCLexErrorKind::LiteralOutOfRange, d)),
        };
    }
    if char_in_class(c, CharClass::Ident) {
        let e: usize = run_end(s, i, CharClass::Ident);
        proof {
            let t = s@.subrange(i as int, e as int);
            assert forall|j: int| 0 <= j < t.len() implies in_class(#[trigger] t[j], CharClass::Ident) by {
                assert(t[j] == s@[i + j]);
            }
        }
        proof {
            lemma_longest_word(s@, i as int, e as int);
        }
        return Ok((word_token(s, i, e), e));
    }
    if c == '\'' {
        if i + 1 < n && i + 2 < n && s[i + 1] != '\n' && s[i + 2] == '\'' {
            let inner: char = s[i + 1];
            proof {
                assert(s@.subrange(i as int, i + 3) =~= seq!['\'', inner, '\'']);
            }
            proof {
                lemma_longest_short(s@, i as int, i + 3);
            }
            return Ok((DCToken::CharacterLiteral(inner), i + 3));
        }
        proof {
            lemma_no_token_at(s@, i as int, i as int);
        }
        return Err((DCLexErrorKind::UnexpectedCharacter, i + 1));
    }
    if c == '"' {
        let e: usize = run_end(s, i + 1, CharClass::InString);
        if e < n && s[e] == '"' {
            let text = text_of(s, i, e + 1);
            proof {
                let t = s@.subrange(i as int, e + 1);
                assert forall|j: int| 0 < j < t.len() - 1 implies #[trigger] t[j] != '"' && t[j]
                    != '\n' by {
                    assert(t[j] == s@[i + j]);
                    assert(in_class(s@[i + j], CharClass::InString));
                }
            }
            proof {
                lemma_longest_escape_or_string(s@, i as int, e + 1);
            }
            return Ok((DCToken::StringLiteral(text), e + 1));
        }
        proof {
            lemma_no_token_at(s@, i as int, e as int);
        }
        return Err((DCLexErrorKind::UnexpectedCharacter, i + 1));
    }
    if c == '\\' {
        if i + 1 < n && i + 2 < n && s[i + 1] == 'x' && char_in_class(s[i + 2], CharClass::Hex) {
            let e: usize = run_end(s, i + 2, CharClass::Hex);
            let text = text_of(s, i, e);
            proof {
                let t = s@.subrange(i as int, e as int);
                assert forall|j: int| 2 <= j < t.len() implies in_class(#[trigger] t[j], CharClass::Hex) by {
                    assert(t[j] == s@[i + j]);
                }
            }
            proof {
                lemma_longest_escape_or_string(s@, i as int, e as int);
            }
            return Ok((DCToken::EscapeCharacter(text), e));
        }
        if i + 1 < n && s[i + 1] != '\n' {
            let text = text_of(s, i, i + 2);
            proof {
                lemma_longest_short(s@, i as int, i + 2);
            }
            return Ok((DCToken::EscapeCharacter(text), i + 2));
        }
        proof {
            lemma_no_token_at(s@, i as int, i as int);
        }
        return Err((DCLexErrorKind::UnexpectedCharacter, i + 1));
    }
    let tok: Option<DCToken> = match c {
        '%' => Some(DCToken::Modulus),
        '*' => Some(DCToken::Multiplication),
        '+' => Some(DCToken::Addition),
        '-' => Some(DCToken::Subtraction),
        '/' => Some(DCToken::Division),
        '(' => Some(DCToken::OpenParenthesis),
        ')' => Some(DCToken::CloseParenthesis),
        '{' => Some(DCToken::OpenBraces),
        '}' => Some(DCToken::CloseBraces),
        '[' => Some(DCToken::OpenBrackets),
        ']' => Some(DCToken::CloseBrackets),
        ',' => Some(DCToken::Comma),
        ';' => Some(DCToken::Semicolon),
        '=' => Some(DCToken::Equals),
        ':' => Some(DCToken::Colon),
        _ => None,
    };
    proof {
        assert(s@.subrange(i as int, i + 1) =~= seq![c]);
        if tok is Some {
            lemma_longest_short(s@, i as int, i + 1);
        }
        if tok is None {
            lemma_no_token_at(s@, i as int, i as int);
        }
    }
    match tok {
        Some(t) => Ok((t, i + 1)),
        None => Err((DCLexErrorKind::UnexpectedCharacter, i + 1)),
    }
}

/// The token of the word at `[lo, hi)`: a type name, a keyword or an identifier.
fn word_token(s: &Vec<char>, lo: usize, hi: usize) -> (r: DCToken)
    requires
        lo < hi <= s@.len(),
        is_ident_start(s@[lo as int]),
        all_in(s@.subrange(lo as int, hi as int), 0, hi - lo, CharClass::Ident),
    ensures
        token_spells(r, s@.subrange(lo as int, hi as int)),
{
    let ghost t = s@.subrange(lo as int, hi as int);
    if text_is(s, lo, hi, &['c', 'h', 'a', 'r']) {
        return DCToken::CharType;
    }
    if text_is(s, lo, hi, &['f', 'l', 'o', 'a', 't', '6', '4']) {
        return DCToken::FloatType;
    }
    if text_is(s, lo, hi, &['s', 't', 'r', 'i', 'n', 'g']) {
        return DCToken::StringType;
    }
    if text_is(s, lo, hi, &['b', 'l', 'o', 'b']) {
        return DCToken::BlobType;
    }
    let b: usize = if s[lo] == 'u' {
        lo + 1
    } else {
        lo
    };
    proof {
        if t.len() > 0 && t[0] == 'u' {
            assert(s@.subrange(b as int, hi as int) =~= t.subrange(1, t.len() as int));
        } else {
            assert(s@.subrange(b as int, hi as int) =~= t);
        }
    }
    if text_is(s, b, hi, &['i', 'n', 't', '8']) || text_is(s, b, hi, &['i', 'n', 't', '1', '6'])
        || text_is(s, b, hi, &['i', 'n', 't', '3', '2']) || text_is(
        s,
        b,
        hi,
        &['i', 'n', 't', '6', '4'],
    ) {
        return DCToken::IntType(text_of(s, lo, hi));
    }
    if text_is(s, lo, hi, &['d', 'c', 'l', 'a', 's', 's']) || text_is(
        s,
        lo,
        hi,
        &['s', 't', 'r', 'u', 'c', 't'],
    ) || text_is(s, lo, hi, &['k', 'e', 'y', 'w', 'o', 'r', 'd']) {
        return DCToken::Keyword(text_of(s, lo, hi));
    }
    DCToken::Identifier(text_of(s, lo, hi))
}

/// A lexer over schema source text. It yields tokens with their spans, skipping
/// blanks and comments and counting lines as it goes.
pub struct Lexer {
    input: Vec<char>,
    pos: usize,
    lines: usize,
}

impl Lexer {
    /// The characters being lexed.
    pub closed spec fn input(&self) -> Seq<char> {
        self.input@
    }

    /// The offset of the next character to look at.
    pub closed spec fn pos(&self) -> nat {
        self.pos as nat
    }

    /// The number of line breaks before the current offset.
    pub closed spec fn lines_before(&self) -> nat {
        self.lines as nat
    }

    /// Whether the lexer's position and line count agree with its input.
    pub open spec fn wf(&self) -> bool {
        &&& self.pos() <= self.input().len()
        &&& self.lines_before() == newlines(self.input().subrange(0, self.pos() as int))
    }

    /// A lexer at the start of `s`, on line 1.
    pub fn new(s: &str) -> (r: Lexer)
        ensures
            r.wf(),
            r.input() == s@,
            r.pos() == 0,
    {
        let mut chars: Vec<char> = Vec::new();
        for c in it: s.chars()
            invariant
                it.seq() == s@,
                chars@ == s@.subrange(0, it.index() as int),
        {
            chars.push(c);
            proof {
                assert(chars@ =~= s@.subrange(0, it.index() + 1));
            }
        }
        proof {
            assert(chars@ =~= s@);
        }
        let r = Lexer { input: chars, pos: 0, lines: 0 };
        proof {
            assert(r.input().subrange(0, 0) =~= Seq::<char>::empty());
        }
        r
    }

    /// Moves to `end`, counting the line breaks passed.
    fn advance_to(&mut self, end: usize)
        requires
            old(self).wf(),
            old(self).pos() <= end <= old(self).input().len(),
        ensures
            final(self).wf(),
            final(self).input() == old(self).input(),
            final(self).pos() == end,
    {
        while self.pos < end
            invariant
                self.wf(),
                self.input() == old(self).input(),
                self.pos() <= end <= self.input().len(),
            decreases end - self.pos,
        {
            proof {
                let p = self.input@.subrange(0, self.pos + 1);
                assert(p.drop_last() =~= self.input@.subrange(0, self.pos as int));
                lemma_newlines_bounded(self.input@.subrange(0, self.pos as int));
            }
            if self.input[self.pos] == '\n' {
                self.lines = self.lines + 1;
            }
            self.pos = self.pos + 1;
        }
    }

    /// The next token and its span, or `None` at the end of the input. An error
    /// is fatal: it ends the lexing, and later calls yield `None`.
    pub fn next(&mut self) -> (r: Option<Result<(DCToken, Span), DCLexError>>)
        requires
            old(self).wf(),
        ensures
            final(self).wf(),
            final(self).input() == old(self).input(),
            match r {
                None => {
                    &&& final(self).pos() == old(self).input().len()
                    &&& trivia(old(self).input(), old(self).pos() as int, old(self).input().len() as int)
                },
                Some(Ok((tok, span))) => {
                    &&& old(self).pos() <= span.min < span.max
                    &&& trivia(old(self).input(), old(self).pos() as int, span.min as int)
                    &&& !trivia_starts(old(self).input(), span.min as int)
                    &&& span.max == final(self).pos()
                    &&& token_spells(tok, old(self).input().subrange(span.min as int, span.max as int))
                    &&& token_maximal(tok, old(self).input(), span.max as int)
                    &&& longest_at(old(self).input(), span.min as int, span.max as int)
                    &&& span.line == 1 + newlines(old(self).input().subrange(0, span.min as int))
                },
                Some(Err(e)) => {
                    &&& old(self).pos() <= e.span.min < e.span.max <= old(self).input().len()
                    &&& trivia(old(self).input(), old(self).pos() as int, e.span.min as int)
                    &&& !trivia_starts(old(self).input(), e.span.min as int)
                    &&& e.span.line == 1 + newlines(old(self).input().subrange(0, e.span.min as int))
                    &&& e.kind == DCLexErrorKind::LiteralOutOfRange ==> literal_too_large(
                        old(self).input().subrange(e.span.min as int, e.span.max as int),
                    ) && !continues_with(old(self).input(), e.span.max as int, CharClass::Digit)
                    &&& e.kind == DCLexErrorKind::UnexpectedCharacter ==> e.span.max == e.span.min + 1
                        && !token_starts_at(old(self).input(), e.span.min as int)
                    &&& final(self).pos() == old(self).input().len()
                },
            },
    {
        let n: usize = self.input.len();
        let ghost s = self.input@;
        let ghost mut cuts: Seq<int> = seq![self.pos as int];
        loop
            invariant
                self.wf(),
                self.input() == old(self).input(),
                s == self.input@,
                n == self.input@.len(),
                old(self).pos() <= self.pos(),
                cuts.len() >= 1,
                cuts[0] == old(self).pos(),
                cuts.last() == self.pos(),
                tiled(s, cuts),
            ensures
                self.wf(),
                self.input() == old(self).input(),
                s == self.input@,
                n == self.input@.len(),
                old(self).pos() <= self.pos() < n,
                trivia(s, old(self).pos() as int, self.pos() as int),
                !trivia_starts(s, self.pos() as int),
            decreases n - self.pos,
        {
            if self.pos >= n {
                return None;
            }
            let c: char = self.input[self.pos];
            let ghost a: int = self.pos as int;
            let mut e: usize = self.pos;
            if char_in_class(c, CharClass::Space) {
                e = run_end(&self.input, self.pos, CharClass::Space);
            } else if c == '/' && self.pos + 1 < n && self.input[self.pos + 1] == '/' {
                e = run_end(&self.input, self.pos, CharClass::InLine);
                proof {
                    assert(in_class(s[a], CharClass::InLine) && in_class(s[a + 1], CharClass::InLine));
                }
            } else if c == '/' && self.pos + 1 < n && self.input[self.pos + 1] == '*' {
                match block_comment_end(&self.input, self.pos + 2) {
                    Some(b) => {
                        e = b;
                    },
                    None => {},
                }
            }
            if e == self.pos {
                proof {
                    assert(cuts.len() >= 1 && cuts[0] == old(self).pos() && cuts.last() == a
                        && tiled(s, cuts));
                    assert(!trivia_starts(s, a));
                }
                break;
            }
            proof {
                assert(trivia_piece(s, a, e as int));
                let next_cuts = cuts.push(e as int);
                assert forall|k: int| 0 <= k < next_cuts.len() - 1 implies trivia_piece(
                    s,
                    #[trigger] next_cuts[k],
                    next_cuts[k + 1],
                ) by {
                    if k < cuts.len() - 1 {
                        assert(next_cuts[k] == cuts[k] && next_cuts[k + 1] == cuts[k + 1]);
                    }
                }
                cuts = next_cuts;
            }
            self.advance_to(e);
        }
        let start: usize = self.pos;
        proof {
            lemma_newlines_bounded(self.input@.subrange(0, start as int));
        }
        let line: usize = self.lines + 1;
        match scan_token(&self.input, start) {
            Ok((tok, end)) => {
                self.advance_to(end);
                Some(Ok((tok, Span { min: start, max: end, line })))
            },
            Err((kind, end)) => {
                self.advance_to(n);
                Some(Err(DCLexError { kind, span: Span { min: start, max: end, line } }))
            },
        }
    }
}

/// A text has no more line breaks than characters.
proof fn lemma_newlines_bounded(t: Seq<char>)
    ensures
        newlines(t) <= t.len(),
    decreases t.len(),
{
    if t.len() > 0 {
        lemma_newlines_bounded(t.drop_last());
    }
}

/// The offset just past the first `*/` at or after `i`, if there is one.
fn block_comment_end(s: &Vec<char>, i: usize) -> (r: Option<usize>)
    requires
        i <= s@.len(),
    ensures
        r is Some ==> i + 2 <= r->Some_0 <= s@.len() && closes_at(s@, r->Some_0 - 2) && forall|
            j: int,
        | i <= j < r->Some_0 - 2 ==> !closes_at(s@, j),
        r is None ==> forall|j: int| i <= j ==> !closes_at(s@, j),
{
    let mut j: usize = i;
    while j < s.len() && j + 1 < s.len()
        invariant
            i <= j <= s@.len(),
            forall|k: int| i <= k < j ==> !closes_at(s@, k),
        decreases s@.len() - j,
    {
        if s[j] == '*' && s[j + 1] == '/' {
            return Some(j + 2);
        }
        j = j + 1;
    }
    None
}

} // verus!
