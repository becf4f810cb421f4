//! Character classes, maximal runs of characters, and the few pieces of `std` text handling
//! that the lexer relies on without proof.
use vstd::prelude::*;

verus! {

/// What `char::is_alphabetic` answers for a character.
pub uninterp spec fn is_alphabetic_char(c: char) -> bool;

/// What `str::to_lowercase` returns for a text.
pub uninterp spec fn lowercase_of(text: Seq<char>) -> Seq<char>;

/// `char::is_alphabetic` tells whether a character has the Unicode `Alphabetic` property.
/// The answer depends on the character alone; it is not spelled out here but named
/// [`is_alphabetic_char`].
pub assume_specification[ char::is_alphabetic ](c: char) -> (r: bool)
    ensures
        r == is_alphabetic_char(c),
;

/// `str::to_lowercase` returns the lowercase equivalent of a string slice as a new `String`.
/// The mapping follows the Unicode lowercase rules; it is not spelled out here but named
/// [`lowercase_of`].
pub assume_specification[ str::to_lowercase ](s: &str) -> (r: String)
    ensures
        r@ == lowercase_of(s@),
;

/// `String::push` appends the given character to the end of the string.
pub assume_specification[ String::push ](s: &mut String, c: char)
    ensures
        final(s)@ == old(s)@.push(c),
;

/// The classes of characters that the lexer consumes in runs.
#[derive(Clone, Copy, Debug, PartialEq, Eq, Structural)]
pub enum CharClass {
    /// Space, tab and carriage return.
    Blank,
    /// Everything but a line break: the inside of a comment.
    Comment,
    /// Decimal digits and the decimal point.
    Number,
    /// Alphabetic characters.
    Letter,
    /// What may stand inside a string literal.
    Literal,
}

/// The ten decimal digits.
pub open spec fn is_decimal_digit(c: char) -> bool {
    '0' <= c && c <= '9'
}

/// The characters that separate tokens and mean nothing: space, tab, carriage return.
pub open spec fn is_blank(c: char) -> bool {
    c == ' ' || c == '\t' || c == '\r'
}

/// The characters that end a string literal with an error instead of being part of it.
pub open spec fn is_forbidden_in_literal(c: char) -> bool {
    c == '\n' || c == '\r' || c == '%' || c == '\t' || c == '\\'
}

/// Whether `c` belongs to `class`, given whether it is alphabetic.
pub open spec fn belongs_to(class: CharClass, c: char, alphabetic: bool) -> bool {
    match class {
        CharClass::Blank => is_blank(c),
        CharClass::Comment => c != '\n',
        CharClass::Number => is_decimal_digit(c) || c == '.',
        CharClass::Letter => alphabetic,
        CharClass::Literal => c != '"' && !is_forbidden_in_literal(c),
    }
}

/// Whether `c` belongs to `class`.
pub open spec fn in_class(class: CharClass, c: char) -> bool {
    belongs_to(class, c, is_alphabetic_char(c))
}

/// What the first character of a token announces.
#[derive(Clone, Copy, Debug, PartialEq, Eq, Structural)]
pub enum Leading {
    /// A decimal digit: a number follows.
    Number,
    /// An alphabetic character: a word follows.
    Word,
    /// Anything else: an operator, a string, a line break, the end of the input, or no
    /// token at all.
    Other,
}

/// What `c` announces, given whether it is alphabetic. A digit announces a number whatever
/// else it may be.
pub open spec fn leading(c: char, alphabetic: bool) -> Leading {
    if is_decimal_digit(c) {
        Leading::Number
    } else if alphabetic {
        Leading::Word
    } else {
        Leading::Other
    }
}

/// The end of the maximal run of characters of `class` that starts at `from`: the first
/// position at or after `from` that holds no character of the class, or lies past the text.
pub open spec fn run_end(text: Seq<char>, from: int, class: CharClass) -> int
    decreases text.len() - from,
{
    if 0 <= from < text.len() && in_class(class, text[from]) {
        run_end(text, from + 1, class)
    } else {
        from
    }
}

/// A run ends where it starts or later, never past the text unless it started there, and
/// holds nothing but characters of its class; the character at its end is not of the class.
pub proof fn lemma_run_end(text: Seq<char>, from: int, class: CharClass)
    requires
        0 <= from,
    ensures
        from <= run_end(text, from, class),
        from <= text.len() ==> run_end(text, from, class) <= text.len(),
        forall|i: int| from <= i < run_end(text, from, class) ==> in_class(class, #[trigger] text[i]),
        run_end(text, from, class) < text.len() ==> !in_class(
            class,
            text[run_end(text, from, class)],
        ),
    decreases text.len() - from,
{
    if from < text.len() && in_class(class, text[from]) {
        lemma_run_end(text, from + 1, class);
    }
}

/// What `c` announces at the start of a token, given whether it is alphabetic.
pub fn classify(c: char, alphabetic: bool) -> (r: Leading)
    ensures
        r == leading(c, alphabetic),
{
    if is_digit(c) {
        Leading::Number
    } else if alphabetic {
        Leading::Word
    } else {
        Leading::Other
    }
}

/// Whether `c` belongs to `class`, given whether it is alphabetic.
pub fn belongs(class: CharClass, c: char, alphabetic: bool) -> (r: bool)
    ensures
        r == belongs_to(class, c, alphabetic),
{
    match class {
        CharClass::Blank => is_whitespace(c),
        CharClass::Comment => c != '\n',
        CharClass::Number => is_digit(c) || c == '.',
        CharClass::Letter => alphabetic,
        CharClass::Literal => c != '"' && !is_forbidden(c),
    }
}

/// Whether `c` is a decimal digit.
pub fn is_digit(c: char) -> (r: bool)
    ensures
        r == is_decimal_digit(c),
{
    '0' <= c && c <= '9'
}

/// Whether `c` is a space, a tab or a carriage return.
pub fn is_whitespace(c: char) -> (r: bool)
    ensures
        r == is_blank(c),
{
    c == ' ' || c == '\t' || c == '\r'
}

/// Whether `c` may not stand inside a string literal.
pub fn is_forbidden(c: char) -> (r: bool)
    ensures
        r == is_forbidden_in_literal(c),
{
    c == '\n' || c == '\r' || c == '%' || c == '\t' || c == '\\'
}

/// The character of `data` at `position`, if the text reaches that far.
pub fn char_at(data: &String, position: i64) -> (r: Option<char>)
    ensures
        r == spec_char_at(data@, position as int),
{
    if position < 0 {
        return None;
    }
    let length: usize = data.as_str().unicode_len();
    if (position as u64) < (length as u64) {
        Some(data.as_str().get_char(position as usize))
    } else {
        None
    }
}

/// The character of `text` at `position`, if the text reaches that far.
pub open spec fn spec_char_at(text: Seq<char>, position: int) -> Option<char> {
    if 0 <= position < text.len() {
        Some(text[position])
    } else {
        None
    }
}

/// Whether two texts hold the same characters.
pub fn same_text(a: &str, b: &str) -> (r: bool)
    ensures
        r == (a@ == b@),
{
    a.to_owned() == b.to_owned()
}

} // verus!
