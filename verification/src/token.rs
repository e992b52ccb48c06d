//! Tokens, and the strict reading of a token as an integer.

use vstd::prelude::*;

verus! {

/// Whether `c` is one of the ten ASCII decimal digits.
pub open spec fn is_digit(c: char) -> bool {
    0x30 <= c as u32 <= 0x39
}

/// The number that the ASCII digit `c` stands for.
pub open spec fn digit_value(c: char) -> nat {
    (c as u32 - 0x30) as nat
}

/// Whether `s` holds decimal digits only.
pub open spec fn all_digits(s: Seq<char>) -> bool {
    forall|i: int| 0 <= i < s.len() ==> is_digit(#[trigger] s[i])
}

/// The number that a sequence of decimal digits denotes in base 10; 0 for the empty sequence.
pub open spec fn decimal_value(s: Seq<char>) -> nat
    decreases s.len(),
{
    if s.len() == 0 {
        0
    } else {
        decimal_value(s.drop_last()) * 10 + digit_value(s.last())
    }
}

/// The digits of a number token: the token without its sign, if it has one.
/// `minus` says whether `-` is taken as a sign besides `+`.
pub open spec fn magnitude_digits(s: Seq<char>, minus: bool) -> Seq<char> {
    if s.len() > 0 && (s[0] == '+' || (minus && s[0] == '-')) {
        s.skip(1)
    } else {
        s
    }
}

/// Strict base-10 reading of a token as an unsigned 64-bit integer: an
/// optional `+`, then at least one digit and nothing else, the number within
/// range.
pub open spec fn unsigned_of(s: Seq<char>) -> Option<u64> {
    let digits = magnitude_digits(s, false);
    if digits.len() > 0 && all_digits(digits) && decimal_value(digits) <= u64::MAX {
        Some(decimal_value(digits) as u64)
    } else {
        None
    }
}

/// Strict base-10 reading of a token as a signed 64-bit integer: an optional
/// `+` or `-`, then at least one digit and nothing else, the number within
/// range.
pub open spec fn signed_of(s: Seq<char>) -> Option<i64> {
    let digits = magnitude_digits(s, true);
    let number = if s.len() > 0 && s[0] == '-' {
        -(decimal_value(digits) as int)
    } else {
        decimal_value(digits) as int
    };
    if digits.len() > 0 && all_digits(digits) && i64::MIN <= number <= i64::MAX {
        Some(number as i64)
    } else {
        None
    }
}

/// The lower-case form of a string, as `str::to_lowercase` computes it.
pub uninterp spec fn lowercase_of(s: Seq<char>) -> Seq<char>;

/// Calls `str::parse::<u64>`. Its documentation gives the grammar of
/// [`unsigned_of`]: an optional `+` sign followed by decimal digits only; an
/// empty string, any other character and a number out of range are errors.
#[verifier::external_body]
pub(crate) fn scan_unsigned(token: &str) -> (r: Option<u64>)
    ensures
        r == unsigned_of(token@),
{
    token.parse::<u64>().ok()
}

/// Calls `str::parse::<i64>`. Its documentation gives the grammar of
/// [`signed_of`]: an optional `+` or `-` sign followed by decimal digits only;
/// an empty string, any other character and a number out of range are errors.
#[verifier::external_body]
pub(crate) fn scan_signed(token: &str) -> (r: Option<i64>)
    ensures
        r == signed_of(token@),
{
    token.parse::<i64>().ok()
}

/// Calls `str::to_lowercase`. The result depends on the characters alone, so
/// it is given the name [`lowercase_of`]; nothing more is claimed of it.
#[verifier::external_body]
pub(crate) fn fold_case(s: &str) -> (r: String)
    ensures
        r@ == lowercase_of(s@),
{
    s.to_lowercase()
}

/// One token of a command as it arrives, prepared for matching.
///
/// Besides the text it carries the text's lower-case form, by which names are
/// compared, and its reading as a floating-point number: the IEEE 754
/// binary64 bit pattern of the number that the text denotes, or `None` where
/// it denotes none. The reading is supplied by whoever builds the token.
#[derive(Clone, Debug, PartialEq, Eq)]
pub struct Token {
    text: String,
    folded: String,
    float_bits: Option<u64>,
}

/// The mathematical content of a [`Token`].
pub ghost struct TokenView {
    pub text: Seq<char>,
    pub folded: Seq<char>,
    pub float_bits: Option<u64>,
}

impl View for Token {
    type V = TokenView;

    closed spec fn view(&self) -> TokenView {
        TokenView { text: self.text@, folded: self.folded@, float_bits: self.float_bits }
    }
}

/// The views of a sequence of tokens, in order.
pub open spec fn token_views(tokens: Seq<Token>) -> Seq<TokenView> {
    Seq::new(tokens.len(), |i: int| tokens[i]@)
}

impl Token {
    /// A token with the given text and floating-point reading.
    pub fn new(text: &str, float_bits: Option<u64>) -> (r: Token)
        ensures
            r@ == (TokenView { text: text@, folded: lowercase_of(text@), float_bits }),
    {
        Token { text: text.to_owned(), folded: fold_case(text), float_bits }
    }

    /// The token as it arrived.
    pub fn text(&self) -> (r: &String)
        ensures
            r@ == self@.text,
    {
        &self.text
    }

    /// The token in lower case.
    pub fn folded(&self) -> (r: &String)
        ensures
            r@ == self@.folded,
    {
        &self.folded
    }

    /// The token's reading as a floating-point number, as bits.
    pub fn float_bits(&self) -> (r: Option<u64>)
        ensures
            r == self@.float_bits,
    {
        self.float_bits
    }
}

} // verus!
